//! Whole-library laws, each proved from the public contracts: the
//! determinism of the translation, the emptiness of the content region
//! for a bare balanced block, and the absence of the template's
//! placeholders from a finished document.

use vstd::prelude::*;
use crate::emit::{
    dark_css, light_css, spec_doc, spec_finish, spec_theme_css, tpl_body, tpl_head, tpl_style,
    tpl_tail,
};
use crate::machine::{init_state, spec_step, spec_transpile, MachineState};
use crate::table::tbl_lookup;
use crate::text::{
    lemma_percent_prefix_clean, lemma_replace_at, occurs_in, spec_join, spec_lines, spec_replace,
    spec_starts_with, spec_trim,
};

verus! {

/// No `%` character occurs in `s`.
pub open spec fn percent_free(s: Seq<char>) -> bool {
    forall|i: int| 0 <= i < s.len() ==> s[i] != '%'
}

proof fn lemma_percent_free_add(a: Seq<char>, b: Seq<char>)
    requires
        percent_free(a),
        percent_free(b),
    ensures
        percent_free(a.add(b)),
{
    assert forall|i: int| 0 <= i < a.add(b).len() implies a.add(b)[i] != '%' by {
        if i < a.len() {
            assert(a.add(b)[i] == a[i]);
        } else {
            assert(a.add(b)[i] == b[i - a.len()]);
        }
    }
}

proof fn lemma_percent_free_no_occurrence(s: Seq<char>, pat: Seq<char>)
    requires
        percent_free(s),
        pat.len() >= 1,
        pat[0] == '%',
    ensures
        !occurs_in(s, pat),
{
    if occurs_in(s, pat) {
        let i = choose|i: int|
            0 <= i <= s.len() - pat.len() && #[trigger] s.subrange(i, i + pat.len()) == pat;
        assert(s.subrange(i, i + pat.len())[0] == s[i]);
    }
}

#[verifier::rlimit(50)]
proof fn lemma_template_pieces_percent_free()
    ensures
        percent_free(tpl_head()),
        percent_free(tpl_style()),
        percent_free(tpl_body()),
        percent_free(tpl_tail()),
        percent_free(light_css()),
        percent_free(dark_css()),
{
    reveal_strlit(
        "\n        <!DOCTYPE html>\n        <html lang=\"en\">\n        <head>\n            <meta charset=\"UTF-8\">\n            <meta name=\"viewport\" content=\"width=device-width, initial-scale=1.0\">\n            <title>",
    );
    reveal_strlit("</title>\n            <style>\n            ");
    reveal_strlit("\n            </style>\n        </head>\n        <body>\n");
    reveal_strlit("\n        </body>\n        </html>\n    ");
    reveal_strlit(
        "body {\n    background-color: #f2f2f2;\n    font-family: Arial, sans-serif;\n}\nli {\n    margin-bottom: 10px;\n}\na {\n    color: black;\n    text-decoration: underline;\n}\n",
    );
    reveal_strlit(
        "body {\n    background-color: #1d1d1d;\n    color: #f2f2f2;\n    font-family: Arial, sans-serif;\n}\nli {\n    margin-bottom: 10px;\n}\na {\n    color: #f2f2f2;\n    text-decoration: underline;\n}\n",
    );
}

/// In the finished document no reserved placeholder survives whenever
/// its text is defined: with a `title` constant whose value is free of
/// `%`, fragments whose joined text is free of `%`, and a `theme`
/// constant that either names a known theme or is left out, none of
/// `%title%`, `%theme%` and `%content%` occurs in the output.
pub proof fn lemma_placeholders_absent(st: MachineState, tv: Seq<char>)
    requires
        !st.in_block,
        !st.list_open,
        tbl_lookup(st.table, "title"@) == Some(tv),
        match tbl_lookup(st.table, "theme"@) {
            Some(thv) => spec_theme_css(thv) is Some,
            None => true,
        },
        percent_free(tv),
        percent_free(spec_join(st.frags, "\n"@)),
    ensures
        spec_finish(st) is Ok,
        !occurs_in(spec_finish(st)->Ok_0, "%title%"@),
        !occurs_in(spec_finish(st)->Ok_0, "%theme%"@),
        !occurs_in(spec_finish(st)->Ok_0, "%content%"@),
{
    lemma_template_pieces_percent_free();
    let css = match tbl_lookup(st.table, "theme"@) {
        Some(thv) => spec_theme_css(thv)->0,
        None => Seq::<char>::empty(),
    };
    let content = spec_join(st.frags, "\n"@);
    let doc = spec_doc(tv, css, content);
    lemma_percent_free_add(tpl_head(), tv);
    lemma_percent_free_add(tpl_head().add(tv), tpl_style());
    lemma_percent_free_add(tpl_head().add(tv).add(tpl_style()), css);
    lemma_percent_free_add(tpl_head().add(tv).add(tpl_style()).add(css), tpl_body());
    lemma_percent_free_add(
        tpl_head().add(tv).add(tpl_style()).add(css).add(tpl_body()),
        content,
    );
    lemma_percent_free_add(
        tpl_head().add(tv).add(tpl_style()).add(css).add(tpl_body()).add(content),
        tpl_tail(),
    );
    reveal_strlit("%title%");
    reveal_strlit("%theme%");
    reveal_strlit("%content%");
    lemma_percent_free_no_occurrence(doc, "%title%"@);
    lemma_percent_free_no_occurrence(doc, "%theme%"@);
    lemma_percent_free_no_occurrence(doc, "%content%"@);
    assert(percent_free(css));
    lemma_splice_is_sequential_replace(tv, css, content);
    assert(spec_finish(st)->Ok_0 == doc);
}

proof fn lemma_no_title_after_title(X: Seq<char>)
    requires
        X == tpl_style().add("%theme%"@).add(tpl_body()).add("%content%"@).add(tpl_tail()),
    ensures
        !occurs_in(X, "%title%"@),
{
    lemma_template_pieces_percent_free();
    reveal_strlit("%title%");
    reveal_strlit("%theme%");
    reveal_strlit("%content%");
    reveal_strlit("</title>\n            <style>\n            ");
    reveal_strlit("\n            </style>\n        </head>\n        <body>\n");
    reveal_strlit("\n        </body>\n        </html>\n    ");
    let ttl = "%title%"@;
    let thm = "%theme%"@;
    let cnt = "%content%"@;
    let s = tpl_style();
    let b = tpl_body();
    let t = tpl_tail();
    let o1 = s.len() as int;
    let o2 = o1 + 7;
    let o3 = o2 + b.len();
    let o4 = o3 + 9;
    if occurs_in(X, ttl) {
        let i = choose|i: int|
            0 <= i <= X.len() - ttl.len() && #[trigger] X.subrange(i, i + ttl.len()) == ttl;
        let sub = X.subrange(i, i + ttl.len());
        assert(sub[0] == X[i]);
        assert(sub[1] == X[i + 1]);
        assert(sub[2] == X[i + 2]);
        if i < o1 {
            assert(X[i] == s[i]);
        } else if i == o1 {
            assert(X[i + 2] == thm[2]);
        } else if i < o1 + 6 {
            assert(X[i] == thm[i - o1]);
        } else if i == o1 + 6 {
            assert(X[i + 1] == b[0]);
        } else if i < o3 {
            assert(X[i] == b[i - o2]);
        } else if i == o3 {
            assert(X[i + 1] == cnt[1]);
        } else if i < o3 + 8 {
            assert(X[i] == cnt[i - o3]);
        } else if i == o3 + 8 {
            assert(X[i + 1] == t[0]);
        } else {
            assert(X[i] == t[i - o4]);
        }
        assert(false);
    }
}

proof fn lemma_no_theme_after_theme(X: Seq<char>)
    requires
        X == tpl_body().add("%content%"@).add(tpl_tail()),
    ensures
        !occurs_in(X, "%theme%"@),
{
    lemma_template_pieces_percent_free();
    reveal_strlit("%theme%");
    reveal_strlit("%content%");
    reveal_strlit("\n            </style>\n        </head>\n        <body>\n");
    reveal_strlit("\n        </body>\n        </html>\n    ");
    let thm = "%theme%"@;
    let cnt = "%content%"@;
    let b = tpl_body();
    let t = tpl_tail();
    let o1 = b.len() as int;
    let o2 = o1 + 9;
    if occurs_in(X, thm) {
        let i = choose|i: int|
            0 <= i <= X.len() - thm.len() && #[trigger] X.subrange(i, i + thm.len()) == thm;
        let sub = X.subrange(i, i + thm.len());
        assert(sub[0] == X[i]);
        assert(sub[1] == X[i + 1]);
        if i < o1 {
            assert(X[i] == b[i]);
        } else if i == o1 {
            assert(X[i + 1] == cnt[1]);
        } else if i < o1 + 8 {
            assert(X[i] == cnt[i - o1]);
        } else if i == o1 + 8 {
            assert(X[i + 1] == t[0]);
        } else {
            assert(X[i] == t[i - o2]);
        }
        assert(false);
    }
}

/// The spliced document agrees with a left-to-right replacement of the
/// placeholders: starting from the template and replacing `%title%`,
/// then `%theme%`, then `%content%`, each in one pass, yields exactly
/// the document the emitter splices together, whenever the title text
/// and the style text are free of `%`.  (The content text may hold
/// anything: a replacement pass never re-scans the text it splices in.)
pub proof fn lemma_splice_is_sequential_replace(t: Seq<char>, th: Seq<char>, c: Seq<char>)
    requires
        percent_free(t),
        percent_free(th),
    ensures
        spec_replace(
            spec_replace(
                spec_replace(spec_doc("%title%"@, "%theme%"@, "%content%"@), "%title%"@, t),
                "%theme%"@,
                th,
            ),
            "%content%"@,
            c,
        ) == spec_doc(t, th, c),
{
    lemma_template_pieces_percent_free();
    reveal_strlit("%title%");
    reveal_strlit("%theme%");
    reveal_strlit("%content%");
    let ttl = "%title%"@;
    let thm = "%theme%"@;
    let cnt = "%content%"@;
    let h = tpl_head();
    let s = tpl_style();
    let b = tpl_body();
    let tl = tpl_tail();

    let rest1 = s.add(thm).add(b).add(cnt).add(tl);
    let s1 = h.add(ttl).add(rest1);
    assert(spec_doc(ttl, thm, cnt) =~= s1);
    assert forall|k: int| 0 <= k < h.len() implies s1[k] != '%' by {
        assert(s1[k] == h[k]);
    }
    lemma_percent_prefix_clean(s1, h.len() as int, ttl);
    lemma_no_title_after_title(rest1);
    lemma_replace_at(h, ttl, rest1, t);
    let w1 = h.add(t).add(rest1);
    assert(spec_replace(spec_doc(ttl, thm, cnt), ttl, t) == w1);

    let a2 = h.add(t).add(s);
    let rest2 = b.add(cnt).add(tl);
    let s2 = a2.add(thm).add(rest2);
    assert(w1 =~= s2);
    assert forall|k: int| 0 <= k < a2.len() implies s2[k] != '%' by {
        assert(s2[k] == a2[k]);
        if k < h.len() {
            assert(a2[k] == h[k]);
        } else if k < h.len() + t.len() {
            assert(a2[k] == t[k - h.len()]);
        } else {
            assert(a2[k] == s[k - h.len() - t.len()]);
        }
    }
    lemma_percent_prefix_clean(s2, a2.len() as int, thm);
    lemma_no_theme_after_theme(rest2);
    lemma_replace_at(a2, thm, rest2, th);
    let w2 = a2.add(th).add(rest2);
    assert(spec_replace(w1, thm, th) == spec_replace(s2, thm, th));
    assert(spec_replace(s2, thm, th) == w2);

    let a3 = h.add(t).add(s).add(th).add(b);
    let s3 = a3.add(cnt).add(tl);
    assert(w2 =~= s3);
    assert forall|k: int| 0 <= k < a3.len() implies s3[k] != '%' by {
        assert(s3[k] == a3[k]);
        if k < h.len() {
            assert(a3[k] == h[k]);
        } else if k < h.len() + t.len() {
            assert(a3[k] == t[k - h.len()]);
        } else if k < h.len() + t.len() + s.len() {
            assert(a3[k] == s[k - h.len() - t.len()]);
        } else if k < h.len() + t.len() + s.len() + th.len() {
            assert(a3[k] == th[k - h.len() - t.len() - s.len()]);
        } else {
            assert(a3[k] == b[k - h.len() - t.len() - s.len() - th.len()]);
        }
    }
    lemma_percent_prefix_clean(s3, a3.len() as int, cnt);
    lemma_percent_free_no_occurrence(tl, cnt);
    lemma_replace_at(a3, cnt, tl, c);
    assert(spec_replace(w2, cnt, c) == spec_replace(s3, cnt, c));
    assert(spec_replace(s3, cnt, c) == a3.add(c).add(tl));
    assert(a3.add(c).add(tl) =~= spec_doc(t, th, c));
}

/// The replacement chain with the `%title%` placeholder left alone:
/// replacing `%theme%` and then `%content%` in the bare template
/// splices their texts in and leaves `%title%` verbatim.
proof fn lemma_replace_chain_title_absent(th: Seq<char>, c: Seq<char>)
    requires
        percent_free(th),
    ensures
        spec_replace(
            spec_replace(spec_doc("%title%"@, "%theme%"@, "%content%"@), "%theme%"@, th),
            "%content%"@,
            c,
        ) == spec_doc("%title%"@, th, c),
{
    lemma_template_pieces_percent_free();
    reveal_strlit("%title%");
    reveal_strlit("%theme%");
    reveal_strlit("%content%");
    reveal_strlit("</title>\n            <style>\n            ");
    let ttl = "%title%"@;
    let thm = "%theme%"@;
    let cnt = "%content%"@;
    let h = tpl_head();
    let s = tpl_style();
    let b = tpl_body();
    let tl = tpl_tail();

    let a2 = h.add(ttl).add(s);
    let rest2 = b.add(cnt).add(tl);
    let s2 = a2.add(thm).add(rest2);
    assert(spec_doc(ttl, thm, cnt) =~= s2);
    assert forall|i: int| 0 <= i < a2.len() implies #[trigger] s2.subrange(i, i + thm.len())
        != thm by {
        let sub = s2.subrange(i, i + thm.len());
        assert(sub[0] == s2[i]);
        assert(sub[1] == s2[i + 1]);
        assert(sub[2] == s2[i + 2]);
        let o1 = h.len() as int;
        if i < o1 {
            assert(s2[i] == h[i]);
        } else if i == o1 {
            assert(s2[i + 2] == ttl[2]);
        } else if i < o1 + 6 {
            assert(s2[i] == ttl[i - o1]);
        } else if i == o1 + 6 {
            assert(s2[i + 1] == s[0]);
        } else {
            assert(s2[i] == s[i - o1 - 7]);
        }
    }
    lemma_no_theme_after_theme(rest2);
    lemma_replace_at(a2, thm, rest2, th);
    assert(spec_replace(spec_doc(ttl, thm, cnt), thm, th) == spec_replace(s2, thm, th));
    let w2 = a2.add(th).add(rest2);

    let a3 = h.add(ttl).add(s).add(th).add(b);
    let s3 = a3.add(cnt).add(tl);
    assert(w2 =~= s3);
    assert forall|i: int| 0 <= i < a3.len() implies #[trigger] s3.subrange(i, i + cnt.len())
        != cnt by {
        let sub = s3.subrange(i, i + cnt.len());
        assert(sub[0] == s3[i]);
        assert(sub[1] == s3[i + 1]);
        let o1 = h.len() as int;
        let o2 = o1 + 7;
        let o3 = o2 + s.len();
        let o4 = o3 + th.len();
        if i < o1 {
            assert(s3[i] == h[i]);
        } else if i == o1 {
            assert(s3[i + 1] == ttl[1]);
        } else if i < o1 + 6 {
            assert(s3[i] == ttl[i - o1]);
        } else if i == o1 + 6 {
            assert(s3[i + 1] == s[0]);
        } else if i < o3 {
            assert(s3[i] == s[i - o2]);
        } else if i < o4 {
            assert(s3[i] == th[i - o3]);
        } else {
            assert(s3[i] == b[i - o4]);
        }
    }
    lemma_percent_free_no_occurrence(tl, cnt);
    lemma_replace_at(a3, cnt, tl, c);
    assert(spec_replace(w2, cnt, c) == spec_replace(s3, cnt, c));
    assert(a3.add(c).add(tl) =~= spec_doc(ttl, th, c));
}

/// The translation is a function of the input text alone: every
/// document `transpile` can return for a given input — its contract
/// pins each to `spec_transpile` — is the same, so running the
/// transpiler twice on an unchanged input produces byte-identical
/// output.
pub proof fn lemma_transpile_deterministic(c: Seq<char>, out1: Seq<char>, out2: Seq<char>)
    requires
        spec_transpile(c) == Ok::<Seq<char>, (int, Seq<char>)>(out1),
        spec_transpile(c) == Ok::<Seq<char>, (int, Seq<char>)>(out2),
    ensures
        out1 == out2,
{
}

/// An input that is solely a balanced block with no statements — a `{`
/// line followed by a `}` line — yields a document whose content
/// region is empty: the bare template with no style text and the
/// `%title%` placeholder left verbatim.
pub proof fn lemma_empty_block(content: Seq<char>)
    requires
        spec_lines(content).len() == 2,
        spec_trim(spec_lines(content)[0]) == "{"@,
        spec_trim(spec_lines(content)[1]) == "}"@,
    ensures
        spec_transpile(content) == Ok::<Seq<char>, (int, Seq<char>)>(
            spec_doc("%title%"@, Seq::<char>::empty(), Seq::<char>::empty()),
        ),
{
    let lines = spec_lines(content);
    let l0 = spec_trim(lines[0]);
    let l1 = spec_trim(lines[1]);
    reveal_strlit("{");
    reveal_strlit("}");
    reveal_strlit("def");
    assert(!spec_starts_with(l0, "def"@));
    assert(!spec_starts_with(l1, "def"@));
    assert(l1 != "{"@);
    let st1 = MachineState { in_block: true, ..init_state() };
    assert(spec_step(init_state(), lines[0]) == Ok::<MachineState, Seq<char>>(st1));
    let st2 = MachineState { in_block: false, ..st1 };
    assert(spec_step(st1, lines[1]) == Ok::<MachineState, Seq<char>>(st2));
    assert(lines.drop_first()[0] == lines[1]);
    assert(lines.drop_first().drop_first().len() == 0);
    assert(tbl_lookup(st2.table, "title"@) is None);
    assert(tbl_lookup(st2.table, "theme"@) is None);
    assert(spec_join(st2.frags, "\n"@) == Seq::<char>::empty());
    lemma_replace_chain_title_absent(Seq::<char>::empty(), Seq::<char>::empty());
    assert(spec_finish(st2) == Ok::<Seq<char>, Seq<char>>(
        spec_doc("%title%"@, Seq::<char>::empty(), Seq::<char>::empty()),
    ));
    assert(crate::machine::spec_run_from(init_state(), lines, 0)
        == crate::machine::spec_run_from(st1, lines.drop_first(), 1));
    assert(crate::machine::spec_run_from(st1, lines.drop_first(), 1)
        == crate::machine::spec_run_from(st2, lines.drop_first().drop_first(), 2));
    assert(crate::machine::spec_run_from(st2, lines.drop_first().drop_first(), 2)
        == Ok::<MachineState, (int, Seq<char>)>(st2));
}

} // verus!
