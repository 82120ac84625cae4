//! Verified string utilities: trimming, equality, and prefix tests.
//!
//! All executable functions are specified against spec functions over
//! `Seq<char>`, the view of `&str` and `String`.

use vstd::prelude::*;

verus! {

/// Characters treated as whitespace when lines are trimmed and
/// tokenized: the ASCII whitespace characters.
pub open spec fn is_space(c: char) -> bool {
    c == ' ' || c == '\t' || c == '\n' || c == '\r' || c == '\u{b}' || c == '\u{c}'
}

fn is_space_ch(c: char) -> (r: bool)
    ensures
        r == is_space(c),
{
    c == ' ' || c == '\t' || c == '\n' || c == '\r' || c == '\u{b}' || c == '\u{c}'
}

/// `s` with leading whitespace removed.
pub open spec fn trim_front(s: Seq<char>) -> Seq<char>
    decreases s.len(),
{
    if s.len() > 0 && is_space(s[0]) {
        trim_front(s.drop_first())
    } else {
        s
    }
}

/// `s` with trailing whitespace removed.
pub open spec fn trim_back(s: Seq<char>) -> Seq<char>
    decreases s.len(),
{
    if s.len() > 0 && is_space(s[s.len() - 1]) {
        trim_back(s.drop_last())
    } else {
        s
    }
}

/// `s` with both leading and trailing whitespace removed.
pub open spec fn spec_trim(s: Seq<char>) -> Seq<char> {
    trim_back(trim_front(s))
}

proof fn lemma_trim_front_skip(s: Seq<char>, i: int)
    requires
        0 <= i <= s.len(),
        forall|k: int| 0 <= k < i ==> is_space(s[k]),
        i == s.len() || !is_space(s[i]),
    ensures
        trim_front(s) == s.skip(i),
    decreases i,
{
    if i == 0 {
        assert(s.skip(0) =~= s);
    } else {
        assert(is_space(s[0]));
        lemma_trim_front_skip(s.drop_first(), i - 1);
        assert(s.drop_first().skip(i - 1) =~= s.skip(i));
    }
}

proof fn lemma_trim_back_take(s: Seq<char>, j: int)
    requires
        0 <= j <= s.len(),
        forall|k: int| j <= k < s.len() ==> is_space(s[k]),
        j == 0 || !is_space(s[j - 1]),
    ensures
        trim_back(s) == s.take(j),
    decreases s.len(),
{
    if j == s.len() {
        assert(s.take(j) =~= s);
    } else {
        assert(is_space(s[s.len() - 1]));
        lemma_trim_back_take(s.drop_last(), j);
        assert(s.drop_last().take(j) =~= s.take(j));
    }
}

/// Removes leading and trailing whitespace.
pub fn trim<'a>(s: &'a str) -> (r: &'a str)
    ensures
        r@ == spec_trim(s@),
{
    let n = s.unicode_len();
    let mut i: usize = 0;
    while i < n && is_space_ch(s.get_char(i))
        invariant
            0 <= i <= n,
            n == s@.len(),
            forall|k: int| 0 <= k < i ==> is_space(s@[k]),
        decreases n - i,
    {
        i = i + 1;
    }
    let mut j: usize = n;
    while j > i && is_space_ch(s.get_char(j - 1))
        invariant
            i <= j <= n,
            n == s@.len(),
            forall|k: int| j <= k < n ==> is_space(s@[k]),
        decreases j,
    {
        j = j - 1;
    }
    proof {
        lemma_trim_front_skip(s@, i as int);
        lemma_trim_back_take(s@.skip(i as int), j - i);
        assert(s@.skip(i as int).take(j - i) =~= s@.subrange(i as int, j as int));
    }
    s.substring_char(i, j)
}

/// Character-for-character equality of two strings.
pub fn str_eq(a: &str, b: &str) -> (r: bool)
    ensures
        r == (a@ == b@),
{
    let na = a.unicode_len();
    let nb = b.unicode_len();
    if na != nb {
        return false;
    }
    let mut i: usize = 0;
    while i < na
        invariant
            0 <= i <= na,
            na == a@.len(),
            na == b@.len(),
            forall|k: int| 0 <= k < i ==> a@[k] == b@[k],
        decreases na - i,
    {
        if a.get_char(i) != b.get_char(i) {
            return false;
        }
        i = i + 1;
    }
    proof {
        assert(a@ =~= b@);
    }
    true
}

/// `p` is an initial segment of `s`.
pub open spec fn spec_starts_with(s: Seq<char>, p: Seq<char>) -> bool {
    p.len() <= s.len() && s.take(p.len() as int) == p
}

pub proof fn lemma_starts_with_first(s: Seq<char>, p: Seq<char>)
    requires
        spec_starts_with(s, p),
        p.len() >= 1,
    ensures
        s.len() >= 1,
        s[0] == p[0],
{
    assert(s.take(p.len() as int)[0] == s[0]);
}

/// Whether `s` begins with the prefix `p`.
pub fn starts_with(s: &str, p: &str) -> (r: bool)
    ensures
        r == spec_starts_with(s@, p@),
{
    let ns = s.unicode_len();
    let np = p.unicode_len();
    if np > ns {
        return false;
    }
    let mut i: usize = 0;
    while i < np
        invariant
            0 <= i <= np,
            np <= ns,
            ns == s@.len(),
            np == p@.len(),
            forall|k: int| 0 <= k < i ==> s@[k] == p@[k],
        decreases np - i,
    {
        if s.get_char(i) != p.get_char(i) {
            proof {
                assert(s@.take(np as int)[i as int] != p@[i as int]);
            }
            return false;
        }
        i = i + 1;
    }
    proof {
        assert(s@.take(np as int) =~= p@);
    }
    true
}

/// The views of a sequence of strings.
pub open spec fn views(v: Seq<String>) -> Seq<Seq<char>> {
    v.map_values(|t: String| t@)
}

/// `s` divided at every occurrence of `c`: the pieces between
/// occurrences, in order, the separators themselves dropped.  There is
/// always at least one piece; pieces may be empty.
pub open spec fn spec_split(s: Seq<char>, c: char) -> Seq<Seq<char>>
    decreases s.len(),
{
    if s.len() == 0 {
        seq![Seq::<char>::empty()]
    } else if s[0] == c {
        seq![Seq::<char>::empty()].add(spec_split(s.drop_first(), c))
    } else {
        let r = spec_split(s.drop_first(), c);
        seq![seq![s[0]].add(r[0])].add(r.skip(1))
    }
}

pub proof fn lemma_split_nonempty(s: Seq<char>, c: char)
    ensures
        spec_split(s, c).len() >= 1,
    decreases s.len(),
{
    if s.len() > 0 {
        lemma_split_nonempty(s.drop_first(), c);
    }
}

/// The split of a string whose first piece is extended at the front by `p`.
spec fn prepend_first(p: Seq<char>, ss: Seq<Seq<char>>) -> Seq<Seq<char>> {
    seq![p.add(ss[0])].add(ss.skip(1))
}

/// Divides `s` at every occurrence of `c`.
pub fn split_char(s: &str, c: char) -> (r: Vec<String>)
    ensures
        views(r@) == spec_split(s@, c),
{
    let n = s.unicode_len();
    let mut parts: Vec<String> = Vec::new();
    let mut start: usize = 0;
    let mut i: usize = 0;
    proof {
        lemma_split_nonempty(s@, c);
        assert(s@.skip(0) =~= s@);
        assert(s@.subrange(0, 0) =~= Seq::<char>::empty());
        assert(Seq::<char>::empty().add(spec_split(s@, c)[0]) =~= spec_split(s@, c)[0]);
        assert(views(parts@).add(prepend_first(Seq::<char>::empty(), spec_split(s@, c)))
            =~= spec_split(s@, c));
    }
    while i < n
        invariant
            0 <= start <= i <= n,
            n == s@.len(),
            spec_split(s@, c) == views(parts@).add(
                prepend_first(s@.subrange(start as int, i as int), spec_split(s@.skip(i as int), c)),
            ),
        decreases n - i,
    {
        proof {
            lemma_split_nonempty(s@.skip(i as int + 1), c);
        }
        if s.get_char(i) == c {
            let piece = String::from_str(s.substring_char(start, i));
            parts.push(piece);
            proof {
                let rest = spec_split(s@.skip(i as int + 1), c);
                assert(s@.skip(i as int).drop_first() =~= s@.skip(i as int + 1));
                assert(spec_split(s@.skip(i as int), c) =~= seq![Seq::<char>::empty()].add(rest));
                assert(s@.subrange(start as int, i as int).add(Seq::<char>::empty())
                    =~= s@.subrange(start as int, i as int));
                assert(seq![Seq::<char>::empty()].add(rest).skip(1) =~= rest);
                assert(prepend_first(s@.subrange(start as int, i as int),
                        seq![Seq::<char>::empty()].add(rest))
                    =~= seq![s@.subrange(start as int, i as int)].add(rest));
                assert(s@.subrange(i as int + 1, i as int + 1) =~= Seq::<char>::empty());
                assert(Seq::<char>::empty().add(rest[0]) =~= rest[0]);
                assert(prepend_first(Seq::<char>::empty(), rest) =~= rest);
                assert(views(parts@) =~= views(parts@.drop_last()).push(s@.subrange(
                    start as int, i as int)));
                assert(views(parts@).add(prepend_first(s@.subrange(i as int + 1, i as int + 1), rest))
                    =~= views(parts@.drop_last()).add(
                        seq![s@.subrange(start as int, i as int)].add(rest)));
            }
            start = i + 1;
        } else {
            proof {
                let r = spec_split(s@.skip(i as int + 1), c);
                assert(s@.skip(i as int).drop_first() =~= s@.skip(i as int + 1));
                assert(s@.skip(i as int)[0] == s@[i as int]);
                assert(spec_split(s@.skip(i as int), c)
                    =~= seq![seq![s@[i as int]].add(r[0])].add(r.skip(1)));
                assert(s@.subrange(start as int, i as int + 1)
                    =~= s@.subrange(start as int, i as int).push(s@[i as int]));
                assert(s@.subrange(start as int, i as int).add(seq![s@[i as int]].add(r[0]))
                    =~= s@.subrange(start as int, i as int + 1).add(r[0]));
                assert(prepend_first(s@.subrange(start as int, i as int),
                        spec_split(s@.skip(i as int), c))
                    =~= prepend_first(s@.subrange(start as int, i as int + 1), r));
            }
        }
        i = i + 1;
    }
    let piece = String::from_str(s.substring_char(start, n));
    parts.push(piece);
    proof {
        assert(s@.skip(n as int) =~= Seq::<char>::empty());
        assert(s@.subrange(start as int, n as int).add(Seq::<char>::empty())
            =~= s@.subrange(start as int, n as int));
        assert(prepend_first(s@.subrange(start as int, n as int), spec_split(s@.skip(n as int), c))
            =~= seq![s@.subrange(start as int, n as int)]);
        assert(views(parts@) =~= views(parts@.drop_last()).push(s@.subrange(start as int, n as int)));
        assert(views(parts@) =~= spec_split(s@, c));
    }
    parts
}

/// The lines of `s`: the pieces between newline characters, a trailing
/// newline terminating the last line rather than opening an empty one.
pub open spec fn spec_lines(s: Seq<char>) -> Seq<Seq<char>> {
    if s.len() == 0 {
        Seq::<Seq<char>>::empty()
    } else if s[s.len() - 1] == '\n' {
        spec_split(s, '\n').drop_last()
    } else {
        spec_split(s, '\n')
    }
}

/// Divides `s` into lines.
pub fn split_lines(s: &str) -> (r: Vec<String>)
    ensures
        views(r@) == spec_lines(s@),
{
    let n = s.unicode_len();
    if n == 0 {
        let r: Vec<String> = Vec::new();
        proof {
            assert(views(r@) =~= spec_lines(s@));
        }
        return r;
    }
    let mut parts = split_char(s, '\n');
    if s.get_char(n - 1) == '\n' {
        proof {
            lemma_split_nonempty(s@, '\n');
        }
        parts.pop();
        proof {
            assert(views(parts@) =~= spec_split(s@, '\n').drop_last());
        }
    }
    parts
}

/// Length of the leading run of non-whitespace characters of `s`.
pub open spec fn token_run(s: Seq<char>) -> int
    decreases s.len(),
{
    if s.len() == 0 || is_space(s[0]) {
        0
    } else {
        1 + token_run(s.drop_first())
    }
}

pub proof fn lemma_token_run_bounds(s: Seq<char>)
    ensures
        0 <= token_run(s) <= s.len(),
    decreases s.len(),
{
    if s.len() > 0 && !is_space(s[0]) {
        lemma_token_run_bounds(s.drop_first());
    }
}

proof fn lemma_token_run_eq(s: Seq<char>, m: int)
    requires
        0 <= m <= s.len(),
        forall|k: int| 0 <= k < m ==> !is_space(s[k]),
        m == s.len() || is_space(s[m]),
    ensures
        token_run(s) == m,
    decreases m,
{
    if m == 0 {
    } else {
        lemma_token_run_eq(s.drop_first(), m - 1);
    }
}

/// The whitespace-separated tokens of `s`, in order.
pub open spec fn spec_tokens(s: Seq<char>) -> Seq<Seq<char>>
    decreases s.len(),
    via spec_tokens_dec
{
    if s.len() == 0 {
        Seq::<Seq<char>>::empty()
    } else if is_space(s[0]) {
        spec_tokens(s.drop_first())
    } else {
        seq![s.take(token_run(s))].add(spec_tokens(s.skip(token_run(s))))
    }
}

#[via_fn]
proof fn spec_tokens_dec(s: Seq<char>) {
    lemma_token_run_bounds(s);
    if s.len() > 0 && !is_space(s[0]) {
        lemma_token_run_bounds(s.drop_first());
        assert(token_run(s) >= 1);
    }
}

/// Divides `s` into its whitespace-separated tokens.
pub fn tokenize(s: &str) -> (r: Vec<String>)
    ensures
        views(r@) == spec_tokens(s@),
{
    let n = s.unicode_len();
    let mut toks: Vec<String> = Vec::new();
    let mut i: usize = 0;
    proof {
        assert(s@.skip(0) =~= s@);
        assert(views(toks@).add(spec_tokens(s@)) =~= spec_tokens(s@));
    }
    while i < n
        invariant
            0 <= i <= n,
            n == s@.len(),
            spec_tokens(s@) == views(toks@).add(spec_tokens(s@.skip(i as int))),
        decreases n - i,
    {
        if is_space_ch(s.get_char(i)) {
            proof {
                assert(s@.skip(i as int).drop_first() =~= s@.skip(i as int + 1));
            }
            i = i + 1;
        } else {
            let mut j: usize = i + 1;
            while j < n && !is_space_ch(s.get_char(j))
                invariant
                    i < j <= n,
                    n == s@.len(),
                    forall|k: int| i <= k < j ==> !is_space(s@[k]),
                decreases n - j,
            {
                j = j + 1;
            }
            proof {
                let u = s@.skip(i as int);
                lemma_token_run_eq(u, j - i);
                assert(u.take(j - i) =~= s@.subrange(i as int, j as int));
                assert(u.skip(j - i) =~= s@.skip(j as int));
            }
            let tok = String::from_str(s.substring_char(i, j));
            let ghost old_views = views(toks@);
            toks.push(tok);
            proof {
                assert(views(toks@) =~= old_views.push(s@.subrange(i as int, j as int)));
                assert(old_views.push(s@.subrange(i as int, j as int)).add(
                    spec_tokens(s@.skip(j as int)))
                    =~= old_views.add(seq![s@.subrange(i as int, j as int)].add(
                        spec_tokens(s@.skip(j as int)))));
            }
            i = j;
        }
    }
    proof {
        assert(s@.skip(n as int) =~= Seq::<char>::empty());
        assert(views(toks@).add(Seq::<Seq<char>>::empty()) =~= views(toks@));
    }
    toks
}

/// The pieces of `ss` concatenated in order with `sep` between
/// neighbouring pieces.
pub open spec fn spec_join(ss: Seq<Seq<char>>, sep: Seq<char>) -> Seq<char>
    decreases ss.len(),
{
    if ss.len() == 0 {
        Seq::<char>::empty()
    } else if ss.len() == 1 {
        ss[0]
    } else {
        ss[0].add(sep).add(spec_join(ss.drop_first(), sep))
    }
}

pub proof fn lemma_join_push(ss: Seq<Seq<char>>, x: Seq<char>, sep: Seq<char>)
    ensures
        spec_join(ss.push(x), sep) == if ss.len() == 0 {
            x
        } else {
            spec_join(ss, sep).add(sep).add(x)
        },
    decreases ss.len(),
{
    if ss.len() == 0 {
        assert(ss.push(x).len() == 1);
        assert(ss.push(x)[0] == x);
    } else {
        lemma_join_push(ss.drop_first(), x, sep);
        assert(ss.push(x).drop_first() =~= ss.drop_first().push(x));
        if ss.len() == 1 {
            assert(spec_join(ss.push(x), sep) == ss[0].add(sep).add(x));
        } else {
            assert(spec_join(ss.push(x), sep) == ss[0].add(sep).add(
                spec_join(ss.drop_first(), sep).add(sep).add(x)));
            assert(ss[0].add(sep).add(spec_join(ss.drop_first(), sep).add(sep).add(x))
                =~= ss[0].add(sep).add(spec_join(ss.drop_first(), sep)).add(sep).add(x));
        }
    }
}

/// Concatenates the elements of `v` from index `from` on, with `sep`
/// between neighbouring elements.
pub fn join_from(v: &Vec<String>, from: usize, sep: &str) -> (r: String)
    requires
        from <= v@.len(),
    ensures
        r@ == spec_join(views(v@).skip(from as int), sep@),
{
    let mut out = String::new();
    let mut i: usize = from;
    proof {
        assert(views(v@).subrange(from as int, from as int) =~= Seq::<Seq<char>>::empty());
    }
    while i < v.len()
        invariant
            from <= i <= v@.len(),
            out@ == spec_join(views(v@).subrange(from as int, i as int), sep@),
        decreases v@.len() - i,
    {
        if i > from {
            out.append(sep);
        }
        out.append(v[i].as_str());
        proof {
            let pre = views(v@).subrange(from as int, i as int);
            lemma_join_push(pre, views(v@)[i as int], sep@);
            assert(views(v@).subrange(from as int, i as int + 1)
                =~= pre.push(views(v@)[i as int]));
        }
        i = i + 1;
    }
    proof {
        assert(views(v@).subrange(from as int, v@.len() as int) =~= views(v@).skip(from as int));
    }
    out
}

/// `s` with every trailing colon removed.
pub open spec fn strip_colons(s: Seq<char>) -> Seq<char>
    decreases s.len(),
{
    if s.len() > 0 && s[s.len() - 1] == ':' {
        strip_colons(s.drop_last())
    } else {
        s
    }
}

proof fn lemma_strip_colons_take(s: Seq<char>, j: int)
    requires
        0 <= j <= s.len(),
        forall|k: int| j <= k < s.len() ==> s[k] == ':',
        j == 0 || s[j - 1] != ':',
    ensures
        strip_colons(s) == s.take(j),
    decreases s.len(),
{
    if j == s.len() {
        assert(s.take(j) =~= s);
    } else {
        lemma_strip_colons_take(s.drop_last(), j);
        assert(s.drop_last().take(j) =~= s.take(j));
    }
}

/// Removes every trailing colon from `s`.
pub fn trim_end_colons<'a>(s: &'a str) -> (r: &'a str)
    ensures
        r@ == strip_colons(s@),
{
    let n = s.unicode_len();
    let mut j: usize = n;
    while j > 0 && s.get_char(j - 1) == ':'
        invariant
            0 <= j <= n,
            n == s@.len(),
            forall|k: int| j <= k < n ==> s@[k] == ':',
        decreases j,
    {
        j = j - 1;
    }
    proof {
        lemma_strip_colons_take(s@, j as int);
        assert(s@.take(j as int) =~= s@.subrange(0, j as int));
    }
    s.substring_char(0, j)
}

/// `s` with every occurrence of `pat` replaced by `to`: the string is
/// scanned once from the left, non-overlapping matches are replaced,
/// and text introduced by `to` is not scanned again.
pub open spec fn spec_replace(s: Seq<char>, pat: Seq<char>, to: Seq<char>) -> Seq<char>
    decreases s.len(),
{
    if pat.len() == 0 || s.len() < pat.len() {
        s
    } else if s.take(pat.len() as int) == pat {
        to.add(spec_replace(s.skip(pat.len() as int), pat, to))
    } else {
        seq![s[0]].add(spec_replace(s.drop_first(), pat, to))
    }
}

/// `pat` occurs somewhere in `s` as a contiguous run.
pub open spec fn occurs_in(s: Seq<char>, pat: Seq<char>) -> bool {
    exists|i: int| 0 <= i <= s.len() - pat.len() && #[trigger] s.subrange(i, i + pat.len()) == pat
}

/// Replacement of a pattern that does not occur leaves the string as
/// it stands.
pub proof fn lemma_replace_id(s: Seq<char>, pat: Seq<char>, to: Seq<char>)
    requires
        pat.len() > 0,
        !occurs_in(s, pat),
    ensures
        spec_replace(s, pat, to) == s,
    decreases s.len(),
{
    if s.len() < pat.len() {
    } else if s.take(pat.len() as int) == pat {
        assert(s.subrange(0, 0 + pat.len() as int) =~= s.take(pat.len() as int));
        assert(occurs_in(s, pat));
    } else {
        assert forall|i: int|
            0 <= i <= s.drop_first().len() - pat.len() implies #[trigger] s.drop_first().subrange(
            i,
            i + pat.len(),
        ) != pat by {
            assert(s.drop_first().subrange(i, i + pat.len()) =~= s.subrange(
                i + 1,
                i + 1 + pat.len(),
            ));
        }
        lemma_replace_id(s.drop_first(), pat, to);
        assert(seq![s[0]].add(s.drop_first()) =~= s);
    }
}

/// Replacement of a pattern that occurs exactly once, at a known seam:
/// where no occurrence starts in the prefix and none lies in the
/// suffix, the one occurrence is replaced and nothing else moves.
pub proof fn lemma_replace_at(a: Seq<char>, pat: Seq<char>, b: Seq<char>, to: Seq<char>)
    requires
        pat.len() > 0,
        !occurs_in(b, pat),
        forall|i: int|
            0 <= i < a.len() ==> #[trigger] a.add(pat).add(b).subrange(i, i + pat.len()) != pat,
    ensures
        spec_replace(a.add(pat).add(b), pat, to) == a.add(to).add(b),
    decreases a.len(),
{
    let s = a.add(pat).add(b);
    if a.len() == 0 {
        assert(s.take(pat.len() as int) =~= pat);
        assert(s.skip(pat.len() as int) =~= b);
        lemma_replace_id(b, pat, to);
        assert(to.add(b) =~= a.add(to).add(b));
    } else {
        assert(s.subrange(0, 0 + pat.len() as int) != pat);
        assert(s.take(pat.len() as int) =~= s.subrange(0, 0 + pat.len() as int));
        let a2 = a.drop_first();
        let s2 = a2.add(pat).add(b);
        assert(s2 =~= s.drop_first());
        assert forall|i: int| 0 <= i < a2.len() implies #[trigger] s2.subrange(i, i + pat.len())
            != pat by {
            assert(s2.subrange(i, i + pat.len()) =~= s.subrange(i + 1, i + 1 + pat.len()));
        }
        lemma_replace_at(a2, pat, b, to);
        assert(seq![s[0]].add(a2.add(to).add(b)) =~= a.add(to).add(b));
    }
}

/// No occurrence of a pattern that begins with `%` can start among the
/// first `n` characters of `s` when none of them is a `%`.
pub proof fn lemma_percent_prefix_clean(s: Seq<char>, n: int, pat: Seq<char>)
    requires
        0 <= n <= s.len(),
        n + pat.len() <= s.len() + 1,
        forall|k: int| 0 <= k < n ==> s[k] != '%',
        pat.len() > 0,
        pat[0] == '%',
    ensures
        forall|i: int| 0 <= i < n ==> #[trigger] s.subrange(i, i + pat.len()) != pat,
{
    assert forall|i: int| 0 <= i < n implies #[trigger] s.subrange(i, i + pat.len()) != pat by {
        assert(s.subrange(i, i + pat.len())[0] == s[i]);
    }
}

/// Whether `pat` occurs in `s` at position `i`.
fn match_at(s: &str, i: usize, pat: &str, n: usize, np: usize) -> (r: bool)
    requires
        n == s@.len(),
        np == pat@.len(),
        i + np <= n,
    ensures
        r == (s@.subrange(i as int, i as int + pat@.len()) == pat@),
{
    let mut k: usize = 0;
    while k < np
        invariant
            0 <= k <= np,
            n == s@.len(),
            np == pat@.len(),
            i + np <= n,
            forall|t: int| 0 <= t < k ==> s@[i + t] == pat@[t],
        decreases np - k,
    {
        if s.get_char(i + k) != pat.get_char(k) {
            proof {
                assert(s@.subrange(i as int, i as int + np as int)[k as int] != pat@[k as int]);
            }
            return false;
        }
        k = k + 1;
    }
    proof {
        assert(s@.subrange(i as int, i as int + np as int) =~= pat@);
    }
    true
}

/// Replaces every occurrence of `pat` in `s` by `to`, scanning once
/// from the left.
pub fn replace_all(s: &str, pat: &str, to: &str) -> (r: String)
    requires
        pat@.len() > 0,
    ensures
        r@ == spec_replace(s@, pat@, to@),
{
    let n = s.unicode_len();
    let np = pat.unicode_len();
    let mut out = String::new();
    let mut i: usize = 0;
    proof {
        assert(s@.skip(0) =~= s@);
    }
    while i < n
        invariant
            0 <= i <= n,
            n == s@.len(),
            np == pat@.len(),
            np > 0,
            spec_replace(s@, pat@, to@) == out@.add(spec_replace(s@.skip(i as int), pat@, to@)),
        decreases n - i,
    {
        let rest_fits = np <= n - i;
        if rest_fits && match_at(s, i, pat, n, np) {
            out.append(to);
            proof {
                let u = s@.skip(i as int);
                assert(u.take(np as int) =~= s@.subrange(i as int, i as int + np as int));
                assert(u.skip(np as int) =~= s@.skip(i as int + np as int));
            }
            i = i + np;
        } else {
            out.append(s.substring_char(i, i + 1));
            proof {
                let u = s@.skip(i as int);
                assert(u.len() >= 1);
                if u.len() >= np {
                    assert(u.take(np as int) =~= s@.subrange(i as int, i as int + np as int));
                }
                assert(u.drop_first() =~= s@.skip(i as int + 1));
                assert(s@.subrange(i as int, i as int + 1) =~= seq![s@[i as int]]);
                if u.len() < np {
                    assert(u.drop_first().len() < np);
                    assert(spec_replace(u, pat@, to@) == u);
                    assert(spec_replace(u.drop_first(), pat@, to@) == u.drop_first());
                    assert(u =~= seq![s@[i as int]].add(u.drop_first()));
                }
            }
            i = i + 1;
        }
    }
    proof {
        assert(s@.skip(n as int) =~= Seq::<char>::empty());
        assert(spec_replace(Seq::<char>::empty(), pat@, to@) =~= Seq::<char>::empty());
        assert(out@.add(Seq::<char>::empty()) =~= out@);
    }
    out
}

} // verus!
