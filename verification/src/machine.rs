//! The line-by-line parsing state machine: classification of each
//! line, the legal state transitions, and the whole-input run.

use vstd::prelude::*;
use crate::diag::{
    msg_brackets_open, msg_close_unopened, msg_def_in_block, msg_img_parts, msg_link_parts,
    msg_nest_lists, msg_no_brackets, msg_outside_block, msg_syntax, TranspileError,
};
use crate::emit::spec_finish;
use crate::emit::theme_css;
use crate::eval::{eval, spec_eval};
use crate::table::ConstTable;
use crate::table::tbl_upsert;
use crate::text::{
    is_space, join_from, replace_all, spec_join, spec_lines, spec_split, spec_starts_with,
    spec_tokens, spec_trim, split_char, split_lines, starts_with, str_eq, strip_colons, tokenize,
    trim, trim_end_colons, views,
};

verus! {

/// The parser state threaded through the lines: whether the text area
/// is open, whether a list is open, the constants defined so far, and
/// the HTML fragments emitted so far, in source order.
#[verifier::ext_equal]
pub ghost struct MachineState {
    pub in_block: bool,
    pub list_open: bool,
    pub table: Seq<(Seq<char>, Seq<char>)>,
    pub frags: Seq<Seq<char>>,
}

/// The state a run starts from: everything closed, nothing defined,
/// nothing emitted.
pub open spec fn init_state() -> MachineState {
    MachineState {
        in_block: false,
        list_open: false,
        table: Seq::<(Seq<char>, Seq<char>)>::empty(),
        frags: Seq::<Seq<char>>::empty(),
    }
}

/// The remainder of a line after its first whitespace-separated token,
/// re-joined with single spaces.
pub open spec fn spec_rest(line: Seq<char>) -> Seq<char> {
    spec_join(spec_tokens(line).skip(1), " "@)
}

/// A trimmed line whose first token begins with `def` must carry a
/// second token, the constant's name: a bare `def` keyword has no
/// meaning in the language, and inputs holding one lie outside the
/// transpiler's domain.
pub open spec fn def_ok(line: Seq<char>) -> bool {
    spec_starts_with(line, "def"@) ==> spec_tokens(line).len() >= 2
}

/// One step of the machine: the line is trimmed, classified by the
/// rules below in order, and either mutates the state or fails with a
/// message.
///
/// 1. A line beginning `def` defines a constant: its name is the second
///    token with trailing colons stripped, its value the remaining
///    tokens joined with single spaces.  Illegal inside the text area.
/// 2. `{` opens the text area; illegal when already open.
/// 3. `}` closes it; illegal when not open.
/// 4. Every other line is illegal outside the text area.
/// 5. `[` opens a list and emits `<ul>`; lists do not nest.
/// 6. `]` closes the list and emits `</ul>`; illegal when none is open.
/// 7. A line beginning `-` while a list is open emits a `<li>` item,
///    its text evaluated.
/// 8. `header`, `paragraph` emit `<h1>`, `<p>` with the evaluated rest.
/// 9. `img`, `link` split their evaluated rest on `|` into exactly two
///    parts (else they fail) and emit an image with alt text, or an
///    anchor.
/// 10. A line beginning `list` is cosmetic and does nothing.
/// 11. Anything else is a syntax error.
pub open spec fn spec_step(st: MachineState, raw: Seq<char>) -> Result<MachineState, Seq<char>> {
    let l = spec_trim(raw);
    if spec_starts_with(l, "def"@) {
        if st.in_block {
            Err(msg_def_in_block())
        } else {
            let toks = spec_tokens(l);
            if toks.len() >= 2 {
                let name = strip_colons(toks[1]);
                let value = spec_join(toks.skip(2), " "@);
                Ok(MachineState { table: tbl_upsert(st.table, name, value), ..st })
            } else {
                Ok(st)
            }
        }
    } else if l == "{"@ {
        if st.in_block {
            Err(msg_brackets_open())
        } else {
            Ok(MachineState { in_block: true, ..st })
        }
    } else if l == "}"@ {
        if !st.in_block {
            Err(msg_no_brackets())
        } else {
            Ok(MachineState { in_block: false, ..st })
        }
    } else if !st.in_block {
        Err(msg_outside_block())
    } else if l == "["@ {
        if st.list_open {
            Err(msg_nest_lists())
        } else {
            Ok(MachineState { list_open: true, frags: st.frags.push("<ul>"@), ..st })
        }
    } else if l == "]"@ {
        if !st.list_open {
            Err(msg_close_unopened())
        } else {
            Ok(MachineState { list_open: false, frags: st.frags.push("</ul>"@), ..st })
        }
    } else if spec_starts_with(l, "-"@) && st.list_open {
        let text = spec_eval(spec_rest(l), st.table);
        Ok(MachineState { frags: st.frags.push("<li>"@.add(text).add("</li>"@)), ..st })
    } else if spec_starts_with(l, "header"@) {
        let text = spec_eval(spec_rest(l), st.table);
        Ok(MachineState { frags: st.frags.push("<h1>"@.add(text).add("</h1>"@)), ..st })
    } else if spec_starts_with(l, "paragraph"@) {
        let text = spec_eval(spec_rest(l), st.table);
        Ok(MachineState { frags: st.frags.push("<p>"@.add(text).add("</p>"@)), ..st })
    } else if spec_starts_with(l, "img"@) {
        let e = spec_eval(spec_rest(l), st.table);
        let parts = spec_split(e, '|');
        if parts.len() != 2 {
            Err(msg_img_parts())
        } else {
            Ok(MachineState {
                frags: st.frags.push(
                    "<img src=\""@.add(spec_trim(parts[0])).add("\" alt=\""@).add(
                        spec_trim(parts[1]),
                    ).add("\">\n<br>"@),
                ),
                ..st
            })
        }
    } else if spec_starts_with(l, "link"@) {
        let e = spec_eval(spec_rest(l), st.table);
        let parts = spec_split(e, '|');
        if parts.len() != 2 {
            Err(msg_link_parts())
        } else {
            Ok(MachineState {
                frags: st.frags.push(
                    "<a href=\""@.add(spec_trim(parts[0])).add("\">"@).add(
                        spec_trim(parts[1]),
                    ).add("</a>"@),
                ),
                ..st
            })
        }
    } else if spec_starts_with(l, "list"@) {
        Ok(st)
    } else {
        Err(msg_syntax())
    }
}

/// The executable state machine.  Lines are fed one at a time;
/// `finish` closes the run and assembles the document.
pub struct Transpiler {
    in_block: bool,
    list_open: bool,
    table: ConstTable,
    frags: Vec<String>,
}

impl View for Transpiler {
    type V = MachineState;

    closed spec fn view(&self) -> MachineState {
        MachineState {
            in_block: self.in_block,
            list_open: self.list_open,
            table: self.table@,
            frags: views(self.frags@),
        }
    }
}

proof fn lemma_tokens_at_least_one(l: Seq<char>)
    requires
        l.len() >= 1,
        !is_space(l[0]),
    ensures
        spec_tokens(l).len() >= 1,
{
}

impl Transpiler {
    /// A machine in the starting state.
    pub fn new() -> (r: Transpiler)
        ensures
            r@ == init_state(),
    {
        let r = Transpiler {
            in_block: false,
            list_open: false,
            table: ConstTable::new(),
            frags: Vec::new(),
        };
        proof {
            assert(views(r.frags@) =~= Seq::<Seq<char>>::empty());
            assert(r@ =~= init_state());
        }
        r
    }

    /// The fragments emitted so far, in source order.
    pub fn fragments(&self) -> (r: &Vec<String>)
        ensures
            views(r@) == self@.frags,
    {
        &self.frags
    }

    /// Consumes one line: on success the state advances by
    /// `spec_step`; on failure the state is unchanged and the message
    /// is the one `spec_step` gives.
    pub fn feed_line(&mut self, raw: &str) -> (r: Result<(), String>)
        requires
            def_ok(spec_trim(raw@)),
        ensures
            match r {
                Ok(_) => spec_step(old(self)@, raw@) == Ok::<MachineState, Seq<char>>(
                    final(self)@,
                ),
                Err(m) => ({
                    &&& spec_step(old(self)@, raw@) == Err::<MachineState, Seq<char>>(m@)
                    &&& *final(self) == *old(self)
                }),
            },
    {
        let line = trim(raw);
        let ghost l = spec_trim(raw@);
        if starts_with(line, "def") {
            if self.in_block {
                return Err(String::from_str("You can't define a constant inside the text area"));
            }
            let toks = tokenize(line);
            let name = String::from_str(trim_end_colons(toks[1].as_str()));
            let value = join_from(&toks, 2, " ");
            self.table.set(name, value);
            proof {
                assert(views(toks@)[1] == toks@[1]@);
                assert(spec_step(old(self)@, raw@) == Ok::<MachineState, Seq<char>>(self@));
            }
            return Ok(());
        }
        if str_eq(line, "{") {
            if self.in_block {
                return Err(String::from_str("Syntax error (Brackets already open)"));
            }
            self.in_block = true;
            proof {
                assert(spec_step(old(self)@, raw@) == Ok::<MachineState, Seq<char>>(self@));
            }
            return Ok(());
        }
        if str_eq(line, "}") {
            if !self.in_block {
                return Err(String::from_str("Syntax error (No brackets to close)"));
            }
            self.in_block = false;
            proof {
                assert(spec_step(old(self)@, raw@) == Ok::<MachineState, Seq<char>>(self@));
            }
            return Ok(());
        }
        if !self.in_block {
            return Err(String::from_str("You can't define the text outside the text area"));
        }
        if str_eq(line, "[") {
            if self.list_open {
                return Err(String::from_str("You can't nest lists"));
            }
            self.list_open = true;
            self.frags.push(String::from_str("<ul>"));
            proof {
                assert(views(self.frags@) =~= views(old(self).frags@).push("<ul>"@));
                assert(spec_step(old(self)@, raw@) == Ok::<MachineState, Seq<char>>(self@));
            }
            return Ok(());
        }
        if str_eq(line, "]") {
            if !self.list_open {
                return Err(String::from_str("You can't close a list that isn't open"));
            }
            self.list_open = false;
            self.frags.push(String::from_str("</ul>"));
            proof {
                assert(views(self.frags@) =~= views(old(self).frags@).push("</ul>"@));
                assert(spec_step(old(self)@, raw@) == Ok::<MachineState, Seq<char>>(self@));
            }
            return Ok(());
        }
        let in_list = self.list_open;
        if starts_with(line, "-") && in_list {
            proof {
                reveal_strlit("-");
                crate::text::lemma_starts_with_first(l, "-"@);
                assert(l[0] == '-');
                lemma_tokens_at_least_one(l);
            }
            let toks = tokenize(line);
            let text = eval(join_from(&toks, 1, " "), &self.table);
            let mut frag = String::from_str("<li>");
            frag.append(text.as_str());
            frag.append("</li>");
            self.frags.push(frag);
            proof {
                assert(views(self.frags@) =~= views(old(self).frags@).push(
                    "<li>"@.add(spec_eval(spec_rest(l), old(self)@.table)).add("</li>"@),
                ));
                assert(spec_step(old(self)@, raw@) == Ok::<MachineState, Seq<char>>(self@));
            }
            return Ok(());
        }
        if starts_with(line, "header") {
            proof {
                reveal_strlit("header");
                crate::text::lemma_starts_with_first(l, "header"@);
                assert(l[0] == 'h');
                lemma_tokens_at_least_one(l);
            }
            let toks = tokenize(line);
            let text = eval(join_from(&toks, 1, " "), &self.table);
            let mut frag = String::from_str("<h1>");
            frag.append(text.as_str());
            frag.append("</h1>");
            self.frags.push(frag);
            proof {
                assert(views(self.frags@) =~= views(old(self).frags@).push(
                    "<h1>"@.add(spec_eval(spec_rest(l), old(self)@.table)).add("</h1>"@),
                ));
                assert(spec_step(old(self)@, raw@) == Ok::<MachineState, Seq<char>>(self@));
            }
            return Ok(());
        }
        if starts_with(line, "paragraph") {
            proof {
                reveal_strlit("paragraph");
                crate::text::lemma_starts_with_first(l, "paragraph"@);
                assert(l[0] == 'p');
                lemma_tokens_at_least_one(l);
            }
            let toks = tokenize(line);
            let text = eval(join_from(&toks, 1, " "), &self.table);
            let mut frag = String::from_str("<p>");
            frag.append(text.as_str());
            frag.append("</p>");
            self.frags.push(frag);
            proof {
                assert(views(self.frags@) =~= views(old(self).frags@).push(
                    "<p>"@.add(spec_eval(spec_rest(l), old(self)@.table)).add("</p>"@),
                ));
                assert(spec_step(old(self)@, raw@) == Ok::<MachineState, Seq<char>>(self@));
            }
            return Ok(());
        }
        if starts_with(line, "img") {
            proof {
                reveal_strlit("img");
                crate::text::lemma_starts_with_first(l, "img"@);
                assert(l[0] == 'i');
                lemma_tokens_at_least_one(l);
            }
            let toks = tokenize(line);
            let evaled = eval(join_from(&toks, 1, " "), &self.table);
            let parts = split_char(evaled.as_str(), '|');
            let ghost sparts = spec_split(spec_eval(spec_rest(l), old(self)@.table), '|');
            if parts.len() != 2 {
                return Err(String::from_str("You must specify an image and its alt text"));
            }
            let src = trim(parts[0].as_str());
            let alt = trim(parts[1].as_str());
            let mut frag = String::from_str("<img src=\"");
            frag.append(src);
            frag.append("\" alt=\"");
            frag.append(alt);
            frag.append("\">\n<br>");
            self.frags.push(frag);
            proof {
                assert(views(parts@)[0] == parts@[0]@);
                assert(views(parts@)[1] == parts@[1]@);
                assert(frag@ =~= "<img src=\""@.add(spec_trim(sparts[0])).add(
                    "\" alt=\""@,
                ).add(spec_trim(sparts[1])).add("\">\n<br>"@));
                assert(views(self.frags@) =~= views(old(self).frags@).push(frag@));
                assert(spec_step(old(self)@, raw@) == Ok::<MachineState, Seq<char>>(self@));
            }
            return Ok(());
        }
        if starts_with(line, "link") {
            proof {
                reveal_strlit("link");
                crate::text::lemma_starts_with_first(l, "link"@);
                assert(l[0] == 'l');
                lemma_tokens_at_least_one(l);
            }
            let toks = tokenize(line);
            let evaled = eval(join_from(&toks, 1, " "), &self.table);
            let parts = split_char(evaled.as_str(), '|');
            let ghost sparts = spec_split(spec_eval(spec_rest(l), old(self)@.table), '|');
            if parts.len() != 2 {
                return Err(String::from_str("You must specify a link and its text"));
            }
            let href = trim(parts[0].as_str());
            let label = trim(parts[1].as_str());
            let mut frag = String::from_str("<a href=\"");
            frag.append(href);
            frag.append("\">");
            frag.append(label);
            frag.append("</a>");
            self.frags.push(frag);
            proof {
                assert(views(parts@)[0] == parts@[0]@);
                assert(views(parts@)[1] == parts@[1]@);
                assert(frag@ =~= "<a href=\""@.add(spec_trim(sparts[0])).add("\">"@).add(
                    spec_trim(sparts[1]),
                ).add("</a>"@));
                assert(views(self.frags@) =~= views(old(self).frags@).push(frag@));
                assert(spec_step(old(self)@, raw@) == Ok::<MachineState, Seq<char>>(self@));
            }
            return Ok(());
        }
        if starts_with(line, "list") {
            return Ok(());
        }
        Err(String::from_str("Syntax error"))
    }

    /// Closes the run: checks the terminal state and assembles the
    /// final document as `spec_finish` describes.
    pub fn finish(&self) -> (r: Result<String, String>)
        ensures
            match r {
                Ok(doc) => spec_finish(self@) == Ok::<Seq<char>, Seq<char>>(doc@),
                Err(m) => spec_finish(self@) == Err::<Seq<char>, Seq<char>>(m@),
            },
    {
        if self.in_block {
            return Err(String::from_str("Unmatched brackets at EOF"));
        }
        if self.list_open {
            return Err(String::from_str("Unmatched list at EOF"));
        }
        let mut tpl = String::from_str(
            "\n        <!DOCTYPE html>\n        <html lang=\"en\">\n        <head>\n            <meta charset=\"UTF-8\">\n            <meta name=\"viewport\" content=\"width=device-width, initial-scale=1.0\">\n            <title>",
        );
        tpl.append("%title%");
        tpl.append("</title>\n            <style>\n            ");
        tpl.append("%theme%");
        tpl.append("\n            </style>\n        </head>\n        <body>\n");
        tpl.append("%content%");
        tpl.append("\n        </body>\n        </html>\n    ");
        proof {
            reveal_strlit("%title%");
            reveal_strlit("%theme%");
            reveal_strlit("%content%");
            reveal_strlit("");
            assert(tpl@ == crate::emit::spec_template());
            assert(""@ =~= Seq::<char>::empty());
        }
        let w1 = match self.table.get("title") {
            Some(v) => replace_all(tpl.as_str(), "%title%", v.as_str()),
            None => tpl,
        };
        let w2 = match self.table.get("theme") {
            Some(v) => match theme_css(v.as_str()) {
                Some(css) => replace_all(w1.as_str(), "%theme%", css),
                None => {
                    return Err(String::from_str("Theme not found"));
                },
            },
            None => replace_all(w1.as_str(), "%theme%", ""),
        };
        let content = join_from(&self.frags, 0, "\n");
        proof {
            assert(views(self.frags@).skip(0) =~= self@.frags);
        }
        let out = replace_all(w2.as_str(), "%content%", content.as_str());
        proof {
            assert(spec_finish(self@) is Ok);
            assert(out@ == spec_finish(self@)->Ok_0);
        }
        Ok(out)
    }
}

/// Every line of the input satisfies `def_ok` once trimmed.
pub open spec fn content_def_ok(content: Seq<char>) -> bool {
    forall|i: int|
        0 <= i < spec_lines(content).len() ==> def_ok(#[trigger] spec_trim(spec_lines(content)[i]))
}

/// Decides `content_def_ok`: whether every `def` line of the input
/// carries a constant name.
pub fn input_ok(content: &str) -> (r: bool)
    ensures
        r == content_def_ok(content@),
{
    let lines = split_lines(content);
    let mut i: usize = 0;
    while i < lines.len()
        invariant
            0 <= i <= lines.len(),
            views(lines@) == spec_lines(content@),
            forall|j: int| 0 <= j < i ==> def_ok(#[trigger] spec_trim(spec_lines(content@)[j])),
        decreases lines.len() - i,
    {
        let line = trim(lines[i].as_str());
        if starts_with(line, "def") {
            let toks = tokenize(line);
            if toks.len() < 2 {
                proof {
                    assert(views(lines@)[i as int] == lines@[i as int]@);
                    assert(!def_ok(spec_trim(spec_lines(content@)[i as int])));
                }
                return false;
            }
        }
        proof {
            assert(views(lines@)[i as int] == lines@[i as int]@);
        }
        i = i + 1;
    }
    true
}

/// The run over a sequence of lines, starting at state `st` with
/// `lineno` lines already consumed: the terminal state, or the failing
/// line's one-based number with its message.
pub open spec fn spec_run_from(
    st: MachineState,
    lines: Seq<Seq<char>>,
    lineno: int,
) -> Result<MachineState, (int, Seq<char>)>
    decreases lines.len(),
{
    if lines.len() == 0 {
        Ok(st)
    } else {
        match spec_step(st, lines[0]) {
            Ok(st2) => spec_run_from(st2, lines.drop_first(), lineno + 1),
            Err(m) => Err((lineno + 1, m)),
        }
    }
}

/// The whole translation: the input split into lines, the machine run
/// over them from the starting state, the terminal state checked and
/// the document assembled.  Failure carries the one-based number of the
/// offending line (for end-of-input failures, the number of lines) and
/// the message.
pub open spec fn spec_transpile(content: Seq<char>) -> Result<Seq<char>, (int, Seq<char>)> {
    let lines = spec_lines(content);
    match spec_run_from(init_state(), lines, 0) {
        Ok(st) => match spec_finish(st) {
            Ok(doc) => Ok(doc),
            Err(m) => Err((lines.len() as int, m)),
        },
        Err(e) => Err(e),
    }
}

/// Translates a whole source text to the final HTML document, or fails
/// with the first error, as `spec_transpile` describes.
pub fn transpile(content: &str) -> (r: Result<String, TranspileError>)
    requires
        content_def_ok(content@),
    ensures
        match r {
            Ok(doc) => spec_transpile(content@) == Ok::<Seq<char>, (int, Seq<char>)>(doc@),
            Err(e) => ({
                &&& spec_transpile(content@) is Err
                &&& spec_transpile(content@)->Err_0.0 == e.line as int
                &&& spec_transpile(content@)->Err_0.1 == e.message@
            }),
        },
{
    let lines = split_lines(content);
    let ghost slines = spec_lines(content@);
    let mut tr = Transpiler::new();
    let mut i: usize = 0;
    proof {
        assert(slines.skip(0) =~= slines);
    }
    while i < lines.len()
        invariant
            0 <= i <= lines.len(),
            views(lines@) == slines,
            slines == spec_lines(content@),
            content_def_ok(content@),
            spec_run_from(init_state(), slines, 0) == spec_run_from(
                tr@,
                slines.skip(i as int),
                i as int,
            ),
        decreases lines.len() - i,
    {
        proof {
            assert(views(lines@)[i as int] == lines@[i as int]@);
            assert(slines.skip(i as int)[0] == slines[i as int]);
        }
        let res = tr.feed_line(lines[i].as_str());
        match res {
            Ok(_) => {
                proof {
                    assert(slines.skip(i as int).drop_first() =~= slines.skip(i as int + 1));
                }
                i = i + 1;
            },
            Err(m) => {
                return Err(TranspileError { line: i + 1, message: m });
            },
        }
    }
    proof {
        assert(slines.skip(lines.len() as int) =~= Seq::<Seq<char>>::empty());
    }
    match tr.finish() {
        Ok(doc) => Ok(doc),
        Err(m) => Err(TranspileError { line: lines.len(), message: m }),
    }
}

} // verus!
