//! HTML emission: the fixed page template, the two color themes, and
//! the assembly of the final document from the run's terminal state.

use vstd::prelude::*;
use crate::diag::{msg_theme_not_found, msg_unmatched_brackets, msg_unmatched_list};
use crate::machine::MachineState;
use crate::table::tbl_lookup;
use crate::text::{spec_join, spec_replace};

verus! {

/// The template up to and including `<title>`.
pub open spec fn tpl_head() -> Seq<char> {
    "\n        <!DOCTYPE html>\n        <html lang=\"en\">\n        <head>\n            <meta charset=\"UTF-8\">\n            <meta name=\"viewport\" content=\"width=device-width, initial-scale=1.0\">\n            <title>"@
}

/// The template between the title and the style text.
pub open spec fn tpl_style() -> Seq<char> {
    "</title>\n            <style>\n            "@
}

/// The template between the style text and the body content.
pub open spec fn tpl_body() -> Seq<char> {
    "\n            </style>\n        </head>\n        <body>\n"@
}

/// The template after the body content.
pub open spec fn tpl_tail() -> Seq<char> {
    "\n        </body>\n        </html>\n    "@
}

/// The CSS of the `light` theme.
pub open spec fn light_css() -> Seq<char> {
    "body {\n    background-color: #f2f2f2;\n    font-family: Arial, sans-serif;\n}\nli {\n    margin-bottom: 10px;\n}\na {\n    color: black;\n    text-decoration: underline;\n}\n"@
}

/// The CSS of the `dark` theme.
pub open spec fn dark_css() -> Seq<char> {
    "body {\n    background-color: #1d1d1d;\n    color: #f2f2f2;\n    font-family: Arial, sans-serif;\n}\nli {\n    margin-bottom: 10px;\n}\na {\n    color: #f2f2f2;\n    text-decoration: underline;\n}\n"@
}

/// The CSS of the named theme, if the name is a known one.
pub open spec fn spec_theme_css(name: Seq<char>) -> Option<Seq<char>> {
    if name == "light"@ {
        Some(light_css())
    } else if name == "dark"@ {
        Some(dark_css())
    } else {
        None
    }
}

/// The CSS of the named theme, if the name is a known one.
pub fn theme_css(name: &str) -> (r: Option<&'static str>)
    ensures
        match r {
            Some(css) => spec_theme_css(name@) == Some(css@),
            None => spec_theme_css(name@) is None,
        },
{
    if crate::text::str_eq(name, "light") {
        Some(
            "body {\n    background-color: #f2f2f2;\n    font-family: Arial, sans-serif;\n}\nli {\n    margin-bottom: 10px;\n}\na {\n    color: black;\n    text-decoration: underline;\n}\n",
        )
    } else if crate::text::str_eq(name, "dark") {
        Some(
            "body {\n    background-color: #1d1d1d;\n    color: #f2f2f2;\n    font-family: Arial, sans-serif;\n}\nli {\n    margin-bottom: 10px;\n}\na {\n    color: #f2f2f2;\n    text-decoration: underline;\n}\n",
        )
    } else {
        None
    }
}

/// The document: the template with the title text, the theme's CSS and
/// the joined fragments spliced in for the `%title%`, `%theme%` and
/// `%content%` placeholders.
pub open spec fn spec_doc(
    title_part: Seq<char>,
    theme_part: Seq<char>,
    content_part: Seq<char>,
) -> Seq<char> {
    tpl_head().add(title_part).add(tpl_style()).add(theme_part).add(tpl_body()).add(
        content_part,
    ).add(tpl_tail())
}

/// The fixed page template: the placeholders `%title%`, `%theme%` and
/// `%content%` in their surrounding skeleton.
pub open spec fn spec_template() -> Seq<char> {
    spec_doc("%title%"@, "%theme%"@, "%content%"@)
}

/// The outcome once every line is consumed.  The text area and any
/// list must be closed.  Starting from the template, each placeholder
/// is then replaced in one left-to-right pass: `%title%` by the `title`
/// constant where one is defined, and otherwise left verbatim;
/// `%theme%` by the CSS of the theme the `theme` constant names, an
/// unknown name being fatal, and by nothing where no theme is set; and
/// `%content%` by the fragments joined with newlines, in source order.
/// The passes run in that order over the whole document, so text a
/// constant's value introduces is scanned by the later passes.
pub open spec fn spec_finish(st: MachineState) -> Result<Seq<char>, Seq<char>> {
    if st.in_block {
        Err(msg_unmatched_brackets())
    } else if st.list_open {
        Err(msg_unmatched_list())
    } else {
        let w1 = match tbl_lookup(st.table, "title"@) {
            Some(v) => spec_replace(spec_template(), "%title%"@, v),
            None => spec_template(),
        };
        let content_part = spec_join(st.frags, "\n"@);
        match tbl_lookup(st.table, "theme"@) {
            Some(v) => match spec_theme_css(v) {
                Some(css) => Ok(
                    spec_replace(spec_replace(w1, "%theme%"@, css), "%content%"@, content_part),
                ),
                None => Err(msg_theme_not_found()),
            },
            None => Ok(
                spec_replace(
                    spec_replace(w1, "%theme%"@, Seq::<char>::empty()),
                    "%content%"@,
                    content_part,
                ),
            ),
        }
    }
}

} // verus!
