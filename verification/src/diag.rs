//! Fatal diagnostics: the error value a failed run reports, and the
//! decimal rendering of its line number.

use vstd::prelude::*;

verus! {

/// The character for the digit `d`.
pub open spec fn digit_char(d: nat) -> char
    recommends
        d < 10,
{
    if d == 0 {
        '0'
    } else if d == 1 {
        '1'
    } else if d == 2 {
        '2'
    } else if d == 3 {
        '3'
    } else if d == 4 {
        '4'
    } else if d == 5 {
        '5'
    } else if d == 6 {
        '6'
    } else if d == 7 {
        '7'
    } else if d == 8 {
        '8'
    } else {
        '9'
    }
}

/// The decimal digits of `n`, most significant first.
pub open spec fn spec_dec(n: nat) -> Seq<char>
    decreases n,
{
    if n < 10 {
        seq![digit_char(n)]
    } else {
        spec_dec(n / 10).push(digit_char(n % 10))
    }
}

/// Renders `n` in decimal.
pub fn usize_to_string(n: usize) -> (r: String)
    ensures
        r@ == spec_dec(n as nat),
    decreases n,
{
    let digits = "0123456789";
    proof {
        reveal_strlit("0123456789");
    }
    if n < 10 {
        let r = String::from_str(digits.substring_char(n, n + 1));
        proof {
            assert(digits@.subrange(n as int, n as int + 1) =~= seq![digit_char(n as nat)]);
        }
        r
    } else {
        let mut r = usize_to_string(n / 10);
        let d = n % 10;
        r.append(digits.substring_char(d, d + 1));
        proof {
            assert(digits@.subrange(d as int, d as int + 1) =~= seq![digit_char(d as nat)]);
            assert(spec_dec(n as nat / 10).add(seq![digit_char(n as nat % 10)])
                =~= spec_dec(n as nat / 10).push(digit_char(n as nat % 10)));
        }
        r
    }
}

/// The diagnostic line `<filename>:<line-number>: <message>`.
pub open spec fn spec_diagnostic(filename: Seq<char>, line: nat, message: Seq<char>) -> Seq<char> {
    filename.add(seq![':']).add(spec_dec(line)).add(seq![':', ' ']).add(message)
}

/// Reported for a `def` line met inside the text area.
pub open spec fn msg_def_in_block() -> Seq<char> {
    "You can't define a constant inside the text area"@
}

/// Reported for a `{` met while the text area is already open.
pub open spec fn msg_brackets_open() -> Seq<char> {
    "Syntax error (Brackets already open)"@
}

/// Reported for a `}` met while no text area is open.
pub open spec fn msg_no_brackets() -> Seq<char> {
    "Syntax error (No brackets to close)"@
}

/// Reported for any non-`def` statement met outside the text area.
pub open spec fn msg_outside_block() -> Seq<char> {
    "You can't define the text outside the text area"@
}

/// Reported for a `[` met while a list is already open.
pub open spec fn msg_nest_lists() -> Seq<char> {
    "You can't nest lists"@
}

/// Reported for a `]` met while no list is open.
pub open spec fn msg_close_unopened() -> Seq<char> {
    "You can't close a list that isn't open"@
}

/// Reported for an `img` statement without exactly two `|`-separated parts.
pub open spec fn msg_img_parts() -> Seq<char> {
    "You must specify an image and its alt text"@
}

/// Reported for a `link` statement without exactly two `|`-separated parts.
pub open spec fn msg_link_parts() -> Seq<char> {
    "You must specify a link and its text"@
}

/// Reported for a line no rule recognizes.
pub open spec fn msg_syntax() -> Seq<char> {
    "Syntax error"@
}

/// Reported when the input ends with the text area still open.
pub open spec fn msg_unmatched_brackets() -> Seq<char> {
    "Unmatched brackets at EOF"@
}

/// Reported when the input ends with a list still open.
pub open spec fn msg_unmatched_list() -> Seq<char> {
    "Unmatched list at EOF"@
}

/// Reported when the `theme` constant names no known theme.
pub open spec fn msg_theme_not_found() -> Seq<char> {
    "Theme not found"@
}

/// A fatal syntax or theme error: the number of the offending line and
/// the message the run reports.
pub struct TranspileError {
    pub line: usize,
    pub message: String,
}

impl TranspileError {
    /// The diagnostic line the failed run prints:
    /// `<filename>:<line-number>: <message>`.
    pub fn diagnostic(&self, filename: &str) -> (r: String)
        ensures
            r@ == spec_diagnostic(filename@, self.line as nat, self.message@),
    {
        let mut r = String::from_str(filename);
        r.append(":");
        let num = usize_to_string(self.line);
        r.append(num.as_str());
        r.append(": ");
        r.append(self.message.as_str());
        proof {
            reveal_strlit(":");
            reveal_strlit(": ");
            assert(r@ =~= spec_diagnostic(filename@, self.line as nat, self.message@));
        }
        r
    }
}

} // verus!
