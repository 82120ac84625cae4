//! Constant substitution: replaces `%name%` tokens by the values of
//! defined constants.

use vstd::prelude::*;
use crate::table::ConstTable;
use crate::text::{replace_all, spec_replace};

verus! {

/// The token `%k%`.
pub open spec fn pct(k: Seq<char>) -> Seq<char> {
    seq!['%'].add(k).push('%')
}

/// `s` after substitution of the table `t`: for each entry in order,
/// every occurrence of `%name%` is replaced by the entry's value.  Each
/// entry is applied once, in one pass over the whole growing string:
/// replacements are not expanded recursively, but text introduced by an
/// earlier entry's value is scanned again by the later entries' passes.
/// The order is the table's order, that of first definition.
pub open spec fn spec_eval(s: Seq<char>, t: Seq<(Seq<char>, Seq<char>)>) -> Seq<char>
    decreases t.len(),
{
    if t.len() == 0 {
        s
    } else {
        spec_eval(spec_replace(s, pct(t[0].0), t[0].1), t.drop_first())
    }
}

/// Replaces every `%name%` token of a defined constant by that
/// constant's value.  Tokens of names that are not defined are left
/// verbatim.
pub fn eval(input: String, defined_constants: &ConstTable) -> (r: String)
    ensures
        r@ == spec_eval(input@, defined_constants@),
{
    let mut out = input;
    let n = defined_constants.len();
    let mut i: usize = 0;
    proof {
        assert(defined_constants@.skip(0) =~= defined_constants@);
    }
    while i < n
        invariant
            0 <= i <= n,
            n == defined_constants@.len(),
            spec_eval(input@, defined_constants@)
                == spec_eval(out@, defined_constants@.skip(i as int)),
        decreases n - i,
    {
        let (k, v) = defined_constants.pair(i);
        let mut pat = String::from_str("%");
        pat.append(k.as_str());
        pat.append("%");
        proof {
            reveal_strlit("%");
            assert(pat@ =~= pct(defined_constants@[i as int].0));
        }
        let next = replace_all(out.as_str(), pat.as_str(), v.as_str());
        proof {
            let rest = defined_constants@.skip(i as int);
            assert(rest.drop_first() =~= defined_constants@.skip(i as int + 1));
            assert(rest[0] == defined_constants@[i as int]);
        }
        out = next;
        i = i + 1;
    }
    proof {
        assert(defined_constants@.skip(n as int) =~= Seq::<(Seq<char>, Seq<char>)>::empty());
    }
    out
}

} // verus!
