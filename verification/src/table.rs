//! The table of defined constants: name-value pairs kept in order of
//! first definition, a later definition of the same name replacing the
//! value in place.

use vstd::prelude::*;
use crate::text::str_eq;

verus! {

/// The value bound to `k` in `t`, scanning from the front.
pub open spec fn tbl_lookup(t: Seq<(Seq<char>, Seq<char>)>, k: Seq<char>) -> Option<Seq<char>>
    decreases t.len(),
{
    if t.len() == 0 {
        None
    } else if t[0].0 == k {
        Some(t[0].1)
    } else {
        tbl_lookup(t.drop_first(), k)
    }
}

/// `t` with `k` bound to `v`: an existing binding of `k` is replaced in
/// place, a fresh binding is appended at the end.
pub open spec fn tbl_upsert(
    t: Seq<(Seq<char>, Seq<char>)>,
    k: Seq<char>,
    v: Seq<char>,
) -> Seq<(Seq<char>, Seq<char>)>
    decreases t.len(),
{
    if t.len() == 0 {
        seq![(k, v)]
    } else if t[0].0 == k {
        seq![(k, v)].add(t.drop_first())
    } else {
        seq![t[0]].add(tbl_upsert(t.drop_first(), k, v))
    }
}

proof fn lemma_upsert_found(t: Seq<(Seq<char>, Seq<char>)>, k: Seq<char>, v: Seq<char>, i: int)
    requires
        0 <= i < t.len(),
        t[i].0 == k,
        forall|j: int| 0 <= j < i ==> t[j].0 != k,
    ensures
        tbl_upsert(t, k, v) == t.update(i, (k, v)),
    decreases i,
{
    if i == 0 {
        assert(seq![(k, v)].add(t.drop_first()) =~= t.update(0, (k, v)));
    } else {
        lemma_upsert_found(t.drop_first(), k, v, i - 1);
        assert(seq![t[0]].add(t.drop_first().update(i - 1, (k, v))) =~= t.update(i, (k, v)));
    }
}

proof fn lemma_upsert_absent(t: Seq<(Seq<char>, Seq<char>)>, k: Seq<char>, v: Seq<char>)
    requires
        forall|j: int| 0 <= j < t.len() ==> t[j].0 != k,
    ensures
        tbl_upsert(t, k, v) == t.push((k, v)),
    decreases t.len(),
{
    if t.len() == 0 {
        assert(seq![(k, v)] =~= t.push((k, v)));
    } else {
        lemma_upsert_absent(t.drop_first(), k, v);
        assert(seq![t[0]].add(t.drop_first().push((k, v))) =~= t.push((k, v)));
    }
}

proof fn lemma_lookup_found(t: Seq<(Seq<char>, Seq<char>)>, k: Seq<char>, i: int)
    requires
        0 <= i < t.len(),
        t[i].0 == k,
        forall|j: int| 0 <= j < i ==> t[j].0 != k,
    ensures
        tbl_lookup(t, k) == Some(t[i].1),
    decreases i,
{
    if i > 0 {
        lemma_lookup_found(t.drop_first(), k, i - 1);
    }
}

proof fn lemma_lookup_absent(t: Seq<(Seq<char>, Seq<char>)>, k: Seq<char>)
    requires
        forall|j: int| 0 <= j < t.len() ==> t[j].0 != k,
    ensures
        tbl_lookup(t, k) is None,
    decreases t.len(),
{
    if t.len() > 0 {
        lemma_lookup_absent(t.drop_first(), k);
    }
}

/// The constant table, viewed as the sequence of its name-value pairs
/// in order of first definition.
pub struct ConstTable {
    entries: Vec<(String, String)>,
}

impl View for ConstTable {
    type V = Seq<(Seq<char>, Seq<char>)>;

    closed spec fn view(&self) -> Seq<(Seq<char>, Seq<char>)> {
        self.entries@.map_values(|p: (String, String)| (p.0@, p.1@))
    }
}

impl ConstTable {
    /// An empty table.
    pub fn new() -> (r: ConstTable)
        ensures
            r@ == Seq::<(Seq<char>, Seq<char>)>::empty(),
    {
        let r = ConstTable { entries: Vec::new() };
        proof {
            assert(r@ =~= Seq::<(Seq<char>, Seq<char>)>::empty());
        }
        r
    }

    /// The number of bindings.
    pub fn len(&self) -> (n: usize)
        ensures
            n == self@.len(),
    {
        self.entries.len()
    }

    /// The binding at position `i`.
    pub fn pair(&self, i: usize) -> (r: (&String, &String))
        requires
            i < self@.len(),
        ensures
            r.0@ == self@[i as int].0,
            r.1@ == self@[i as int].1,
    {
        (&self.entries[i].0, &self.entries[i].1)
    }

    /// Binds `k` to `v`: a later definition of the same name replaces
    /// the earlier value, keeping the name's original position.
    pub fn set(&mut self, k: String, v: String)
        ensures
            final(self)@ == tbl_upsert(old(self)@, k@, v@),
    {
        let mut i: usize = 0;
        while i < self.entries.len()
            invariant
                0 <= i <= self.entries.len(),
                self == old(self),
                forall|j: int| 0 <= j < i ==> self@[j].0 != k@,
            decreases self.entries.len() - i,
        {
            if str_eq(self.entries[i].0.as_str(), k.as_str()) {
                proof {
                    lemma_upsert_found(self@, k@, v@, i as int);
                }
                vstd::std_specs::core::index_set(&mut self.entries, i, (k, v));
                proof {
                    assert(self@ =~= old(self)@.update(i as int, (k@, v@)));
                }
                return;
            }
            i = i + 1;
        }
        proof {
            lemma_upsert_absent(self@, k@, v@);
        }
        self.entries.push((k, v));
        proof {
            assert(self@ =~= old(self)@.push((k@, v@)));
        }
    }

    /// The value bound to `k`, if any.
    pub fn get(&self, k: &str) -> (r: Option<&String>)
        ensures
            match r {
                Some(v) => tbl_lookup(self@, k@) == Some(v@),
                None => tbl_lookup(self@, k@) is None,
            },
    {
        let mut i: usize = 0;
        while i < self.entries.len()
            invariant
                0 <= i <= self.entries.len(),
                forall|j: int| 0 <= j < i ==> self@[j].0 != k@,
            decreases self.entries.len() - i,
        {
            if str_eq(self.entries[i].0.as_str(), k) {
                proof {
                    lemma_lookup_found(self@, k@, i as int);
                }
                return Some(&self.entries[i].1);
            }
            i = i + 1;
        }
        proof {
            lemma_lookup_absent(self@, k@);
        }
        None
    }
}

} // verus!
