use vstd::prelude::*;
use crate::bytes::bytes_eq;

verus! {

/// The amount recorded under `k`: the last entry with that key, or 0.
pub open spec fn amount_at(s: Seq<(Vec<u8>, u128)>, k: Seq<u8>) -> nat
    decreases s.len(),
{
    if s.len() == 0 {
        0
    } else if s.last().0@ == k {
        s.last().1 as nat
    } else {
        amount_at(s.drop_last(), k)
    }
}

/// The sum of all recorded amounts.
pub open spec fn total_of(s: Seq<(Vec<u8>, u128)>) -> nat
    decreases s.len(),
{
    if s.len() == 0 {
        0
    } else {
        total_of(s.drop_last()) + s.last().1 as nat
    }
}

pub open spec fn keys_distinct(s: Seq<(Vec<u8>, u128)>) -> bool {
    forall|i: int, j: int| 0 <= i < j < s.len() ==> s[i].0@ != s[j].0@
}

proof fn lemma_update(s: Seq<(Vec<u8>, u128)>, i: int, e: (Vec<u8>, u128))
    requires
        0 <= i < s.len(),
        e.0@ == s[i].0@,
        forall|j: int| i < j < s.len() ==> s[j].0@ != e.0@,
    ensures
        forall|k: Seq<u8>| amount_at(s.update(i, e), k) == if k == e.0@ { e.1 as nat } else { amount_at(s, k) },
        total_of(s.update(i, e)) == total_of(s) - s[i].1 + e.1,
    decreases s.len(),
{
    let t = s.update(i, e);
    if i == s.len() - 1 {
        assert(t.drop_last() =~= s.drop_last());
    } else {
        assert(t.drop_last() =~= s.drop_last().update(i, e));
        lemma_update(s.drop_last(), i, e);
    }
    assert forall|k: Seq<u8>| amount_at(t, k) == if k == e.0@ { e.1 as nat } else { amount_at(s, k) } by {
        if i == s.len() - 1 {
            assert(t.last() == e);
            assert(s.last().0@ == e.0@);
        } else {
            assert(t.last() == s.last());
            assert(amount_at(t.drop_last(), k) == if k == e.0@ { e.1 as nat } else { amount_at(s.drop_last(), k) });
        }
    }
}

pub proof fn lemma_absent(s: Seq<(Vec<u8>, u128)>, k: Seq<u8>)
    requires
        forall|j: int| 0 <= j < s.len() ==> s[j].0@ != k,
    ensures
        amount_at(s, k) == 0,
    decreases s.len(),
{
    if s.len() > 0 {
        lemma_absent(s.drop_last(), k);
    }
}

pub proof fn lemma_last_match(s: Seq<(Vec<u8>, u128)>, i: int)
    requires
        0 <= i < s.len(),
        forall|j: int| i < j < s.len() ==> s[j].0@ != s[i].0@,
    ensures
        amount_at(s, s[i].0@) == s[i].1,
    decreases s.len(),
{
    if i < s.len() - 1 {
        lemma_last_match(s.drop_last(), i);
    }
}

/// No recorded amount exceeds the total.
pub proof fn lemma_amount_le_total(s: Seq<(Vec<u8>, u128)>, k: Seq<u8>)
    ensures
        amount_at(s, k) <= total_of(s),
    decreases s.len(),
{
    if s.len() > 0 {
        lemma_amount_le_total(s.drop_last(), k);
    }
}

/// Amounts keyed by byte strings, one entry per key.
pub struct AmountTable {
    pub entries: Vec<(Vec<u8>, u128)>,
}

impl AmountTable {
    pub open spec fn wf(&self) -> bool {
        keys_distinct(self.entries@)
    }

    pub open spec fn get_spec(&self, k: Seq<u8>) -> nat {
        amount_at(self.entries@, k)
    }

    pub open spec fn total(&self) -> nat {
        total_of(self.entries@)
    }

    pub fn new() -> (r: AmountTable)
        ensures
            r.wf(),
            r.total() == 0,
            forall|k: Seq<u8>| r.get_spec(k) == 0,
    {
        AmountTable { entries: Vec::new() }
    }

    /// The index of the entry for `k`, if there is one.
    fn find(&self, k: &Vec<u8>) -> (r: Option<usize>)
        ensures
            match r {
                Some(i) => i < self.entries@.len() && self.entries@[i as int].0@ == k@
                    && forall|j: int| i < j < self.entries@.len() ==> self.entries@[j].0@ != k@,
                None => forall|j: int| 0 <= j < self.entries@.len() ==> self.entries@[j].0@ != k@,
            },
    {
        let mut i = self.entries.len();
        while i > 0
            invariant
                i <= self.entries@.len(),
                forall|j: int| i <= j < self.entries@.len() ==> self.entries@[j].0@ != k@,
            decreases i,
        {
            if bytes_eq(&self.entries[i - 1].0, k) {
                return Some(i - 1);
            }
            i -= 1;
        }
        None
    }

    pub fn get(&self, k: &Vec<u8>) -> (r: u128)
        ensures
            r == self.get_spec(k@),
    {
        match self.find(k) {
            Some(i) => {
                proof { lemma_last_match(self.entries@, i as int); }
                self.entries[i].1
            },
            None => {
                proof { lemma_absent(self.entries@, k@); }
                0
            },
        }
    }

    /// Records `v` under `k`.
    pub fn set(&mut self, k: &Vec<u8>, v: u128)
        requires
            old(self).wf(),
        ensures
            final(self).wf(),
            forall|x: Seq<u8>| final(self).get_spec(x) == if x == k@ { v as nat } else { old(self).get_spec(x) },
            final(self).total() == old(self).total() - old(self).get_spec(k@) + v,
    {
        match self.find(k) {
            Some(i) => {
                let e = (k.clone(), v);
                proof {
                    lemma_last_match(self.entries@, i as int);
                    lemma_update(self.entries@, i as int, e);
                }
                self.entries.set(i, e);
            },
            None => {
                proof { lemma_absent(self.entries@, k@); }
                let ghost before = self.entries@;
                self.entries.push((k.clone(), v));
                assert(self.entries@.drop_last() =~= before);
            },
        }
    }
}

} // verus!
