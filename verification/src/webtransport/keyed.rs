//! Lists used as maps: the first entry whose key matches is the one that
//! counts, and putting a key replaces that entry or appends a new one.
use vstd::prelude::*;
use crate::first_pos::{spec_first_pos, lemma_first_pos, lemma_first_pos_at};

verus! {

/// The key test of a (key, value) list.
pub open spec fn spec_key_is(k: u64) -> spec_fn((u64, u64)) -> bool {
    |e: (u64, u64)| e.0 == k
}

/// The value of key `k`.
pub open spec fn spec_lookup(s: Seq<(u64, u64)>, k: u64) -> Option<u64> {
    let i = spec_first_pos(s, spec_key_is(k));
    if i < 0 { None } else { Some(s[i].1) }
}

/// `s` with key `k` mapped to `v`.
pub open spec fn spec_put(s: Seq<(u64, u64)>, k: u64, v: u64) -> Seq<(u64, u64)> {
    let i = spec_first_pos(s, spec_key_is(k));
    if i < 0 { s.push((k, v)) } else { s.update(i, (k, v)) }
}

fn pair_index(s: &Vec<(u64, u64)>, k: u64) -> (r: Option<usize>)
    ensures
        match r {
            Some(i) => spec_first_pos(s@, spec_key_is(k)) == i,
            None => spec_first_pos(s@, spec_key_is(k)) < 0,
        },
{
    proof {
        lemma_first_pos(s@, spec_key_is(k));
    }
    let mut i: usize = 0;
    while i < s.len()
        invariant
            i <= s@.len(),
            forall|j: int| 0 <= j < i ==> !spec_key_is(k)(#[trigger] s@[j]),
        decreases s.len() - i,
    {
        if s[i].0 == k {
            proof {
                lemma_first_pos_at(s@, spec_key_is(k), i as int);
            }
            return Some(i);
        }
        i = i + 1;
    }
    None
}

/// The value of key `k`.
pub fn pair_get(s: &Vec<(u64, u64)>, k: u64) -> (r: Option<u64>)
    ensures
        r == spec_lookup(s@, k),
{
    proof {
        lemma_first_pos(s@, spec_key_is(k));
    }
    match pair_index(s, k) {
        Some(i) => Some(s[i].1),
        None => None,
    }
}

/// Maps key `k` to `v`.
pub fn pair_put(s: &mut Vec<(u64, u64)>, k: u64, v: u64)
    ensures
        final(s)@ == spec_put(old(s)@, k, v),
{
    proof {
        lemma_first_pos(old(s)@, spec_key_is(k));
    }
    match pair_index(s, k) {
        Some(i) => {
            s.remove(i);
            s.insert(i, (k, v));
            assert(s@ =~= old(s)@.update(i as int, (k, v)));
        },
        None => {
            s.push((k, v));
        },
    }
}

/// Whether `k` is in `s`.
pub fn contains_key(s: &Vec<u64>, k: u64) -> (r: bool)
    ensures
        r == s@.contains(k),
{
    let mut i: usize = 0;
    while i < s.len()
        invariant
            i <= s@.len(),
            forall|j: int| 0 <= j < i ==> s@[j] != k,
        decreases s.len() - i,
    {
        if s[i] == k {
            assert(s@[i as int] == k);
            return true;
        }
        i = i + 1;
    }
    false
}

} // verus!
