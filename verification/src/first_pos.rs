//! The first element of a sequence that satisfies a test: lists used as
//! maps look keys up this way.
use vstd::prelude::*;

verus! {

/// Position of the first element of `s` that satisfies `p`, or -1.
pub open spec fn spec_first_pos<T>(s: Seq<T>, p: spec_fn(T) -> bool) -> int
    decreases s.len(),
{
    if s.len() == 0 {
        -1
    } else if p(s[0]) {
        0
    } else {
        let q = spec_first_pos(s.skip(1), p);
        if q < 0 { -1 } else { q + 1 }
    }
}

pub proof fn lemma_first_pos<T>(s: Seq<T>, p: spec_fn(T) -> bool)
    ensures
        -1 <= spec_first_pos(s, p) < s.len(),
        spec_first_pos(s, p) >= 0 ==> p(s[spec_first_pos(s, p)]),
        spec_first_pos(s, p) >= 0 ==> forall|j: int| 0 <= j < spec_first_pos(s, p) ==> !p(#[trigger] s[j]),
        spec_first_pos(s, p) < 0 ==> forall|j: int| 0 <= j < s.len() ==> !p(#[trigger] s[j]),
    decreases s.len(),
{
    if s.len() > 0 && !p(s[0]) {
        let t = s.skip(1);
        lemma_first_pos(t, p);
        let q = spec_first_pos(s, p);
        if q >= 0 {
            assert forall|j: int| 0 <= j < q implies !p(#[trigger] s[j]) by {
                if j > 0 {
                    assert(s[j] == t[j - 1]);
                }
            }
        } else {
            assert forall|j: int| 0 <= j < s.len() implies !p(#[trigger] s[j]) by {
                if j > 0 {
                    assert(s[j] == t[j - 1]);
                }
            }
        }
    }
}

/// The position is the first one that satisfies `p`.
pub proof fn lemma_first_pos_at<T>(s: Seq<T>, p: spec_fn(T) -> bool, i: int)
    requires
        0 <= i < s.len(),
        p(s[i]),
        forall|j: int| 0 <= j < i ==> !p(#[trigger] s[j]),
    ensures
        spec_first_pos(s, p) == i,
{
    lemma_first_pos(s, p);
    let q = spec_first_pos(s, p);
    if q < 0 {
        assert(!p(s[i]));
    } else if q < i {
        assert(!p(s[q]));
    } else if q > i {
        assert(!p(s[i]));
    }
}

/// The first match in a sequence that starts with `e`.
pub proof fn lemma_first_pos_cons<T>(e: T, rest: Seq<T>, p: spec_fn(T) -> bool)
    ensures
        spec_first_pos(seq![e] + rest, p) == if p(e) {
            0
        } else if spec_first_pos(rest, p) < 0 {
            -1
        } else {
            spec_first_pos(rest, p) + 1
        },
{
    let s = seq![e] + rest;
    assert(s[0] == e);
    assert(s.skip(1) =~= rest);
}

/// Appending keeps the first match, and adds one only at the end.
pub proof fn lemma_first_pos_push<T>(s: Seq<T>, e: T, p: spec_fn(T) -> bool)
    ensures
        spec_first_pos(s, p) >= 0 ==> spec_first_pos(s.push(e), p) == spec_first_pos(s, p),
        spec_first_pos(s, p) < 0 ==> spec_first_pos(s.push(e), p) == if p(e) { s.len() as int } else { -1 },
{
    lemma_first_pos(s, p);
    let t = s.push(e);
    let q = spec_first_pos(s, p);
    if q >= 0 {
        assert forall|j: int| 0 <= j < q implies !p(#[trigger] t[j]) by {
            assert(t[j] == s[j]);
        }
        assert(t[q] == s[q]);
        lemma_first_pos_at(t, p, q);
    } else if p(e) {
        assert forall|j: int| 0 <= j < s.len() implies !p(#[trigger] t[j]) by {
            assert(t[j] == s[j]);
        }
        assert(t[s.len() as int] == e);
        lemma_first_pos_at(t, p, s.len() as int);
    } else {
        lemma_first_pos(t, p);
        let r = spec_first_pos(t, p);
        if r >= 0 {
            if r < s.len() {
                assert(t[r] == s[r]);
            } else {
                assert(t[r] == e);
            }
        }
    }
}

} // verus!
