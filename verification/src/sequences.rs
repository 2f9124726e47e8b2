//! Searching sequences from the front.

use vstd::prelude::*;

verus! {

/// The first position whose element satisfies `wanted`, or the length of the
/// sequence when there is none.
pub open spec fn first_where<T>(s: Seq<T>, wanted: spec_fn(T) -> bool) -> int
    decreases s.len(),
{
    if s.len() == 0 || wanted(s[0]) {
        0
    } else {
        1 + first_where(s.drop_first(), wanted)
    }
}

/// What `first_where` gives: nothing before it satisfies the predicate, and
/// what stands there, if anything, does.
pub proof fn lemma_first_where<T>(s: Seq<T>, wanted: spec_fn(T) -> bool)
    ensures
        0 <= first_where(s, wanted) <= s.len(),
        forall|i: int| 0 <= i < first_where(s, wanted) ==> !wanted(#[trigger] s[i]),
        first_where(s, wanted) < s.len() ==> wanted(s[first_where(s, wanted)]),
    decreases s.len(),
{
    if s.len() > 0 && !wanted(s[0]) {
        let rest = s.drop_first();
        lemma_first_where(rest, wanted);
        assert forall|i: int| 0 <= i < first_where(s, wanted) implies !wanted(#[trigger] s[i]) by {
            if i > 0 {
                assert(s[i] == rest[i - 1]);
            }
        }
    }
}

/// A position with the properties of `first_where` is the one it gives.
pub proof fn lemma_first_where_is<T>(s: Seq<T>, wanted: spec_fn(T) -> bool, at: int)
    requires
        0 <= at <= s.len(),
        forall|i: int| 0 <= i < at ==> !wanted(#[trigger] s[i]),
        at < s.len() ==> wanted(s[at]),
    ensures
        first_where(s, wanted) == at,
{
    lemma_first_where(s, wanted);
    let found = first_where(s, wanted);
    if found < at {
        assert(!wanted(s[found]));
    } else if at < found {
        assert(!wanted(s[at]));
    }
}

} // verus!
