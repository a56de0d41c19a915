//! Small sequence lemmas shared by the table operations: how `take`,
//! `filter` and `map_values` interact with appending one element.

use vstd::prelude::*;

verus! {

/// Taking one more element appends exactly that element.
pub proof fn lemma_take_push<T>(s: Seq<T>, i: int)
    requires
        0 <= i < s.len(),
    ensures
        s.take(i + 1) == s.take(i).push(s[i]),
{
    assert(s.take(i + 1) =~= s.take(i).push(s[i]));
}

/// Every element of `kept` already occurs among the first `n` elements of
/// `orig`; the shape of a selection loop's partial result.
pub open spec fn from_prefix<T>(kept: Seq<T>, orig: Seq<T>, n: int) -> bool {
    forall|j: int|
        #![trigger kept[j]]
        0 <= j < kept.len() ==> exists|l: int| 0 <= l < n && #[trigger] orig[l] == kept[j]
}

} // verus!
