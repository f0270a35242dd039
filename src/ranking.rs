use itertools::Itertools;
use vstd::prelude::*;

verus! {

/// `r` lists every index of `keys` exactly once, keys not increasing along
/// it, equal keys in input order: a stable descending sort.
pub open spec fn is_stable_rank_desc(keys: Seq<i128>, r: Seq<usize>) -> bool {
    &&& r.len() == keys.len()
    &&& forall|i: int| 0 <= i < r.len() ==> (#[trigger] r[i]) < keys.len()
    &&& forall|i: int, j: int| 0 <= i < j < r.len() ==> r[i] != r[j]
    &&& forall|i: int, j: int|
        0 <= i < j < r.len() ==> keys[#[trigger] r[i] as int] >= keys[#[trigger] r[j] as int]
    &&& forall|i: int, j: int|
        0 <= i < j < r.len() && keys[r[i] as int] == keys[r[j] as int] ==> #[trigger] r[i] < #[trigger] r[j]
}

/// The order in which a stable descending sort by `keys` lists the indices.
pub uninterp spec fn stable_rank_desc(keys: Seq<i128>) -> Seq<usize>;

/// Relies on `itertools::Itertools::sorted_by_key`, documented as a stable
/// sort, applied to the indices `0..keys.len()` keyed by the reversed key.
#[verifier::external_body]
pub(crate) fn rank_desc(keys: &Vec<i128>) -> (r: Vec<usize>)
    ensures
        r@ == stable_rank_desc(keys@),
        is_stable_rank_desc(keys@, r@),
{
    (0..keys.len()).sorted_by_key(|i| std::cmp::Reverse(keys[*i])).collect()
}

} // verus!
