use vstd::prelude::*;

verus! {

/// `val` is the greatest element of `s`, and `idx` is the first place where it stands.
pub open spec fn is_first_max(s: Seq<u32>, val: u32, idx: int) -> bool {
    &&& 0 <= idx < s.len()
    &&& s[idx] == val
    &&& forall|j: int| 0 <= j < s.len() ==> s[j] <= val
    &&& forall|j: int| 0 <= j < idx ==> s[j] < val
}

/// `val` is the least element of `s`, and `idx` is the first place where it stands.
pub open spec fn is_first_min(s: Seq<u32>, val: u32, idx: int) -> bool {
    &&& 0 <= idx < s.len()
    &&& s[idx] == val
    &&& forall|j: int| 0 <= j < s.len() ==> s[j] >= val
    &&& forall|j: int| 0 <= j < idx ==> s[j] > val
}

/// The least element of `v` with the index of its first occurrence; `None` for an empty vector.
///
/// Only a strictly smaller element replaces the candidate, so among equal
/// minima the leftmost one is reported.
pub fn min(v: Vec<u32>) -> (found: Option<(u32, usize)>)
    ensures
        v@.len() == 0 <==> found is None,
        found matches Some((val, idx)) ==> is_first_min(v@, val, idx as int),
{
    if v.len() == 0 {
        return None;
    }
    let mut result: u32 = v[0];
    let mut index: usize = 0;
    let mut i: usize = 1;
    while i < v.len()
        invariant
            1 <= i <= v@.len(),
            is_first_min(v@.take(i as int), result, index as int),
        decreases v@.len() - i,
    {
        let x: u32 = v[i];
        if x < result {
            result = x;
            index = i;
        }
        i += 1;
    }
    assert(v@.take(i as int) =~= v@);
    Some((result, index))
}

/// The greatest element of `v` with the index of its first occurrence; `None` for an empty vector.
///
/// Only a strictly greater element replaces the candidate, so among equal
/// maxima the leftmost one is reported.
pub fn max(v: Vec<u32>) -> (found: Option<(u32, usize)>)
    ensures
        v@.len() == 0 <==> found is None,
        found matches Some((val, idx)) ==> is_first_max(v@, val, idx as int),
{
    if v.len() == 0 {
        return None;
    }
    let mut result: u32 = v[0];
    let mut index: usize = 0;
    let mut i: usize = 1;
    while i < v.len()
        invariant
            1 <= i <= v@.len(),
            is_first_max(v@.take(i as int), result, index as int),
        decreases v@.len() - i,
    {
        let x: u32 = v[i];
        if x > result {
            result = x;
            index = i;
        }
        i += 1;
    }
    assert(v@.take(i as int) =~= v@);
    Some((result, index))
}

} // verus!
