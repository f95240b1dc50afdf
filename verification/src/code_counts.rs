//! Per-code counters kept in an ordered map from code to count.
use vstd::prelude::*;
use std::collections::BTreeMap;

verus! {

/// Add one rejection of `code` to the per-code counts.
pub fn count_rejection(counts: &mut BTreeMap<i32, u32>, code: i32)
    requires
        old(counts)@.contains_key(code) ==> old(counts)@[code] < u32::MAX,
    ensures
        final(counts)@ == old(counts)@.insert(code, final(counts)@[code]),
        final(counts)@[code] == (if old(counts)@.contains_key(code) { old(counts)@[code] + 1 } else { 1 }),
{
    let n: u32 = match counts.get(&code) {
        Some(c) => *c + 1,
        None => 1,
    };
    counts.insert(code, n);
}

/// Take the count of `code` out of `counts`, if it is there.
pub fn take_count(counts: &mut BTreeMap<i32, u32>, code: i32) -> (n: Option<u32>)
    ensures
        final(counts)@ == old(counts)@.remove(code),
        n == (if old(counts)@.contains_key(code) { Some(old(counts)@[code]) } else { None }),
{
    counts.remove(&code)
}

} // verus!
