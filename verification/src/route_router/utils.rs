use std::collections::VecDeque;
use vstd::prelude::*;

verus! {

/// Inserts `val` at position `idx`, shifting the later items back.
pub fn insert_at<T>(l: &mut VecDeque<T>, idx: usize, val: T)
    requires
        idx <= old(l)@.len(),
    ensures
        final(l)@ == old(l)@.insert(idx as int, val),
{
    let mut tail = l.split_off(idx);
    l.push_back(val);
    l.append(&mut tail);
    assert(l@ =~= old(l)@.insert(idx as int, val));
}

} // verus!
