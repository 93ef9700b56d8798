//! The sample ring behind the streaming source.
//!
//! The samples wait in a `std::collections::VecDeque`, and are pushed, read
//! and dropped a slice at a time through `strider::SliceRing`, which
//! `strider` implements for the deque in safe code. What this crate relies
//! on is stated here, one contract per function of `strider` that is called,
//! over the deque's view: its words, oldest first.

use std::collections::VecDeque;
use strider::SliceRing;
use vstd::prelude::*;

verus! {

/// `SliceRing::push_many_back` for `VecDeque`: appends `values` at the back,
/// one `push_back` for each, in order.
#[verifier::external_body]
pub(crate) fn ring_push_back(ring: &mut VecDeque<u64>, values: &[u64])
    ensures
        final(ring)@ == old(ring)@ + values@,
{
    ring.push_many_back(values)
}

/// `SliceRing::drop_many_front` for `VecDeque`: removes the `count` oldest
/// words, or all of them where the ring holds fewer, and returns how many it
/// removed.
#[verifier::external_body]
pub(crate) fn ring_drop_front(ring: &mut VecDeque<u64>, count: usize) -> (dropped: usize)
    ensures
        dropped == if count <= old(ring)@.len() {
            count as nat
        } else {
            old(ring)@.len()
        },
        final(ring)@ == old(ring)@.skip(dropped as int),
{
    ring.drop_many_front(count)
}

/// `SliceRing::read_many_front` for `VecDeque`: copies the oldest words of
/// the ring over the front of `output`, as many as both hold, and returns
/// how many it copied. The ring and the rest of `output` keep their values.
#[verifier::external_body]
pub(crate) fn ring_read_front(ring: &VecDeque<u64>, output: &mut Vec<u64>) -> (copied: usize)
    ensures
        copied == if old(output)@.len() <= ring@.len() {
            old(output)@.len()
        } else {
            ring@.len()
        },
        final(output)@ == ring@.take(copied as int) + old(output)@.skip(copied as int),
{
    ring.read_many_front(&mut output[..])
}

} // verus!
