//! Fallible growth of the library's buffers.

use vstd::prelude::*;

verus! {

/// `Vec::capacity`: the number of elements the vector can hold without
/// reallocating. The number depends on the allocator, so nothing is claimed
/// of it.
#[verifier::external_body]
fn vec_capacity<T>(v: &Vec<T>) -> (cap: usize) {
    v.capacity()
}

/// Returns whether a vector of `len` elements, which can hold `cap` of them
/// without growing, has no room for one more.
pub fn is_full(cap: usize, len: usize) -> (full: bool)
    ensures
        full == (cap <= len),
{
    cap <= len
}

/// Makes sure that one more element fits into `v`, growing the storage by
/// `step` elements when it is full, see `is_full`. Returns whether the room
/// is there, which is for the allocator to decide; the contents stay as they
/// are either way.
pub fn reserve_step<T>(v: &mut Vec<T>, step: usize) -> (room: bool)
    ensures
        final(v)@ == old(v)@,
{
    let cap = vec_capacity(v);
    if is_full(cap, v.len()) {
        match v.try_reserve(step) {
            Ok(_) => true,
            Err(_) => false,
        }
    } else {
        true
    }
}

} // verus!
