use vstd::prelude::*;
use arrayvec::ArrayVec;

verus! {

/// Backing size of the sounding-note buffer. A player's configured
/// capacity may be anything up to this many simultaneous notes.
pub const NOTE_SLOTS: usize = 64;

#[verifier::external_type_specification]
#[verifier::external_body]
#[verifier::reject_recursive_types(T)]
pub struct ExArrayVec<T, const CAP: usize>(ArrayVec<T, CAP>);

/// The (frequency, duration) pairs the buffer holds, oldest first.
pub uninterp spec fn buffer_seq(buf: ArrayVec<(u16, u16), 64>) -> Seq<(u16, u16)>;

/// Relies on arrayvec::ArrayVec::new: a fresh vector holds nothing.
#[verifier::external_body]
pub(crate) fn buffer_new() -> (r: ArrayVec<(u16, u16), 64>)
    ensures
        buffer_seq(r) == Seq::<(u16, u16)>::empty(),
{
    ArrayVec::new()
}

/// Relies on arrayvec::ArrayVec::len: the number of stored elements.
#[verifier::external_body]
pub(crate) fn buffer_len(buf: &ArrayVec<(u16, u16), 64>) -> (r: usize)
    ensures
        r == buffer_seq(*buf).len(),
{
    buf.len()
}

/// Relies on arrayvec::ArrayVec's slice view (Deref): element `i`.
#[verifier::external_body]
pub(crate) fn buffer_get(buf: &ArrayVec<(u16, u16), 64>, i: usize) -> (r: (u16, u16))
    requires
        i < buffer_seq(*buf).len(),
    ensures
        r == buffer_seq(*buf)[i as int],
{
    buf[i]
}

/// Relies on arrayvec::ArrayVec's mutable slice view (DerefMut): overwrite
/// element `i`, leaving the rest in place.
#[verifier::external_body]
pub(crate) fn buffer_set(buf: &mut ArrayVec<(u16, u16), 64>, i: usize, v: (u16, u16))
    requires
        i < buffer_seq(*old(buf)).len(),
    ensures
        buffer_seq(*final(buf)) == buffer_seq(*old(buf)).update(i as int, v),
{
    buf[i] = v;
}

/// Relies on arrayvec::ArrayVec::remove: takes element `i` out and shifts
/// the following elements down one place, preserving their order.
#[verifier::external_body]
pub(crate) fn buffer_remove(buf: &mut ArrayVec<(u16, u16), 64>, i: usize) -> (r: (u16, u16))
    requires
        i < buffer_seq(*old(buf)).len(),
    ensures
        r == buffer_seq(*old(buf))[i as int],
        buffer_seq(*final(buf)) == buffer_seq(*old(buf)).remove(i as int),
{
    buf.remove(i)
}

/// Relies on arrayvec::ArrayVec::try_push: appends at the end when there is
/// room, and otherwise hands the element back, leaving the vector unchanged.
#[verifier::external_body]
pub(crate) fn buffer_try_push(buf: &mut ArrayVec<(u16, u16), 64>, v: (u16, u16)) -> (r: bool)
    ensures
        buffer_seq(*old(buf)).len() < 64 ==> r && buffer_seq(*final(buf)) == buffer_seq(*old(buf)).push(v),
        buffer_seq(*old(buf)).len() >= 64 ==> !r && *final(buf) == *old(buf),
{
    buf.try_push(v).is_ok()
}

/// Relies on arrayvec::ArrayVec::clear: removes every element.
#[verifier::external_body]
pub(crate) fn buffer_clear(buf: &mut ArrayVec<(u16, u16), 64>)
    ensures
        buffer_seq(*final(buf)) == Seq::<(u16, u16)>::empty(),
{
    buf.clear()
}

} // verus!
