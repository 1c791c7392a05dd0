//! The argument buffer handed to the foreign call entry point.

use smallvec::SmallVec;
use vstd::prelude::*;

verus! {

/// Number of addresses an argument buffer holds before it moves to the heap.
///
/// Calls often need a few addresses in front of the arguments they were given. A buffer of at
/// most this length, the added addresses included, is built without a heap allocation.
pub const MAX_SIZE: usize = 8;

/// The longest argument buffer that is ever built.
pub const MAX_LENGTH: usize = 0x0fff_ffff;

/// A sequence of addresses, kept inline while it is no longer than [`MAX_SIZE`].
///
/// Holds a `SmallVec<[usize; MAX_SIZE]>`.
#[verifier::external_body]
#[derive(Debug)]
pub struct ArgBuffer {
    inner: SmallVec<[usize; MAX_SIZE]>,
}

/// The addresses an argument buffer holds, first to last.
pub uninterp spec fn buffer_addresses(buffer: ArgBuffer) -> Seq<usize>;

impl View for ArgBuffer {
    type V = Seq<usize>;

    open spec fn view(&self) -> Seq<usize> {
        buffer_addresses(*self)
    }
}

/// `SmallVec::with_capacity`: the buffer it returns is empty.
///
/// The call panics when the size in bytes of `n` addresses overflows; `n` is kept below that.
#[verifier::external_body]
pub(crate) fn buffer_with_capacity(n: usize) -> (buffer: ArgBuffer)
    requires
        n <= MAX_LENGTH,
    ensures
        buffer_addresses(buffer) == Seq::<usize>::empty(),
{
    ArgBuffer { inner: SmallVec::with_capacity(n) }
}

/// `SmallVec::push`: the address is appended to what the buffer holds.
///
/// The call panics when the size in bytes of the grown buffer overflows; the length is kept
/// below that.
#[verifier::external_body]
pub(crate) fn buffer_push(buffer: &mut ArgBuffer, address: usize)
    requires
        buffer_addresses(*old(buffer)).len() < MAX_LENGTH,
    ensures
        buffer_addresses(*final(buffer)) == buffer_addresses(*old(buffer)).push(address),
{
    buffer.inner.push(address)
}

/// `SmallVec::as_slice`: the slice holds what the buffer holds.
#[verifier::external_body]
pub(crate) fn buffer_as_slice(buffer: &ArgBuffer) -> (slice: &[usize])
    ensures
        slice@ == buffer_addresses(*buffer),
{
    buffer.inner.as_slice()
}

} // verus!
