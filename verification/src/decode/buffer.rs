//! The byte containers of the `bytes` crate, as the decoders use them.
//!
//! Chunks travel through the decoders as [`Bytes`], so that payload is handed
//! on without copying; what has to be gathered across chunks is kept in a
//! [`BytesMut`]. Neither is verified here: each function below calls one
//! method of the crate, and its contract is taken on trust.
use bytes::Bytes;
use bytes::BytesMut;
use vstd::prelude::*;

verus! {

/// `bytes::Bytes`, opaque but for [`bytes_content`].
#[verifier::external_type_specification]
#[verifier::external_body]
pub struct ExBytes(Bytes);

/// `bytes::BytesMut`, opaque but for [`buffer_content`].
#[verifier::external_type_specification]
#[verifier::external_body]
pub struct ExBytesMut(BytesMut);

/// The bytes that a `Bytes` handle refers to, in order.
pub uninterp spec fn bytes_content(b: Bytes) -> Seq<u8>;

/// The bytes that a `BytesMut` holds, in order.
pub uninterp spec fn buffer_content(b: BytesMut) -> Seq<u8>;

/// The longest content that a buffer is grown to: `isize::MAX` bytes, beyond
/// which no allocation is granted.
pub open spec fn max_len() -> nat {
    isize::MAX as nat
}

/// `Bytes::len`: the number of bytes referred to. Like every slice, it is
/// at most `isize::MAX` long.
#[verifier::external_body]
pub(crate) fn bytes_len(b: &Bytes) -> (n: usize)
    ensures
        n == bytes_content(*b).len(),
        n <= max_len(),
{
    b.len()
}

/// `Bytes::split_to`: returns the first `at` bytes and leaves the rest in `b`.
/// It panics where `at` is past the end, which `requires` leaves out.
#[verifier::external_body]
pub(crate) fn bytes_split_to(b: &mut Bytes, at: usize) -> (head: Bytes)
    requires
        at <= bytes_content(*old(b)).len(),
    ensures
        bytes_content(head) == bytes_content(*old(b)).take(at as int),
        bytes_content(*final(b)) == bytes_content(*old(b)).skip(at as int),
{
    b.split_to(at)
}

/// `Bytes::as_ref`: the content as a slice.
#[verifier::external_body]
pub(crate) fn bytes_as_slice(b: &Bytes) -> (s: &[u8])
    ensures
        s@ == bytes_content(*b),
{
    b.as_ref()
}

/// `BytesMut::with_capacity`: an empty buffer. A capacity above `isize::MAX`
/// would be refused with a panic, so `requires` leaves it out. That the
/// machine may lack the memory is not modelled.
#[verifier::external_body]
pub(crate) fn buffer_with_capacity(capacity: usize) -> (buf: BytesMut)
    requires
        capacity <= max_len(),
    ensures
        buffer_content(buf) == Seq::<u8>::empty(),
{
    BytesMut::with_capacity(capacity)
}

/// `BytesMut::len`: the number of bytes held, at most `isize::MAX`.
#[verifier::external_body]
pub(crate) fn buffer_len(buf: &BytesMut) -> (n: usize)
    ensures
        n == buffer_content(*buf).len(),
        n <= max_len(),
{
    buf.len()
}

/// `BytesMut::extend_from_slice`: appends `extend`, growing the buffer where
/// it has to. The new length must stay within `isize::MAX`, beyond which the
/// growing would panic. That the machine may lack the memory is not modelled.
#[verifier::external_body]
pub(crate) fn buffer_extend_from_slice(buf: &mut BytesMut, extend: &[u8])
    requires
        buffer_content(*old(buf)).len() + extend@.len() <= max_len(),
    ensures
        buffer_content(*final(buf)) == buffer_content(*old(buf)) + extend@,
{
    buf.extend_from_slice(extend)
}

/// `BytesMut::advance`: drops the first `cnt` bytes. It panics where `cnt` is
/// past the end, which `requires` leaves out.
#[verifier::external_body]
pub(crate) fn buffer_advance(buf: &mut BytesMut, cnt: usize)
    requires
        cnt <= buffer_content(*old(buf)).len(),
    ensures
        buffer_content(*final(buf)) == buffer_content(*old(buf)).skip(cnt as int),
{
    buf.advance(cnt)
}

/// `BytesMut::clear`: drops all bytes.
#[verifier::external_body]
pub(crate) fn buffer_clear(buf: &mut BytesMut)
    ensures
        buffer_content(*final(buf)) == Seq::<u8>::empty(),
{
    buf.clear()
}

/// `BytesMut::as_ref`: the content as a slice.
#[verifier::external_body]
pub(crate) fn buffer_as_slice(buf: &BytesMut) -> (s: &[u8])
    ensures
        s@ == buffer_content(*buf),
{
    buf.as_ref()
}

/// Appends `extend` unless the buffer would outgrow [`max_len`]; says whether
/// it did.
pub(crate) fn buffer_try_extend(buf: &mut BytesMut, extend: &[u8]) -> (done: bool)
    ensures
        done == (buffer_content(*old(buf)).len() + extend@.len() <= max_len()),
        done ==> buffer_content(*final(buf)) == buffer_content(*old(buf)) + extend@,
        !done ==> *final(buf) == *old(buf),
{
    let room = (isize::MAX as usize) - buffer_len(buf);
    if extend.len() <= room {
        buffer_extend_from_slice(buf, extend);
        true
    } else {
        false
    }
}

} // verus!
