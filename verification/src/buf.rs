//! Byte containers of the `bytes` crate and the `std::io::Cursor` reader, as the
//! rest of the library sees them: each container is modelled by the sequence of
//! bytes it holds.

use bytes::{Buf, BufMut, Bytes, BytesMut};
use std::io::Cursor;
use vstd::prelude::*;

verus! {

#[verifier::external_type_specification]
#[verifier::external_body]
pub struct ExBytes(Bytes);

#[verifier::external_type_specification]
#[verifier::external_body]
pub struct ExBytesMut(BytesMut);

#[verifier::external_type_specification]
#[verifier::external_body]
#[verifier::reject_recursive_types(T)]
pub struct ExCursor<T>(Cursor<T>);

/// The bytes held by an immutable `Bytes` buffer.
pub uninterp spec fn bytes_view(b: Bytes) -> Seq<u8>;

/// The bytes written so far into a `BytesMut` buffer.
pub uninterp spec fn bytes_mut_view(b: BytesMut) -> Seq<u8>;

/// The bytes of a cursor over a byte slice that have not been read yet.
pub uninterp spec fn cursor_unread(c: Cursor<&[u8]>) -> Seq<u8>;

/// `Bytes::from(Vec<u8>)`: the buffer holds exactly the bytes of the vector.
#[verifier::external_body]
pub(crate) fn bytes_from_vec(v: Vec<u8>) -> (b: Bytes)
    ensures
        bytes_view(b) == v@,
{
    Bytes::from(v)
}

/// `Bytes::len`: the number of bytes held.
#[verifier::external_body]
pub(crate) fn bytes_len(b: &Bytes) -> (n: usize)
    ensures
        n == bytes_view(*b).len(),
{
    b.len()
}

/// `<Bytes as AsRef<[u8]>>::as_ref`: a slice over the bytes held.
#[verifier::external_body]
pub(crate) fn bytes_as_slice(b: &Bytes) -> (s: &[u8])
    ensures
        s@ == bytes_view(*b),
{
    b.as_ref()
}

/// `Bytes::clone`: a second handle on the same bytes.
#[verifier::external_body]
pub(crate) fn bytes_clone(b: &Bytes) -> (c: Bytes)
    ensures
        bytes_view(c) == bytes_view(*b),
{
    b.clone()
}

/// `BytesMut::new`: an empty buffer.
#[verifier::external_body]
pub(crate) fn bytes_mut_new() -> (b: BytesMut)
    ensures
        bytes_mut_view(b) == Seq::<u8>::empty(),
{
    BytesMut::new()
}

/// `BufMut::put_u8` on `BytesMut`: appends one byte. It panics only when the
/// buffer would grow past `isize::MAX` bytes, which `requires` rules out.
#[verifier::external_body]
pub(crate) fn put_u8(b: &mut BytesMut, v: u8)
    requires
        bytes_mut_view(*old(b)).len() + 1 <= isize::MAX,
    ensures
        bytes_mut_view(*final(b)) == bytes_mut_view(*old(b)).push(v),
{
    b.put_u8(v)
}

/// `BufMut::put_u16` on `BytesMut`: appends the value in big-endian order.
#[verifier::external_body]
pub(crate) fn put_u16(b: &mut BytesMut, v: u16)
    requires
        bytes_mut_view(*old(b)).len() + 2 <= isize::MAX,
    ensures
        bytes_mut_view(*final(b)) == bytes_mut_view(*old(b)).push((v / 256) as u8).push(
            (v % 256) as u8,
        ),
{
    b.put_u16(v)
}

/// `BufMut::put_slice` on `BytesMut`: appends the bytes of the slice.
#[verifier::external_body]
pub(crate) fn put_slice(b: &mut BytesMut, s: &[u8])
    requires
        bytes_mut_view(*old(b)).len() + s@.len() <= isize::MAX,
    ensures
        bytes_mut_view(*final(b)) == bytes_mut_view(*old(b)) + s@,
{
    b.put_slice(s)
}

/// `Cursor::new` over a slice: nothing has been read yet.
#[verifier::external_body]
pub(crate) fn cursor_new(s: &[u8]) -> (c: Cursor<&[u8]>)
    ensures
        cursor_unread(c) == s@,
{
    Cursor::new(s)
}

/// `Buf::remaining` on a slice cursor: the number of unread bytes.
#[verifier::external_body]
pub(crate) fn cursor_remaining(c: &Cursor<&[u8]>) -> (n: usize)
    ensures
        n == cursor_unread(*c).len(),
{
    c.remaining()
}

/// `Buf::get_u8` on a slice cursor: reads the next byte. It panics when no byte
/// is left, which `requires` rules out.
#[verifier::external_body]
pub(crate) fn cursor_get_u8(c: &mut Cursor<&[u8]>) -> (v: u8)
    requires
        cursor_unread(*old(c)).len() >= 1,
    ensures
        v == cursor_unread(*old(c))[0],
        cursor_unread(*final(c)) == cursor_unread(*old(c)).skip(1),
{
    c.get_u8()
}

/// `Buf::get_u16` on a slice cursor: reads the next two bytes as a big-endian
/// integer. It panics when fewer than two bytes are left, which `requires` rules out.
#[verifier::external_body]
pub(crate) fn cursor_get_u16(c: &mut Cursor<&[u8]>) -> (v: u16)
    requires
        cursor_unread(*old(c)).len() >= 2,
    ensures
        v == cursor_unread(*old(c))[0] as int * 256 + cursor_unread(*old(c))[1] as int,
        cursor_unread(*final(c)) == cursor_unread(*old(c)).skip(2),
{
    c.get_u16()
}

/// `Buf::copy_to_slice` on a slice cursor, into a fresh vector of `n` bytes:
/// reads the next `n` bytes. It panics when fewer are left, which `requires`
/// rules out.
#[verifier::external_body]
pub(crate) fn cursor_take(c: &mut Cursor<&[u8]>, n: usize) -> (v: Vec<u8>)
    requires
        cursor_unread(*old(c)).len() >= n,
    ensures
        v@ == cursor_unread(*old(c)).take(n as int),
        cursor_unread(*final(c)) == cursor_unread(*old(c)).skip(n as int),
{
    let mut v = vec![0u8; n];
    c.copy_to_slice(&mut v);
    v
}

} // verus!
