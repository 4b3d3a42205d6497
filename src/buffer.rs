use bytes::{Bytes, BytesMut};
use vstd::prelude::*;

verus! {

/// The growable byte buffer of the bytes crate, which tokio's framing fills.
#[verifier::external_type_specification]
#[verifier::external_body]
pub struct ExBytesMut(BytesMut);

/// The frozen byte buffer of the bytes crate.
#[verifier::external_type_specification]
#[verifier::external_body]
pub struct ExBytes(Bytes);

/// What a growable buffer of the bytes crate holds.
pub uninterp spec fn buffer_contents(b: BytesMut) -> Seq<u8>;

/// What a frozen buffer of the bytes crate holds.
pub uninterp spec fn frozen_contents(b: Bytes) -> Seq<u8>;

/// Relies on BytesMut::len: the number of bytes held.
pub assume_specification[ BytesMut::len ](b: &BytesMut) -> (r: usize)
    ensures
        r == buffer_contents(*b).len(),
;

/// Relies on BytesMut::split_to: the first `at` bytes move into the result, the rest
/// stay (the crate panics when `at` exceeds the length).
pub assume_specification[ BytesMut::split_to ](b: &mut BytesMut, at: usize) -> (r: BytesMut)
    requires
        at <= buffer_contents(*old(b)).len(),
    ensures
        buffer_contents(r) == buffer_contents(*old(b)).subrange(0, at as int),
        buffer_contents(*final(b)) == buffer_contents(*old(b)).subrange(
            at as int,
            buffer_contents(*old(b)).len() as int,
        ),
;

/// Relies on BytesMut::take: every byte moves into the result and the buffer is left
/// empty.
pub assume_specification[ BytesMut::take ](b: &mut BytesMut) -> (r: BytesMut)
    ensures
        buffer_contents(r) == buffer_contents(*old(b)),
        buffer_contents(*final(b)) == Seq::<u8>::empty(),
;

/// Relies on BytesMut::freeze: the frozen buffer holds the same bytes.
pub assume_specification[ BytesMut::freeze ](b: BytesMut) -> (r: Bytes)
    ensures
        frozen_contents(r) == buffer_contents(b),
;

/// Relies on the `AsRef<[u8]>` impl of BytesMut: a view of the bytes held.
pub assume_specification<'a>[ <BytesMut as core::convert::AsRef<[u8]>>::as_ref ](
    b: &'a BytesMut,
) -> (r: &'a [u8])
    ensures
        r@ == buffer_contents(*b),
;

/// Relies on Bytes::len: the number of bytes held.
pub assume_specification[ Bytes::len ](b: &Bytes) -> (r: usize)
    ensures
        r == frozen_contents(*b).len(),
;

} // verus!
