//! Gzip compression, piece by piece.
use flate2::write::GzEncoder;
use std::io::Write;
use vstd::prelude::*;

verus! {

/// A `flate2::write::GzEncoder` over a byte vector, from which what the encoder gives out is taken
/// call by call. Verus cannot take the declaration of `GzEncoder`, whose parameter is bounded by
/// `std::io::Write`; so the encoder is hidden in here.
#[verifier::external_body]
pub struct Encoder {
    inner: GzEncoder<Vec<u8>>,
}

/// The pieces of data that the encoder holds: those written to it, in order.
pub uninterp spec fn pieces_of(encoder: Encoder) -> Seq<Seq<u8>>;

/// Whether the encoder has been flushed.
pub uninterp spec fn is_flushed(encoder: Encoder) -> bool;

/// All that a `GzEncoder` of the default level gives out up to the moment when these pieces have
/// been written to it, one call each.
pub uninterp spec fn gzip_given(pieces: Seq<Seq<u8>>) -> Seq<u8>;

/// All that it gives out when these pieces have been written to it and it has been flushed.
pub uninterp spec fn gzip_flushed(pieces: Seq<Seq<u8>>) -> Seq<u8>;

/// All that it gives out when it has then been finished: a whole gzip stream.
pub uninterp spec fn gzip_bytes(pieces: Seq<Seq<u8>>) -> Seq<u8>;

/// `GzEncoder::new` over an empty vector, with `Compression::default`.
///
/// Trusted: nothing has been written to the encoder, and it has given out nothing.
#[verifier::external_body]
pub(crate) fn new_encoder() -> (res: Encoder)
    ensures
        pieces_of(res) == Seq::<Seq<u8>>::empty(),
        !is_flushed(res),
        gzip_given(pieces_of(res)) == Seq::<u8>::empty(),
{
    Encoder { inner: GzEncoder::new(Vec::new(), flate2::Compression::default()) }
}

/// `Write::write_all` on a `GzEncoder`, which does not fail on a vector; then what the vector holds
/// is taken out through `GzEncoder::get_mut`.
///
/// Trusted: the piece joins those written before, and all that the encoder has given out is a
/// function of the pieces.
#[verifier::external_body]
pub(crate) fn write_piece(encoder: &mut Encoder, piece: &[u8]) -> (out: Vec<u8>)
    requires
        !is_flushed(*old(encoder)),
    ensures
        pieces_of(*final(encoder)) == pieces_of(*old(encoder)).push(piece@),
        !is_flushed(*final(encoder)),
        gzip_given(pieces_of(*old(encoder))) + out@ == gzip_given(pieces_of(*final(encoder))),
{
    encoder.inner.write_all(piece).unwrap();
    std::mem::take(encoder.inner.get_mut())
}

/// `Write::flush` on a `GzEncoder`, which does not fail on a vector; then what the vector holds is
/// taken out through `GzEncoder::get_mut`.
///
/// Trusted: no piece is added, and all that the encoder has given out, once flushed, is a function
/// of the pieces.
#[verifier::external_body]
pub(crate) fn flush_pieces(encoder: &mut Encoder) -> (out: Vec<u8>)
    requires
        !is_flushed(*old(encoder)),
    ensures
        pieces_of(*final(encoder)) == pieces_of(*old(encoder)),
        is_flushed(*final(encoder)),
        gzip_given(pieces_of(*old(encoder))) + out@ == gzip_flushed(pieces_of(*old(encoder))),
{
    encoder.inner.flush().unwrap();
    std::mem::take(encoder.inner.get_mut())
}

/// `GzEncoder::finish`, which does not fail on a vector.
///
/// Trusted: all that the encoder has given out, once flushed and finished, is a function of the
/// pieces, and no shorter than a header of ten bytes and a trailer of eight.
#[verifier::external_body]
pub(crate) fn finish_stream(encoder: Encoder) -> (out: Vec<u8>)
    requires
        is_flushed(encoder),
    ensures
        gzip_flushed(pieces_of(encoder)) + out@ == gzip_bytes(pieces_of(encoder)),
        (gzip_flushed(pieces_of(encoder)) + out@).len() >= 18,
{
    encoder.inner.finish().unwrap()
}

} // verus!
