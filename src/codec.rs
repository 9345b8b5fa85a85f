//! The outside codecs that frame decoding relies on: the LZ4 block decompressor and
//! the texture2ddecoder tile decoders. Each result that takes pages to state is named.

use vstd::prelude::*;

verus! {

/// The 16 pixels, row-major, of the BC1 tile that the 8 bytes `block` encode.
pub uninterp spec fn bc1_tile(block: Seq<u8>) -> Seq<u32>;

/// Relies on `texture2ddecoder::decode_bc1_block`: it reads the first 8 bytes of `data`
/// and writes the 16 pixels of that tile to the first 16 entries of `outbuf`.
#[verifier::external_body]
pub(crate) fn bc1_block(data: &[u8], outbuf: &mut [u32])
    requires
        data@.len() >= 8,
        old(outbuf)@.len() >= 16,
    ensures
        final(outbuf)@.len() == old(outbuf)@.len(),
        final(outbuf)@.subrange(0, 16) == bc1_tile(data@.subrange(0, 8)),
        final(outbuf)@.subrange(16, final(outbuf)@.len() as int) == old(outbuf)@.subrange(
            16,
            old(outbuf)@.len() as int,
        ),
{
    texture2ddecoder::decode_bc1_block(data, outbuf)
}

/// The bytes that LZ4 block decompression makes of `input` into a buffer of `size`
/// bytes, or `None` where it fails.
pub uninterp spec fn lz4_block(input: Seq<u8>, size: nat) -> Option<Seq<u8>>;

/// The bytes held by a decompression result.
pub open spec fn bytes_of(r: Option<Vec<u8>>) -> Option<Seq<u8>> {
    match r {
        Some(v) => Some(v@),
        None => None,
    }
}

/// Relies on `lz4_flex::block::decompress` (with its safe decoder): it allocates a buffer
/// of `size` bytes, decompresses the whole of `input` into it, and fails on corrupt input
/// or on an output that does not fit.
#[verifier::external_body]
pub(crate) fn lz4_decompress(input: &[u8], size: usize) -> (r: Option<Vec<u8>>)
    requires
        size <= isize::MAX,
    ensures
        bytes_of(r) == lz4_block(input@, size as nat),
{
    match lz4_flex::block::decompress(input, size) {
        Ok(v) => Some(v),
        Err(_) => None,
    }
}

/// The number of 4-pixel-wide tiles that cover `n` pixels.
pub open spec fn tiles_for(n: nat) -> nat {
    ((n + 3) / 4) as nat
}

/// The 16 pixels, row-major, of the BC3 tile that the 16 bytes `block` encode.
pub uninterp spec fn bc3_tile(block: Seq<u8>) -> Seq<u32>;

/// The 16 pixels, row-major, of the BC7 tile that the 16 bytes `block` encode.
pub uninterp spec fn bc7_tile(block: Seq<u8>) -> Seq<u32>;

/// Pixel `i` of a `w`-wide image whose 4×4 tiles are stored in `data`, `raw` bytes each,
/// row of tiles after row of tiles, and decoded by `tile`.
pub open spec fn tiled_pixel(
    data: Seq<u8>,
    w: nat,
    i: int,
    raw: int,
    tile: spec_fn(Seq<u8>) -> Seq<u32>,
) -> u32 {
    let x = i % (w as int);
    let y = i / (w as int);
    let b = (y / 4) * tiles_for(w) + x / 4;
    tile(data.subrange(raw * b, raw * b + raw))[(y % 4) * 4 + x % 4]
}

/// Relies on `texture2ddecoder::decode_bc1`: it fails, leaving `image` as it was, when
/// `data` is shorter than 8 bytes per 4×4 tile or `image` holds fewer than
/// `width * height` pixels; otherwise it decodes each tile with `decode_bc1_block`, in
/// row-major order, and copies it to its place, clipped at the image's edges.
#[verifier::external_body]
pub(crate) fn decode_bc1(data: &[u8], width: usize, height: usize, image: &mut [u32]) -> (r: Result<
    (),
    &'static str,
>)
    requires
        tiles_for(width as nat) * tiles_for(height as nat) * 8 <= usize::MAX,
        width * height <= usize::MAX,
    ensures
        r is Err <==> (data@.len() < tiles_for(width as nat) * tiles_for(height as nat) * 8
            || old(image)@.len() < width * height),
        final(image)@.len() == old(image)@.len(),
        r is Err ==> final(image)@ == old(image)@,
        r is Ok ==> forall|i: int|
            0 <= i < width * height ==> #[trigger] final(image)@[i] == tiled_pixel(
                data@,
                width as nat,
                i,
                8,
                |b: Seq<u8>| bc1_tile(b),
            ),
        r is Ok ==> forall|i: int|
            width * height <= i < old(image)@.len() ==> #[trigger] final(image)@[i] == old(
                image,
            )@[i],
{
    texture2ddecoder::decode_bc1(data, width, height, image)
}

/// Relies on `texture2ddecoder::decode_bc3`: it fails, leaving `image` as it was, when
/// `data` is shorter than 16 bytes per 4×4 tile or `image` holds fewer than
/// `width * height` pixels; otherwise it decodes each tile with `decode_bc3_block`, in
/// row-major order, and copies it to its place, clipped at the image's edges.
#[verifier::external_body]
pub(crate) fn decode_bc3(data: &[u8], width: usize, height: usize, image: &mut [u32]) -> (r: Result<
    (),
    &'static str,
>)
    requires
        tiles_for(width as nat) * tiles_for(height as nat) * 16 <= usize::MAX,
        width * height <= usize::MAX,
    ensures
        r is Err <==> (data@.len() < tiles_for(width as nat) * tiles_for(height as nat) * 16
            || old(image)@.len() < width * height),
        final(image)@.len() == old(image)@.len(),
        r is Err ==> final(image)@ == old(image)@,
        r is Ok ==> forall|i: int|
            0 <= i < width * height ==> #[trigger] final(image)@[i] == tiled_pixel(
                data@,
                width as nat,
                i,
                16,
                |b: Seq<u8>| bc3_tile(b),
            ),
        r is Ok ==> forall|i: int|
            width * height <= i < old(image)@.len() ==> #[trigger] final(image)@[i] == old(
                image,
            )@[i],
{
    texture2ddecoder::decode_bc3(data, width, height, image)
}

/// Relies on `texture2ddecoder::decode_bc7`: it fails, leaving `image` as it was, when
/// `data` is shorter than 16 bytes per 4×4 tile or `image` holds fewer than
/// `width * height` pixels; otherwise it decodes each tile with `decode_bc7_block`, in
/// row-major order, and copies it to its place, clipped at the image's edges.
#[verifier::external_body]
pub(crate) fn decode_bc7(data: &[u8], width: usize, height: usize, image: &mut [u32]) -> (r: Result<
    (),
    &'static str,
>)
    requires
        tiles_for(width as nat) * tiles_for(height as nat) * 16 <= usize::MAX,
        width * height <= usize::MAX,
    ensures
        r is Err <==> (data@.len() < tiles_for(width as nat) * tiles_for(height as nat) * 16
            || old(image)@.len() < width * height),
        final(image)@.len() == old(image)@.len(),
        r is Err ==> final(image)@ == old(image)@,
        r is Ok ==> forall|i: int|
            0 <= i < width * height ==> #[trigger] final(image)@[i] == tiled_pixel(
                data@,
                width as nat,
                i,
                16,
                |b: Seq<u8>| bc7_tile(b),
            ),
        r is Ok ==> forall|i: int|
            width * height <= i < old(image)@.len() ==> #[trigger] final(image)@[i] == old(
                image,
            )@[i],
{
    texture2ddecoder::decode_bc7(data, width, height, image)
}

} // verus!
