//! The video handle: a header, the index of frames and a byte source, with random
//! access to frames by id or by time.

use vstd::prelude::*;
use crate::bc2_decoder::{bc2_pixel, decode_bc2};
use crate::codec::{
    bc1_tile, bc3_tile, bc7_tile, decode_bc1, decode_bc3, decode_bc7, lz4_block,
    lz4_decompress, tiled_pixel, tiles_for,
};
use crate::container::{
    header_of, index_of, le_u32, parse_index, read_header, record_at, records_nonzero,
    ByteSource, GVAddressSizeBlock, GVFormat, GVHeader, INDEX_RECORD_SIZE,
};
use crate::error::{FrameError, LoadError};
use crate::timing::{
    before_end, fps_is_finite, fps_is_negative, frame_id_at, frame_id_for_time, frame_position,
    lemma_frame_id_before_end, time_nanos,
};

verus! {

/// A loaded video. Every frame read moves the source's read position, and nothing else.
pub struct GVVideo {
    pub header: GVHeader,
    pub address_size_blocks: Vec<GVAddressSizeBlock>,
    pub reader: ByteSource,
}

/// A frame of `h` can be held in memory: its decompressed bytes and its tiles fit.
pub open spec fn frame_fits(h: GVHeader) -> bool {
    &&& h.width * h.height * 4 <= isize::MAX
    &&& tiles_for(h.width as nat) * tiles_for(h.height as nat) * 16 <= usize::MAX
}

/// The bytes per 4×4 tile in format `f`.
pub open spec fn tile_bytes(f: GVFormat) -> nat {
    match f {
        GVFormat::DXT1 => 8,
        _ => 16,
    }
}

/// The pixels that block decoding of `d` gives for a frame of `h`.
pub open spec fn tiles_decoded(h: GVHeader, d: Seq<u8>) -> Result<Seq<u32>, FrameError> {
    let w = h.width as nat;
    let ht = h.height as nat;
    if !frame_fits(h) {
        Err(FrameError::DecodeFailure)
    } else if d.len() < tiles_for(w) * tiles_for(ht) * tile_bytes(h.format) {
        Err(FrameError::InsufficientData)
    } else {
        Ok(
            match h.format {
                GVFormat::DXT1 => Seq::new(
                    w * ht,
                    |i: int| tiled_pixel(d, w, i, 8, |b: Seq<u8>| bc1_tile(b)),
                ),
                GVFormat::DXT3 => Seq::new(w * ht, |i: int| bc2_pixel(d, w as int, i)),
                GVFormat::DXT5 => Seq::new(
                    w * ht,
                    |i: int| tiled_pixel(d, w, i, 16, |b: Seq<u8>| bc3_tile(b)),
                ),
                GVFormat::BC7 => Seq::new(
                    w * ht,
                    |i: int| tiled_pixel(d, w, i, 16, |b: Seq<u8>| bc7_tile(b)),
                ),
            },
        )
    }
}

/// The block-compressed bytes that entropy decoding of `payload` gives for a frame of `h`.
pub open spec fn decompressed(h: GVHeader, payload: Seq<u8>) -> Result<Seq<u8>, FrameError> {
    if !frame_fits(h) {
        Err(FrameError::DecodeFailure)
    } else {
        match lz4_block(payload, (h.width * h.height * 4) as nat) {
            Some(d) => Ok(d),
            None => Err(FrameError::CorruptPayload),
        }
    }
}

/// The frame that `payload` decodes to.
pub open spec fn decoded_frame(h: GVHeader, payload: Seq<u8>) -> Result<Seq<u32>, FrameError> {
    match decompressed(h, payload) {
        Ok(d) => tiles_decoded(h, d),
        Err(e) => Err(e),
    }
}

/// The bytes of the file `data` that index record `e` points to, if they are all there.
pub open spec fn payload_of(data: Seq<u8>, e: GVAddressSizeBlock) -> Option<Seq<u8>> {
    if e.address + e.size <= data.len() {
        Some(data.subrange(e.address as int, e.address + e.size))
    } else {
        None
    }
}

/// The payload of frame `id` of `v`, or the error met on the way to it.
pub open spec fn frame_payload(v: GVVideo, id: u32) -> Result<Seq<u8>, FrameError> {
    if id >= v.header.frame_count || id >= v.address_size_blocks@.len() {
        Err(FrameError::EndOfVideo)
    } else {
        match payload_of(v.reader.data@, v.address_size_blocks@[id as int]) {
            Some(p) => Ok(p),
            None => Err(FrameError::ShortRead),
        }
    }
}

/// What reading frame `id` of `v` gives.
pub open spec fn frame_result(v: GVVideo, id: u32) -> Result<Seq<u32>, FrameError> {
    match frame_payload(v, id) {
        Ok(p) => decoded_frame(v.header, p),
        Err(e) => Err(e),
    }
}

/// What reading frame `id` of `v` without block decoding gives.
pub open spec fn compressed_result(v: GVVideo, id: u32) -> Result<Seq<u8>, FrameError> {
    match frame_payload(v, id) {
        Ok(p) => decompressed(v.header, p),
        Err(e) => Err(e),
    }
}

pub open spec fn pixels_of(r: Result<Vec<u32>, FrameError>) -> Result<Seq<u32>, FrameError> {
    match r {
        Ok(v) => Ok(v@),
        Err(e) => Err(e),
    }
}

pub open spec fn bytes_result(r: Result<Vec<u8>, FrameError>) -> Result<Seq<u8>, FrameError> {
    match r {
        Ok(v) => Ok(v@),
        Err(e) => Err(e),
    }
}

/// Where the read position stands after a load of `data` whose header is `h`.
pub open spec fn position_after_load(data: Seq<u8>, h: GVHeader) -> u64 {
    if h.frame_count > 0 {
        index_of(data, h.frame_count as nat)[0].address
    } else {
        data.len() as u64
    }
}

impl GVHeader {
    /// Whether a frame of this size can be held in memory.
    fn frame_fits_in_memory(&self) -> (r: bool)
        ensures
            r == frame_fits(*self),
    {
        let width = self.width as usize;
        let height = self.height as usize;
        let tiles_x: usize = width / 4 + if width % 4 != 0 {
            1
        } else {
            0
        };
        let tiles_y: usize = height / 4 + if height % 4 != 0 {
            1
        } else {
            0
        };
        let bytes = match width.checked_mul(height) {
            Some(n) => n.checked_mul(4),
            None => None,
        };
        let tile_bytes = match tiles_x.checked_mul(tiles_y) {
            Some(n) => n.checked_mul(16),
            None => None,
        };
        proof {
            assert(0 <= width * height) by (nonlinear_arith);
            assert(0 <= tiles_x * tiles_y) by (nonlinear_arith);
        }
        let bytes_fit = match bytes {
            Some(n) => n <= isize::MAX as usize,
            None => false,
        };
        bytes_fit && tile_bytes.is_some()
    }

    /// Entropy-decodes a frame's payload into its block-compressed bytes.
    pub fn decode_lz4(&self, data: &[u8]) -> (r: Result<Vec<u8>, FrameError>)
        ensures
            bytes_result(r) == decompressed(*self, data@),
    {
        if !self.frame_fits_in_memory() {
            return Err(FrameError::DecodeFailure);
        }
        let size = (self.width as usize) * (self.height as usize) * 4;
        match lz4_decompress(data, size) {
            Some(v) => Ok(v),
            None => Err(FrameError::CorruptPayload),
        }
    }

    /// Decodes a frame's block-compressed bytes into its pixels, in the video's format.
    pub fn decode_dxt(&self, data: &[u8]) -> (r: Result<Vec<u32>, FrameError>)
        ensures
            pixels_of(r) == tiles_decoded(*self, data@),
    {
        if !self.frame_fits_in_memory() {
            return Err(FrameError::DecodeFailure);
        }
        let width = self.width as usize;
        let height = self.height as usize;
        let ghost w = width as nat;
        let ghost h = height as nat;
        let mut result: Vec<u32> = vec![0u32; width * height];
        proof {
            assert(tiles_for(w) * tiles_for(h) * 8 <= tiles_for(w) * tiles_for(h) * 16);
        }
        match self.format {
            GVFormat::DXT1 => {
                match decode_bc1(data, width, height, result.as_mut_slice()) {
                    Ok(()) => {
                        assert(result@ =~= Seq::new(w * h, |i: int| tiled_pixel(data@, w, i, 8, |b: Seq<u8>| bc1_tile(b))));
                        Ok(result)
                    },
                    Err(_) => Err(FrameError::InsufficientData),
                }
            },
            GVFormat::DXT3 => {
                match decode_bc2(data, width, height, result.as_mut_slice()) {
                    Ok(()) => {
                        assert(result@ =~= Seq::new(w * h, |i: int| bc2_pixel(data@, w as int, i)));
                        Ok(result)
                    },
                    Err(e) => Err(e),
                }
            },
            GVFormat::DXT5 => {
                match decode_bc3(data, width, height, result.as_mut_slice()) {
                    Ok(()) => {
                        assert(result@ =~= Seq::new(w * h, |i: int| tiled_pixel(data@, w, i, 16, |b: Seq<u8>| bc3_tile(b))));
                        Ok(result)
                    },
                    Err(_) => Err(FrameError::InsufficientData),
                }
            },
            GVFormat::BC7 => {
                match decode_bc7(data, width, height, result.as_mut_slice()) {
                    Ok(()) => {
                        assert(result@ =~= Seq::new(w * h, |i: int| tiled_pixel(data@, w, i, 16, |b: Seq<u8>| bc7_tile(b))));
                        Ok(result)
                    },
                    Err(_) => Err(FrameError::InsufficientData),
                }
            },
        }
    }

    /// Entropy-decodes, then block-decodes, a frame's payload.
    pub fn decode_frame(&self, data: &[u8]) -> (r: Result<Vec<u32>, FrameError>)
        ensures
            pixels_of(r) == decoded_frame(*self, data@),
    {
        match self.decode_lz4(data) {
            Ok(block_data) => self.decode_dxt(block_data.as_slice()),
            Err(e) => Err(e),
        }
    }

}

/// The index record of frame `frame_id`, or `EndOfVideo` where the id lies past the last
/// frame (or past the index).
pub fn frame_record(header: &GVHeader, index: &[GVAddressSizeBlock], frame_id: u32) -> (r: Result<
    GVAddressSizeBlock,
    FrameError,
>)
    ensures
        r == if frame_id >= header.frame_count || frame_id >= index@.len() {
            Err::<GVAddressSizeBlock, FrameError>(FrameError::EndOfVideo)
        } else {
            Ok(index@[frame_id as int])
        },
{
    if frame_id >= header.frame_count || frame_id as usize >= index.len() {
        Err(FrameError::EndOfVideo)
    } else {
        Ok(index[frame_id as usize])
    }
}

/// The index read from the last `16 * frame_count` bytes alone is the file's index.
proof fn lemma_index_of_tail(data: Seq<u8>, frame_count: nat)
    requires
        16 * frame_count <= data.len(),
    ensures
        index_of(data.subrange(data.len() - 16 * frame_count, data.len() as int), frame_count)
            == index_of(data, frame_count),
{
    let start = data.len() - 16 * frame_count;
    let tail = data.subrange(start, data.len() as int);
    assert forall|i: int| 0 <= i < frame_count implies #[trigger] record_at(tail, 16 * i)
        == record_at(data, start + 16 * i) by {
        assert forall|j: int| 16 * i <= j < 16 * i + 16 implies tail[j] == data[start + j] by {}
        assert(le_u32(tail, 16 * i) == le_u32(data, start + 16 * i));
        assert(le_u32(tail, 16 * i + 4) == le_u32(data, start + 16 * i + 4));
        assert(le_u32(tail, 16 * i + 8) == le_u32(data, start + 16 * i + 8));
        assert(le_u32(tail, 16 * i + 12) == le_u32(data, start + 16 * i + 12));
    }
    assert(index_of(tail, frame_count) =~= index_of(data, frame_count));
}

impl GVVideo {
    /// The index has one record per frame, none of them zero.
    pub open spec fn wf(&self) -> bool {
        &&& self.address_size_blocks@.len() == self.header.frame_count
        &&& records_nonzero(self.address_size_blocks@)
    }

    /// Loads a video from the bytes of its file.
    pub fn load(data: Vec<u8>) -> (r: Result<GVVideo, LoadError>)
        ensures
            match header_of(data@) {
                None => r == Err::<GVVideo, LoadError>(LoadError::MalformedHeader),
                Some(h) => if 16 * h.frame_count > data@.len() || !records_nonzero(
                    index_of(data@, h.frame_count as nat),
                ) {
                    r == Err::<GVVideo, LoadError>(LoadError::MalformedIndex)
                } else {
                    &&& r matches Ok(v)
                    &&& v.wf()
                    &&& v.header == h
                    &&& v.address_size_blocks@ == index_of(data@, h.frame_count as nat)
                    &&& v.reader.data@ == data@
                    &&& v.reader.position == position_after_load(data@, h)
                },
            },
    {
        let header = match read_header(data.as_slice()) {
            Ok(h) => h,
            Err(e) => {
                return Err(e);
            },
        };
        let mut reader = ByteSource::new(data);
        match GVVideo::get_address_size_blocks(header.frame_count, &mut reader) {
            Ok(address_size_blocks) => Ok(GVVideo { header, address_size_blocks, reader }),
            Err(e) => Err(e),
        }
    }

    /// Reads the index of `frame_count` records at the end of `reader`, then moves the
    /// read position to the first frame's payload. An index that does not fit in the
    /// source, or that holds a zero address or size, is malformed.
    fn get_address_size_blocks(frame_count: u32, reader: &mut ByteSource) -> (r: Result<
        Vec<GVAddressSizeBlock>,
        LoadError,
    >)
        ensures
            final(reader).data@ == old(reader).data@,
            16 * frame_count > old(reader).data@.len() ==> r == Err::<
                Vec<GVAddressSizeBlock>,
                LoadError,
            >(LoadError::MalformedIndex),
            16 * frame_count <= old(reader).data@.len() && !records_nonzero(
                index_of(old(reader).data@, frame_count as nat),
            ) ==> r == Err::<Vec<GVAddressSizeBlock>, LoadError>(LoadError::MalformedIndex),
            16 * frame_count <= old(reader).data@.len() && records_nonzero(
                index_of(old(reader).data@, frame_count as nat),
            ) ==> {
                &&& r matches Ok(index)
                &&& index@ == index_of(old(reader).data@, frame_count as nat)
                &&& final(reader).position == if frame_count > 0 {
                    index@[0].address
                } else {
                    old(reader).data@.len() as u64
                }
            },
    {
        let ghost data = reader.data@;
        let index_len: u64 = (frame_count as u64) * INDEX_RECORD_SIZE;
        if !reader.seek_from_end(index_len) {
            return Err(LoadError::MalformedIndex);
        }
        let bytes = match reader.read_exact(index_len) {
            Some(b) => b,
            None => {
                return Err(LoadError::MalformedIndex);
            },
        };
        proof {
            lemma_index_of_tail(data, frame_count as nat);
        }
        let address_size_blocks = match parse_index(bytes.as_slice(), frame_count) {
            Ok(index) => index,
            Err(e) => {
                return Err(e);
            },
        };
        if frame_count > 0 {
            let address = address_size_blocks[0].address;
            reader.seek_from_start(address);
        }
        Ok(address_size_blocks)
    }

    /// Entropy-decodes a frame's payload into its block-compressed bytes.
    pub fn decode_lz4(&self, data: &[u8]) -> (r: Result<Vec<u8>, FrameError>)
        ensures
            bytes_result(r) == decompressed(self.header, data@),
    {
        self.header.decode_lz4(data)
    }

    /// Decodes a frame's block-compressed bytes into its pixels, in the video's format.
    pub fn decode_dxt(&self, data: &[u8]) -> (r: Result<Vec<u32>, FrameError>)
        ensures
            pixels_of(r) == tiles_decoded(self.header, data@),
    {
        self.header.decode_dxt(data)
    }

    /// Entropy-decodes, then block-decodes, a frame's payload.
    pub fn decode_lz4_and_dxt(&self, data: &[u8]) -> (r: Result<Vec<u32>, FrameError>)
        ensures
            pixels_of(r) == decoded_frame(self.header, data@),
    {
        self.header.decode_frame(data)
    }

    /// Reads the payload of frame `frame_id` from the source.
    fn read_payload(&mut self, frame_id: u32) -> (r: Result<Vec<u8>, FrameError>)
        ensures
            final(self).header == old(self).header,
            final(self).address_size_blocks@ == old(self).address_size_blocks@,
            final(self).reader.data@ == old(self).reader.data@,
            bytes_result(r) == frame_payload(*old(self), frame_id),
            frame_id >= old(self).header.frame_count || frame_id
                >= old(self).address_size_blocks@.len() ==> final(self).reader.position == old(
                self,
            ).reader.position,
    {
        let block = match frame_record(&self.header, self.address_size_blocks.as_slice(), frame_id) {
            Ok(b) => b,
            Err(e) => {
                return Err(e);
            },
        };
        self.reader.seek_from_start(block.address);
        match self.reader.read_exact(block.size) {
            Some(data) => Ok(data),
            None => Err(FrameError::ShortRead),
        }
    }

    /// Reads frame `frame_id` and decodes it into `width * height` pixels, row-major.
    pub fn read_frame(&mut self, frame_id: u32) -> (r: Result<Vec<u32>, FrameError>)
        ensures
            final(self).header == old(self).header,
            final(self).address_size_blocks@ == old(self).address_size_blocks@,
            final(self).reader.data@ == old(self).reader.data@,
            pixels_of(r) == frame_result(*old(self), frame_id),
            frame_id >= old(self).header.frame_count ==> final(self).reader.position == old(
                self,
            ).reader.position,
    {
        match self.read_payload(frame_id) {
            Ok(data) => self.decode_lz4_and_dxt(data.as_slice()),
            Err(e) => Err(e),
        }
    }

    /// Reads frame `frame_id` and entropy-decodes it, leaving its blocks compressed.
    pub fn read_frame_compressed(&mut self, frame_id: u32) -> (r: Result<Vec<u8>, FrameError>)
        ensures
            final(self).header == old(self).header,
            final(self).address_size_blocks@ == old(self).address_size_blocks@,
            final(self).reader.data@ == old(self).reader.data@,
            bytes_result(r) == compressed_result(*old(self), frame_id),
            frame_id >= old(self).header.frame_count ==> final(self).reader.position == old(
                self,
            ).reader.position,
    {
        match self.read_payload(frame_id) {
            Ok(data) => self.decode_lz4(data.as_slice()),
            Err(e) => Err(e),
        }
    }

    /// Reads the frame shown `secs` seconds and `nanos` nanoseconds into the video.
    pub fn read_frame_at(&mut self, secs: u64, nanos: u32) -> (r: Result<Vec<u32>, FrameError>)
        ensures
            final(self).header == old(self).header,
            final(self).address_size_blocks@ == old(self).address_size_blocks@,
            final(self).reader.data@ == old(self).reader.data@,
            pixels_of(r) == frame_result(
                *old(self),
                frame_id_at(old(self).header.fps_bits, time_nanos(secs, nanos)),
            ),
            frame_id_at(old(self).header.fps_bits, time_nanos(secs, nanos))
                >= old(self).header.frame_count ==> final(self).reader.position == old(
                self,
            ).reader.position,
    {
        let frame_id = frame_id_for_time(self.header.fps_bits, secs, nanos);
        self.read_frame(frame_id)
    }

    /// Reads the frame shown at the given time, leaving its blocks compressed.
    pub fn read_frame_compressed_at(&mut self, secs: u64, nanos: u32) -> (r: Result<
        Vec<u8>,
        FrameError,
    >)
        ensures
            final(self).header == old(self).header,
            final(self).address_size_blocks@ == old(self).address_size_blocks@,
            final(self).reader.data@ == old(self).reader.data@,
            bytes_result(r) == compressed_result(
                *old(self),
                frame_id_at(old(self).header.fps_bits, time_nanos(secs, nanos)),
            ),
            frame_id_at(old(self).header.fps_bits, time_nanos(secs, nanos))
                >= old(self).header.frame_count ==> final(self).reader.position == old(
                self,
            ).reader.position,
    {
        let frame_id = frame_id_for_time(self.header.fps_bits, secs, nanos);
        self.read_frame_compressed(frame_id)
    }

    pub fn get_width(&self) -> (r: u32)
        ensures
            r == self.header.width,
    {
        self.header.width
    }

    pub fn get_height(&self) -> (r: u32)
        ensures
            r == self.header.height,
    {
        self.header.height
    }

    pub fn get_resolution(&self) -> (r: (u32, u32))
        ensures
            r == (self.header.width, self.header.height),
    {
        (self.header.width, self.header.height)
    }

    pub fn get_frame_count(&self) -> (r: u32)
        ensures
            r == self.header.frame_count,
    {
        self.header.frame_count
    }

    pub fn get_format(&self) -> (r: GVFormat)
        ensures
            r == self.header.format,
    {
        self.header.format
    }

    pub fn get_frame_bytes(&self) -> (r: u32)
        ensures
            r == self.header.frame_bytes,
    {
        self.header.frame_bytes
    }
}

/// A frame id past the last frame gives `EndOfVideo`. A frame that decodes has exactly
/// `width * height` pixels. A frame before the last decodes whenever its payload lies in
/// the file, a frame fits in memory, and entropy decoding yields at least the block bytes
/// that the image's tiles need.
pub proof fn lemma_frame_ids_and_size(v: GVVideo, id: u32)
    requires
        v.wf(),
    ensures
        id >= v.header.frame_count ==> frame_result(v, id) == Err::<Seq<u32>, FrameError>(
            FrameError::EndOfVideo,
        ),
        frame_result(v, id) matches Ok(px) ==> px.len() == v.header.width * v.header.height,
        ({
            let h = v.header;
            &&& id < h.frame_count
            &&& payload_of(v.reader.data@, v.address_size_blocks@[id as int]) matches Some(p)
            &&& frame_fits(h)
            &&& lz4_block(p, (h.width * h.height * 4) as nat) matches Some(d)
            &&& d.len() >= tiles_for(h.width as nat) * tiles_for(h.height as nat) * tile_bytes(
                h.format,
            )
        }) ==> frame_result(v, id) is Ok,
{
}

/// Reading at a time `t` (in nanoseconds) before the end of the video reads frame
/// `floor(fps · t)`, which lies before the last; reading at a later time gives
/// `EndOfVideo`. This holds for every finite, non-negative frame rate.
pub proof fn lemma_read_frame_at(v: GVVideo, t: nat)
    requires
        v.wf(),
        !fps_is_negative(v.header.fps_bits),
        fps_is_finite(v.header.fps_bits),
    ensures
        before_end(v.header.fps_bits, v.header.frame_count, t) ==> {
            &&& frame_position(v.header.fps_bits, t) < v.header.frame_count
            &&& frame_result(v, frame_id_at(v.header.fps_bits, t)) == frame_result(
                v,
                frame_position(v.header.fps_bits, t) as u32,
            )
        },
        !before_end(v.header.fps_bits, v.header.frame_count, t) ==> frame_result(
            v,
            frame_id_at(v.header.fps_bits, t),
        ) == Err::<Seq<u32>, FrameError>(FrameError::EndOfVideo),
{
    lemma_frame_id_before_end(v.header.fps_bits, v.header.frame_count, t);
}

/// Decoding a frame depends on the header, the index and the file's bytes alone, not on
/// the read position: reading the same frame id of two videos loaded from the same bytes,
/// or twice from one video, gives the same result.
pub proof fn lemma_frame_deterministic(a: GVVideo, b: GVVideo, id: u32)
    requires
        a.header == b.header,
        a.address_size_blocks@ == b.address_size_blocks@,
        a.reader.data@ == b.reader.data@,
    ensures
        frame_result(a, id) == frame_result(b, id),
        compressed_result(a, id) == compressed_result(b, id),
{
}

} // verus!
