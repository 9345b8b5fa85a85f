//! The container's layout: a 24-byte little-endian header, the frame payloads, and a
//! trailing index of one `(address, size)` pair of `u64`s per frame.

use vstd::prelude::*;
use crate::error::LoadError;

verus! {

/// The `u32` stored little-endian at `at` in `s`.
pub open spec fn le_u32(s: Seq<u8>, at: int) -> u32 {
    (s[at] as int + s[at + 1] as int * 0x100 + s[at + 2] as int * 0x10000 + s[at + 3] as int
        * 0x1000000) as u32
}

/// The `u64` stored little-endian at `at` in `s`.
pub open spec fn le_u64(s: Seq<u8>, at: int) -> u64 {
    (le_u32(s, at) as int + le_u32(s, at + 4) as int * 0x100000000) as u64
}

/// Reads the little-endian `u32` at `at`.
pub fn read_u32_le(bytes: &[u8], at: usize) -> (r: u32)
    requires
        at + 4 <= bytes@.len(),
    ensures
        r == le_u32(bytes@, at as int),
{
    (bytes[at] as u32) + (bytes[at + 1] as u32) * 0x100 + (bytes[at + 2] as u32) * 0x10000 + (
    bytes[at + 3] as u32) * 0x1000000
}

/// Reads the little-endian `u64` at `at`.
pub fn read_u64_le(bytes: &[u8], at: usize) -> (r: u64)
    requires
        at + 8 <= bytes@.len(),
    ensures
        r == le_u64(bytes@, at as int),
{
    let len: usize = bytes.len();
    let high_at: usize = at + 4;
    assert(high_at + 4 <= len);
    (read_u32_le(bytes, at) as u64) + (read_u32_le(bytes, high_at) as u64) * 0x100000000
}

/// The block-compression format of every frame.
#[derive(Debug, PartialEq, Eq, Clone, Copy, Structural)]
pub enum GVFormat {
    /// BC1, format code 1.
    DXT1,
    /// BC2, format code 3.
    DXT3,
    /// BC3, format code 5.
    DXT5,
    /// BC7, format code 7.
    BC7,
}

/// The format that a header's format code names, if any.
pub open spec fn format_of_code(code: u32) -> Option<GVFormat> {
    if code == 1 {
        Some(GVFormat::DXT1)
    } else if code == 3 {
        Some(GVFormat::DXT3)
    } else if code == 5 {
        Some(GVFormat::DXT5)
    } else if code == 7 {
        Some(GVFormat::BC7)
    } else {
        None
    }
}

pub fn format_from_code(code: u32) -> (r: Option<GVFormat>)
    ensures
        r == format_of_code(code),
{
    match code {
        1 => Some(GVFormat::DXT1),
        3 => Some(GVFormat::DXT3),
        5 => Some(GVFormat::DXT5),
        7 => Some(GVFormat::BC7),
        _ => None,
    }
}

/// The size of the header in bytes.
pub const HEADER_SIZE: usize = 24;

/// The size of one index record in bytes.
pub const INDEX_RECORD_SIZE: u64 = 16;

/// The header of a video. The frame rate is kept as the bits of the `f32` stored in the
/// file. `frame_bytes` is the size the writer gave for a decoded frame; it is advisory
/// only, and nothing checks it against what a frame decodes to.
#[derive(Debug, PartialEq, Eq, Clone, Copy, Structural)]
pub struct GVHeader {
    pub width: u32,
    pub height: u32,
    pub frame_count: u32,
    pub fps_bits: u32,
    pub format: GVFormat,
    pub frame_bytes: u32,
}

/// The header that the first 24 bytes of `s` hold, or `None` where there are fewer or
/// the format code is unknown.
pub open spec fn header_of(s: Seq<u8>) -> Option<GVHeader> {
    if s.len() < 24 {
        None
    } else {
        match format_of_code(le_u32(s, 16)) {
            Some(format) => Some(
                GVHeader {
                    width: le_u32(s, 0),
                    height: le_u32(s, 4),
                    frame_count: le_u32(s, 8),
                    fps_bits: le_u32(s, 12),
                    format,
                    frame_bytes: le_u32(s, 20),
                },
            ),
            None => None,
        }
    }
}

/// Parses the header at the start of `bytes`.
pub fn read_header(bytes: &[u8]) -> (r: Result<GVHeader, LoadError>)
    ensures
        r == match header_of(bytes@) {
            Some(h) => Ok(h),
            None => Err(LoadError::MalformedHeader),
        },
{
    if bytes.len() < HEADER_SIZE {
        return Err(LoadError::MalformedHeader);
    }
    let width = read_u32_le(bytes, 0);
    let height = read_u32_le(bytes, 4);
    let frame_count = read_u32_le(bytes, 8);
    let fps_bits = read_u32_le(bytes, 12);
    let code = read_u32_le(bytes, 16);
    let frame_bytes = read_u32_le(bytes, 20);
    match format_from_code(code) {
        Some(format) => Ok(GVHeader { width, height, frame_count, fps_bits, format, frame_bytes }),
        None => Err(LoadError::MalformedHeader),
    }
}

/// Where one frame's compressed payload lies in the file.
#[derive(Debug, PartialEq, Eq, Clone, Copy, Structural)]
pub struct GVAddressSizeBlock {
    pub address: u64,
    pub size: u64,
}

/// The index record at `at` in `s`.
pub open spec fn record_at(s: Seq<u8>, at: int) -> GVAddressSizeBlock {
    GVAddressSizeBlock { address: le_u64(s, at), size: le_u64(s, at + 8) }
}

/// The index of a file `s` with `frame_count` frames: its last `16 * frame_count` bytes.
pub open spec fn index_of(s: Seq<u8>, frame_count: nat) -> Seq<GVAddressSizeBlock> {
    Seq::new(frame_count, |i: int| record_at(s, s.len() - 16 * frame_count + 16 * i))
}

/// Every record has a non-zero address and a non-zero size: a record that reads as zero
/// signals a damaged index, not an empty frame.
pub open spec fn records_nonzero(index: Seq<GVAddressSizeBlock>) -> bool {
    forall|i: int| 0 <= i < index.len() ==> (#[trigger] index[i]).address != 0 && index[i].size != 0
}

/// Where the index of `frame_count` records starts in a file of `file_len` bytes, or
/// `None` where the file is shorter than the index.
pub fn index_start(file_len: u64, frame_count: u32) -> (r: Option<u64>)
    ensures
        r == if 16 * frame_count <= file_len {
            Some((file_len - 16 * frame_count) as u64)
        } else {
            None::<u64>
        },
{
    let index_len = (frame_count as u64) * INDEX_RECORD_SIZE;
    if index_len <= file_len {
        Some(file_len - index_len)
    } else {
        None
    }
}

/// Parses the `16 * frame_count` bytes of an index. Bytes of another length, or a record
/// with a zero address or size, make the index malformed.
pub fn parse_index(bytes: &[u8], frame_count: u32) -> (r: Result<Vec<GVAddressSizeBlock>, LoadError>)
    ensures
        match r {
            Ok(index) => {
                &&& bytes@.len() == 16 * frame_count
                &&& records_nonzero(index_of(bytes@, frame_count as nat))
                &&& index@ == index_of(bytes@, frame_count as nat)
            },
            Err(e) => {
                &&& e == LoadError::MalformedIndex
                &&& !(bytes@.len() == 16 * frame_count && records_nonzero(
                    index_of(bytes@, frame_count as nat),
                ))
            },
        },
{
    let len: usize = bytes.len();
    if (len as u64) != (frame_count as u64) * INDEX_RECORD_SIZE {
        return Err(LoadError::MalformedIndex);
    }
    let ghost all = index_of(bytes@, frame_count as nat);
    let mut index: Vec<GVAddressSizeBlock> = Vec::new();
    let mut i: u32 = 0;
    while i < frame_count
        invariant
            len == bytes@.len(),
            bytes@.len() == 16 * frame_count,
            all == index_of(bytes@, frame_count as nat),
            i <= frame_count,
            index@ =~= all.subrange(0, i as int),
            records_nonzero(index@),
        decreases frame_count - i,
    {
        let at: usize = (i as usize) * 16;
        let address = read_u64_le(bytes, at);
        let size = read_u64_le(bytes, at + 8);
        assert(all[i as int] == GVAddressSizeBlock { address, size });
        if address == 0 || size == 0 {
            assert(!records_nonzero(all)) by {
                if records_nonzero(all) {
                    assert(all[i as int].address != 0 && all[i as int].size != 0);
                }
            }
            return Err(LoadError::MalformedIndex);
        }
        index.push(GVAddressSizeBlock { address, size });
        i = i + 1;
    }
    assert(index@ =~= all);
    Ok(index)
}

/// A seekable source of bytes held in memory: the bytes and a read position.
pub struct ByteSource {
    pub data: Vec<u8>,
    pub position: u64,
}

impl ByteSource {
    pub fn new(data: Vec<u8>) -> (s: ByteSource)
        ensures
            s.data@ == data@,
            s.position == 0,
    {
        ByteSource { data, position: 0 }
    }

    /// Moves the read position to `pos`, counted from the start.
    pub fn seek_from_start(&mut self, pos: u64)
        ensures
            final(self).data@ == old(self).data@,
            final(self).position == pos,
    {
        self.position = pos;
    }

    /// Moves the read position to `back` bytes before the end; fails, moving nothing,
    /// where that lies before the start.
    pub fn seek_from_end(&mut self, back: u64) -> (ok: bool)
        ensures
            final(self).data@ == old(self).data@,
            ok == (back <= old(self).data@.len()),
            ok ==> final(self).position == old(self).data@.len() - back,
            !ok ==> final(self).position == old(self).position,
    {
        let len = self.data.len() as u64;
        if back <= len {
            self.position = len - back;
            true
        } else {
            false
        }
    }

    /// Reads exactly `n` bytes at the read position and moves past them; fails, moving
    /// nothing, where fewer than `n` remain.
    pub fn read_exact(&mut self, n: u64) -> (r: Option<Vec<u8>>)
        ensures
            final(self).data@ == old(self).data@,
            old(self).position + n <= old(self).data@.len() ==> {
                &&& r matches Some(v)
                &&& v@ == old(self).data@.subrange(
                    old(self).position as int,
                    old(self).position + n,
                )
                &&& final(self).position == old(self).position + n
            },
            old(self).position + n > old(self).data@.len() ==> {
                &&& r is None
                &&& final(self).position == old(self).position
            },
    {
        let len = self.data.len() as u64;
        if self.position <= len && n <= len - self.position {
            let start = self.position as usize;
            let end = (self.position + n) as usize;
            let v = vstd::slice::slice_to_vec(&self.data.as_slice()[start..end]);
            self.position = self.position + n;
            Some(v)
        } else {
            None
        }
    }

    /// Reads a little-endian `u64` at the read position.
    pub fn read_u64(&mut self) -> (r: Option<u64>)
        ensures
            final(self).data@ == old(self).data@,
            old(self).position + 8 <= old(self).data@.len() ==> {
                &&& r == Some(le_u64(old(self).data@, old(self).position as int))
                &&& final(self).position == old(self).position + 8
            },
            old(self).position + 8 > old(self).data@.len() ==> {
                &&& r is None
                &&& final(self).position == old(self).position
            },
    {
        match self.read_exact(8) {
            Some(b) => {
                let v = read_u64_le(b.as_slice(), 0);
                proof {
                    let s = old(self).data@;
                    let p = old(self).position as int;
                    assert(le_u64(b@, 0) == le_u64(s, p));
                }
                Some(v)
            },
            None => None,
        }
    }
}

} // verus!
