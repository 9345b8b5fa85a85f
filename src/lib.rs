//! Random-access reader for the GV video container: a file of block-compressed
//! texture frames, each entropy-coded, with a trailing index of byte ranges.

pub mod bc2_decoder;
pub mod codec;
pub mod color;
pub mod container;
pub mod error;
pub mod timing;
pub mod video;

pub use bc2_decoder::{copy_block_buffer, decode_bc2, decode_bc2_alpha, decode_bc2_block};
pub use color::{
    color, get_alpha, get_alpha_from_frame, get_bgra_vec_from_frame, get_rgb,
    get_rgb_from_frame, get_rgb_vec_from_frame, get_rgba, get_rgba_from_frame,
    get_rgba_vec_from_frame, to_vec_u8_safe, RGBAColor, RGBColor,
};
pub use container::{
    index_start, parse_index, read_header, ByteSource, GVAddressSizeBlock, GVFormat, GVHeader,
    HEADER_SIZE,
};
pub use error::{FrameError, LoadError};
pub use timing::frame_id_for_time;
pub use video::{frame_record, GVVideo};
