use gv_video::{
    frame_id_for_time, get_rgba_from_frame, FrameError, GVFormat, GVVideo, LoadError, RGBAColor,
};
use std::time::Duration;

const RED: u16 = 0xF800;
const GREEN: u16 = 0x07E0;
const BLUE: u16 = 0x001F;
const YELLOW: u16 = 0xFFE0;

/// A BC1 tile of one colour.
fn solid_bc1(c565: u16) -> Vec<u8> {
    let b = c565.to_le_bytes();
    vec![b[0], b[1], b[0], b[1], 0, 0, 0, 0]
}

/// A video file: header, LZ4-compressed frames, and the index.
fn build_video(
    width: u32,
    height: u32,
    fps: f32,
    format: u32,
    frame_bytes: u32,
    frames: &[Vec<u8>],
) -> Vec<u8> {
    let mut data = Vec::new();
    data.extend_from_slice(&width.to_le_bytes());
    data.extend_from_slice(&height.to_le_bytes());
    data.extend_from_slice(&(frames.len() as u32).to_le_bytes());
    data.extend_from_slice(&fps.to_bits().to_le_bytes());
    data.extend_from_slice(&format.to_le_bytes());
    data.extend_from_slice(&frame_bytes.to_le_bytes());
    let mut index = Vec::new();
    for f in frames {
        let c = lz4_flex::block::compress(f);
        index.push((data.len() as u64, c.len() as u64));
        data.extend_from_slice(&c);
    }
    for (address, size) in index {
        data.extend_from_slice(&address.to_le_bytes());
        data.extend_from_slice(&size.to_le_bytes());
    }
    data
}

/// 10×10 pixels, 5 frames at 1 fps, BC1: the top row of tiles is red, then blue, blue;
/// the others green, then yellow, yellow.
fn video_10px() -> Vec<u8> {
    let mut tiles = Vec::new();
    for row in 0..3 {
        for col in 0..3 {
            let c = match (row, col) {
                (0, 0) => RED,
                (0, _) => BLUE,
                (_, 0) => GREEN,
                _ => YELLOW,
            };
            tiles.extend(solid_bc1(c));
        }
    }
    let frames: Vec<Vec<u8>> = (0..5).map(|_| tiles.clone()).collect();
    build_video(10, 10, 1.0, 1, 72, &frames)
}

/// 640×360 pixels, one frame at 30 fps, BC1, tiles of varied colours.
fn video_640() -> Vec<u8> {
    let mut tiles = Vec::new();
    for t in 0..(160 * 90) {
        let c0 = (t * 37 % 65536) as u16;
        let c1 = (t * 91 % 65536) as u16;
        let a = c0.to_le_bytes();
        let b = c1.to_le_bytes();
        tiles.extend_from_slice(&[a[0], a[1], b[0], b[1], 0x1B, 0xE4, (t % 256) as u8, 0x5A]);
    }
    build_video(640, 360, 30.0, 1, 115200, &[tiles])
}

fn at(video: &mut GVVideo, secs: f32) -> Result<Vec<u32>, FrameError> {
    let d = Duration::from_secs_f32(secs);
    video.read_frame_at(d.as_secs(), d.subsec_nanos())
}

#[test]
fn lib_header_read() {
    let header_data: Vec<u8> = vec![
        0x02, 0x00, 0x00, 0x00, // width
        0x02, 0x00, 0x00, 0x00, // height
        0x02, 0x00, 0x00, 0x00, // frame count
        0x00, 0x00, 0x80, 0x3F, // fps
        0x01, 0x00, 0x00, 0x00, // format
        0x04, 0x00, 0x00, 0x00, // frame bytes
    ];
    let frame_data: Vec<u8> = vec![
        0x00, 0x00, 0x00, 0x00, // 0
        0x00, 0x00, 0x00, 0x00, // 1
        0x00, 0x00, 0x00, 0x00, // 2
        0x00, 0x00, 0x00, 0x00, // 3
    ];
    let blocks = [
        (header_data.len() as u64, frame_data.len() as u64),
        (header_data.len() as u64 + frame_data.len() as u64, frame_data.len() as u64),
    ];
    let mut data = header_data.clone();
    data.extend_from_slice(&frame_data);
    data.extend_from_slice(&frame_data);
    for (address, size) in blocks {
        data.extend_from_slice(&address.to_le_bytes());
        data.extend_from_slice(&size.to_le_bytes());
    }
    let video = GVVideo::load(data).unwrap();
    assert_eq!(video.header.width, 2);
    assert_eq!(video.header.height, 2);
    assert_eq!(video.header.frame_count, 2);
    assert_eq!(f32::from_bits(video.header.fps_bits), 1.0);
    assert_eq!(video.header.format, GVFormat::DXT1);
    assert_eq!(video.header.frame_bytes, 4);
    assert_eq!(video.address_size_blocks.len(), 2);
    assert_eq!(video.address_size_blocks[1].address, 40);
    assert_eq!(video.address_size_blocks[1].size, 16);
    // the read position waits at the first frame
    assert_eq!(video.reader.position, 24);
}

#[test]
fn header_read_with_file() {
    let video = GVVideo::load(video_640()).unwrap();
    assert_eq!(video.header.width, 640);
    assert_eq!(video.header.height, 360);
    assert_eq!(video.header.frame_count, 1);
    assert_eq!(f32::from_bits(video.header.fps_bits), 30.0);
    assert_eq!(video.header.format, GVFormat::DXT1);
    assert_eq!(video.header.frame_bytes, 115200);
}

#[test]
fn read_first_frame() {
    let mut video = GVVideo::load(video_640()).unwrap();
    let frame = video.read_frame(0).unwrap();
    assert_eq!(frame.len(), 640 * 360);
}

#[test]
fn read_first_frame_compressed() {
    let mut video = GVVideo::load(video_640()).unwrap();
    let frame_bc = video.read_frame_compressed(0).unwrap();
    let frame_raw_right = video.read_frame(0).unwrap();
    let frame_raw = video.decode_dxt(&frame_bc).unwrap();

    assert_eq!(frame_raw.len(), 640 * 360);
    assert_eq!(frame_raw.len(), frame_raw_right.len());
    assert_eq!(frame_raw, frame_raw_right);
}

#[test]
fn lib_read_second_frame_then_error() {
    let mut video = GVVideo::load(video_640()).unwrap();
    let frame = video.read_frame(1);
    assert!(frame.is_err());
    assert_eq!(frame.err().map(|e| e.message()), Some("End of video"));
}

#[test]
fn read_frame_at() {
    let mut video = GVVideo::load(video_640()).unwrap();
    let frame = at(&mut video, 0.0).unwrap();
    assert_eq!(frame.len(), 640 * 360);
}

#[test]
fn read_frame_at_with_error() {
    let mut video = GVVideo::load(video_640()).unwrap();
    let frame = at(&mut video, 1.0);
    assert!(frame.is_err());
    assert_eq!(frame.err().map(|e| e.message()), Some("End of video"));
}

#[test]
fn read_frame_at_3_5() {
    let mut video = GVVideo::load(video_10px()).unwrap();
    assert_eq!(video.header.width, 10);
    assert_eq!(video.header.height, 10);
    assert_eq!(video.header.frame_count, 5);
    assert_eq!(f32::from_bits(video.header.fps_bits), 1.0);
    assert_eq!(video.header.format, GVFormat::DXT1);
    assert_eq!(video.header.frame_bytes, 72);

    let frame = at(&mut video, 3.5).unwrap();
    assert_eq!(frame.len(), 10 * 10);

    // 4.99 sec
    let frame = at(&mut video, 4.99).unwrap();
    assert_eq!(frame.len(), 10 * 10);

    // 5.01 sec is out of range
    let frame = at(&mut video, 5.01);
    assert!(frame.is_err());
    assert_eq!(frame.err().map(|e| e.message()), Some("End of video"));
}

#[test]
fn frame_at_3_5_has_expected_colours() {
    let mut video = GVVideo::load(video_10px()).unwrap();
    let frame = at(&mut video, 3.5).unwrap();
    assert_eq!(frame.len(), 100);
    assert_eq!(frame[0], 0xFFFF0000); // (0, 0): red
    assert_eq!(frame[6], 0xFF0000FF); // (6, 0): blue
    assert_eq!(frame[6 * 10], 0xFF00FF00); // (0, 6): green
    assert_eq!(frame[6 + 6 * 10], 0xFFFFFF00); // (6, 6): yellow
    assert_eq!(
        get_rgba_from_frame(&frame, 0, 0, 10),
        RGBAColor { r: 255, g: 0, b: 0, a: 255 }
    );
    assert_eq!(at(&mut video, 5.01), Err(FrameError::EndOfVideo));
}

#[test]
fn every_frame_id_before_the_count_reads_and_none_after() {
    let mut video = GVVideo::load(video_10px()).unwrap();
    for id in 0..5 {
        assert_eq!(video.read_frame(id).unwrap().len(), 100);
    }
    for id in [5, 6, 100, u32::MAX] {
        assert_eq!(video.read_frame(id), Err(FrameError::EndOfVideo));
        assert_eq!(video.read_frame_compressed(id), Err(FrameError::EndOfVideo));
    }
}

#[test]
fn reading_at_a_time_reads_the_frame_at_fps_times_time() {
    let mut video = GVVideo::load(video_10px()).unwrap();
    for (secs, id) in [(0.0, 0), (0.99, 0), (1.0, 1), (2.5, 2), (4.999, 4)] {
        let by_time = at(&mut video, secs).unwrap();
        let by_id = video.read_frame(id).unwrap();
        assert_eq!(by_time, by_id);
    }
    for secs in [5.0, 5.01, 60.0] {
        assert_eq!(at(&mut video, secs), Err(FrameError::EndOfVideo));
    }
    let compressed = video.read_frame_compressed_at(3, 0).unwrap();
    assert_eq!(compressed, video.read_frame_compressed(3).unwrap());
}

#[test]
fn the_same_frame_decodes_the_same_twice() {
    let mut first = GVVideo::load(video_640()).unwrap();
    let mut second = GVVideo::load(video_640()).unwrap();
    let a = first.read_frame(0).unwrap();
    let b = second.read_frame(0).unwrap();
    let c = first.read_frame(0).unwrap();
    assert_eq!(a, b);
    assert_eq!(a, c);
}

#[test]
fn compressed_frame_is_the_decompressed_payload() {
    let mut video = GVVideo::load(video_10px()).unwrap();
    let blocks = video.read_frame_compressed(2).unwrap();
    assert_eq!(blocks.len(), 72);
    assert_eq!(&blocks[0..8], &solid_bc1(RED)[..]);
    assert_eq!(&blocks[8..16], &solid_bc1(BLUE)[..]);
}

#[test]
fn getters_report_the_header() {
    let video = GVVideo::load(video_10px()).unwrap();
    assert_eq!(video.get_width(), 10);
    assert_eq!(video.get_height(), 10);
    assert_eq!(video.get_resolution(), (10, 10));
    assert_eq!(video.get_frame_count(), 5);
    assert_eq!(video.get_format(), GVFormat::DXT1);
    assert_eq!(video.get_frame_bytes(), 72);
}

#[test]
fn short_header_is_malformed() {
    assert_eq!(GVVideo::load(vec![0u8; 23]).err(), Some(LoadError::MalformedHeader));
}

#[test]
fn unknown_format_is_malformed() {
    let mut data = video_10px();
    data[16] = 2;
    assert_eq!(GVVideo::load(data).err(), Some(LoadError::MalformedHeader));
}

#[test]
fn index_longer_than_file_is_malformed() {
    let mut data = vec![0u8; 24];
    data[0] = 4;
    data[4] = 4;
    data[8] = 2; // two frames need 32 bytes of index
    data[16] = 1;
    assert_eq!(GVVideo::load(data).err(), Some(LoadError::MalformedIndex));
}

#[test]
fn zero_frames_load_and_read_nothing() {
    let mut video = GVVideo::load(build_video(4, 4, 1.0, 1, 8, &[])).unwrap();
    assert_eq!(video.address_size_blocks.len(), 0);
    assert_eq!(video.reader.position, 24);
    assert_eq!(video.read_frame(0), Err(FrameError::EndOfVideo));
}

#[test]
fn payload_past_the_end_is_a_short_read() {
    let mut video = GVVideo::load(video_10px()).unwrap();
    video.address_size_blocks[1].size = 1_000_000;
    assert_eq!(video.read_frame(1), Err(FrameError::ShortRead));
    assert_eq!(video.read_frame(0).unwrap().len(), 100);
}

#[test]
fn corrupt_payload_is_reported() {
    // an LZ4 block whose match offset points before the output
    let bad = vec![0x0Fu8, 0x01, 0x00];
    let mut data = Vec::new();
    data.extend_from_slice(&4u32.to_le_bytes());
    data.extend_from_slice(&4u32.to_le_bytes());
    data.extend_from_slice(&1u32.to_le_bytes());
    data.extend_from_slice(&1.0f32.to_bits().to_le_bytes());
    data.extend_from_slice(&1u32.to_le_bytes());
    data.extend_from_slice(&8u32.to_le_bytes());
    data.extend_from_slice(&bad);
    data.extend_from_slice(&24u64.to_le_bytes());
    data.extend_from_slice(&(bad.len() as u64).to_le_bytes());
    let mut video = GVVideo::load(data).unwrap();
    assert_eq!(video.read_frame(0), Err(FrameError::CorruptPayload));
}

#[test]
fn too_few_block_bytes_is_insufficient_data() {
    // a 10×10 BC1 frame needs 72 bytes; this one has 64
    let frame = vec![0u8; 64];
    let mut video = GVVideo::load(build_video(10, 10, 1.0, 1, 72, &[frame.clone()])).unwrap();
    assert_eq!(video.read_frame(0), Err(FrameError::InsufficientData));
    let mut video = GVVideo::load(build_video(10, 10, 1.0, 3, 144, &[frame])).unwrap();
    assert_eq!(video.read_frame(0), Err(FrameError::InsufficientData));
}

#[test]
fn frame_too_large_to_hold_fails_to_decode() {
    let mut video =
        GVVideo::load(build_video(u32::MAX, u32::MAX, 1.0, 1, 0, &[vec![1, 2, 3]])).unwrap();
    assert_eq!(video.read_frame(0), Err(FrameError::DecodeFailure));
    assert_eq!(video.read_frame_compressed(0), Err(FrameError::DecodeFailure));
}

#[test]
fn bc2_and_bc3_frames_match_the_reference_decoder() {
    let mut blocks = Vec::new();
    for t in 0..9u32 {
        for k in 0..16u32 {
            blocks.push(((t * 53 + k * 29 + 7) % 256) as u8);
        }
    }
    for (code, format) in [(3u32, GVFormat::DXT3), (5, GVFormat::DXT5), (7, GVFormat::BC7)] {
        let mut video =
            GVVideo::load(build_video(10, 10, 1.0, code, 144, &[blocks.clone()])).unwrap();
        assert_eq!(video.get_format(), format);
        let frame = video.read_frame(0).unwrap();
        let mut expected = vec![0u32; 100];
        match code {
            3 => texture2ddecoder::decode_bc2(&blocks, 10, 10, &mut expected).unwrap(),
            5 => texture2ddecoder::decode_bc3(&blocks, 10, 10, &mut expected).unwrap(),
            _ => texture2ddecoder::decode_bc7(&blocks, 10, 10, &mut expected).unwrap(),
        }
        assert_eq!(frame, expected);
        assert!(frame.iter().any(|&p| p != 0));
    }
}

#[test]
fn frame_ids_for_times() {
    let one = 1.0f32.to_bits();
    let thirty = 30.0f32.to_bits();
    assert_eq!(frame_id_for_time(one, 3, 500_000_000), 3);
    assert_eq!(frame_id_for_time(one, 4, 999_999_999), 4);
    assert_eq!(frame_id_for_time(one, 5, 0), 5);
    assert_eq!(frame_id_for_time(thirty, 1, 0), 30);
    assert_eq!(frame_id_for_time(thirty, 0, 33_333_333), 0);
    assert_eq!(frame_id_for_time(thirty, 0, 33_333_334), 1);
    assert_eq!(frame_id_for_time(0.5f32.to_bits(), 3, 0), 1);
    // 29.97f32 is 29.96999931...; a hundred seconds of it is 2996.99993... frames
    assert_eq!(frame_id_for_time(29.97f32.to_bits(), 100, 0), 2996);
    assert_eq!(frame_id_for_time(1e30f32.to_bits(), 1, 0), u32::MAX);
    assert_eq!(frame_id_for_time(0.0f32.to_bits(), 1000, 0), 0);
    assert_eq!(frame_id_for_time((-1.0f32).to_bits(), 10, 0), 0);
    assert_eq!(frame_id_for_time(f32::NAN.to_bits(), 10, 0), 0);
    assert_eq!(frame_id_for_time(f32::INFINITY.to_bits(), 10, 0), u32::MAX);
    assert_eq!(frame_id_for_time(f32::INFINITY.to_bits(), 0, 0), 0);
    assert_eq!(frame_id_for_time(f32::from_bits(1).to_bits(), u64::MAX, 999_999_999), 0);
}

#[test]
fn error_messages() {
    assert_eq!(FrameError::EndOfVideo.message(), "End of video");
    assert_eq!(FrameError::SeekFailure.message(), "Error seeking frame data");
    assert_eq!(FrameError::ShortRead.message(), "Error reading frame data");
    assert_eq!(FrameError::InsufficientData.message(), "Not enough data to decode image!");
    assert_eq!(FrameError::BufferTooSmall.message(), "Image buffer is too small!");
}

#[test]
fn zero_index_records_are_malformed() {
    // header, then one record of (0, 0)
    let mut data = build_video(4, 4, 1.0, 1, 8, &[]);
    data[8] = 1;
    data.extend_from_slice(&0u64.to_le_bytes());
    data.extend_from_slice(&0u64.to_le_bytes());
    assert_eq!(data.len(), 40);
    assert_eq!(GVVideo::load(data).err(), Some(LoadError::MalformedIndex));

    // a record with a zero size among good ones
    let mut data = video_10px();
    let len = data.len();
    for b in &mut data[len - 8..] {
        *b = 0;
    }
    assert_eq!(GVVideo::load(data).err(), Some(LoadError::MalformedIndex));

    // a record with a zero address
    let mut data = video_10px();
    let len = data.len();
    for b in &mut data[len - 32..len - 24] {
        *b = 0;
    }
    assert_eq!(GVVideo::load(data).err(), Some(LoadError::MalformedIndex));
}

#[test]
fn end_of_video_leaves_the_read_position() {
    let mut video = GVVideo::load(video_10px()).unwrap();
    video.read_frame(2).unwrap();
    let position = video.reader.position;
    assert_eq!(video.read_frame(5), Err(FrameError::EndOfVideo));
    assert_eq!(video.read_frame_compressed(9), Err(FrameError::EndOfVideo));
    assert_eq!(at(&mut video, 7.0), Err(FrameError::EndOfVideo));
    assert_eq!(video.read_frame_compressed_at(5, 0), Err(FrameError::EndOfVideo));
    assert_eq!(video.reader.position, position);
}

/// A BC3 tile: alpha endpoints `a0`, `a1` with every pixel on `a0`, and one BC1 colour.
fn bc3_tile(a0: u8, a1: u8, c565: u16) -> Vec<u8> {
    let mut t = vec![a0, a1, 0, 0, 0, 0, 0, 0];
    t.extend(solid_bc1(c565));
    t
}

#[test]
fn check_alpha_on_a_bc3_frame() {
    // 8×4 pixels: a green tile with alpha 0x82, then a white one with alpha 0xE4
    let blocks: Vec<u8> = [bc3_tile(0x82, 0x10, GREEN), bc3_tile(0xE4, 0x00, 0xFFFF)].concat();
    let mut video = GVVideo::load(build_video(8, 4, 1.0, 5, 128, &[blocks.clone()])).unwrap();
    let frame = video.read_frame(0).unwrap();
    assert_eq!(frame.len(), 32);
    assert_eq!(frame[0], 0x8200FF00);
    assert_eq!(frame[3 + 3 * 8], 0x8200FF00);
    assert_eq!(frame[4], 0xE4FFFFFF);
    assert_eq!(get_rgba_from_frame(&frame, 1, 2, 8), RGBAColor { r: 0, g: 255, b: 0, a: 130 });
    assert_eq!(get_rgba_from_frame(&frame, 7, 3, 8), RGBAColor { r: 255, g: 255, b: 255, a: 228 });
    let mut expected = vec![0u32; 32];
    texture2ddecoder::decode_bc3(&blocks, 8, 4, &mut expected).unwrap();
    assert_eq!(frame, expected);
}

#[test]
fn index_can_be_read_apart_from_the_file() {
    let data = video_10px();
    let header = gv_video::read_header(&data[..24]).unwrap();
    let start = gv_video::index_start(data.len() as u64, header.frame_count).unwrap() as usize;
    assert_eq!(start, data.len() - 80);
    let index = gv_video::parse_index(&data[start..], header.frame_count).unwrap();
    let video = GVVideo::load(data.clone()).unwrap();
    assert_eq!(index, video.address_size_blocks);
    assert_eq!(gv_video::index_start(79, 5), None);
    assert_eq!(gv_video::parse_index(&data[start + 1..], 5), Err(LoadError::MalformedIndex));
    let record = gv_video::frame_record(&header, &index, 3).unwrap();
    let payload = &data[record.address as usize..(record.address + record.size) as usize];
    let mut by_file = GVVideo::load(data.clone()).unwrap();
    assert_eq!(header.decode_frame(payload).unwrap(), by_file.read_frame(3).unwrap());
    assert_eq!(gv_video::frame_record(&header, &index, 5), Err(FrameError::EndOfVideo));
}
