use mpeg_ox::bits::BitReader;
use mpeg_ox::decoder::{
    advance_to_next_start_code, block_set, dequantize, next_start_code, Container, MpegDecoder,
};
use mpeg_ox::error::MpegError;
use mpeg_ox::frame::{clamp, Frame};
use mpeg_ox::headers::{
    is_packet_start_code, is_slice_start_code, is_start_code, is_video_layer_start_code, GroupOfPictures,
    PictureHeader, SequenceHeader,
};
use mpeg_ox::system::{iso11172_stream, parse_pack, MpegVideoStream, Packet};

/// A 16x16 intra picture with one slice of one macroblock whose six blocks
/// hold only a DC term equal to the predictor (128).
fn tiny_video_stream() -> Vec<u8> {
    let mut v = vec![0x00, 0x00, 0x01, 0xB3, 0x01, 0x00, 0x10, 0x12, 0xFF, 0xFF, 0xE0, 0x18];
    v.extend_from_slice(&[0x00, 0x00, 0x01, 0xB8, 0x00, 0x08, 0x00, 0x00]);
    v.extend_from_slice(&[0x00, 0x00, 0x01, 0x00, 0x00, 0x0F, 0xFF, 0xF8]);
    v.extend_from_slice(&[0x00, 0x00, 0x01, 0x01, 0x0B, 0x94, 0xA5, 0x22, 0x20]);
    v.extend_from_slice(&[0x00, 0x00, 0x01, 0xB7]);
    v
}

#[test]
fn sequence_header_sizes() {
    let h = SequenceHeader::new([0xA0, 0xF0, 0xA0, 0x13, 0xFF, 0xFF, 0xFF, 0xFF]);
    assert_eq!(h.hsize(), 2575);
    // ((0xF0 & 0x0F) << 8) | 0xA0
    assert_eq!(h.vsize(), 160);
    let h = SequenceHeader::new([0xA0, 0xFF, 0xA0, 0x13, 0xFF, 0xFF, 0xFF, 0xFF]);
    assert_eq!(h.vsize(), 4000);
    assert_eq!(h.aspect_ratio_code(), 1);
    assert_eq!(h.frame_rate_code(), 3);
    assert_eq!(h.aspect_ratio_str(), Some("1:1"));
}

#[test]
fn sequence_header_parsed_twice_is_the_same() {
    let raw = [0x16, 0x00, 0xF0, 0x24, 0xFF, 0xFF, 0xE0, 0x18];
    let a = SequenceHeader::new(raw);
    let b = SequenceHeader::new(raw);
    assert_eq!(a.hsize(), b.hsize());
    assert_eq!(a.vsize(), b.vsize());
    assert_eq!(a.hsize(), 352);
    assert_eq!(a.vsize(), 240);
    assert_eq!(a.aspect_ratio_str(), Some("4:3"));
    let c = SequenceHeader::new([0, 0, 0, 0xF0, 0, 0, 0, 0]);
    assert_eq!(c.aspect_ratio_str(), None);
}

#[test]
fn group_of_pictures_time_code() {
    // hour 1, minute 2, marker, second 3, frame 4
    let g = GroupOfPictures::new([0b0000_0100, 0b0010_1000, 0b0110_0010, 0b0000_0000]);
    assert_eq!(g.hour(), 1);
    assert_eq!(g.min(), 2);
    assert_eq!(g.sec(), 3);
    assert_eq!(g.frame(), 4);
}

#[test]
fn picture_header_fields() {
    let p = PictureHeader::new([0x01, 0x50, 0xFF, 0xF8]);
    assert_eq!(p.sequence_nr(), 5);
    assert_eq!(p.frame_type(), 2);
}

#[test]
fn start_code_predicates() {
    assert!(is_start_code(&[0, 0, 1, 0xB3], 0xB3));
    assert!(!is_start_code(&[0, 1, 1, 0xB3], 0xB3));
    assert!(is_slice_start_code(&[0, 0, 1, 0x01]));
    assert!(is_slice_start_code(&[0, 0, 1, 0xAF]));
    assert!(!is_slice_start_code(&[0, 0, 1, 0xB0]));
    assert!(!is_slice_start_code(&[0, 0, 1, 0x00]));
    assert!(is_video_layer_start_code(&[0, 0, 1, 0xB8]));
    assert!(!is_video_layer_start_code(&[0, 0, 1, 0xB9]));
    assert!(is_packet_start_code(&[0, 0, 1, 0xBC]));
    assert!(!is_packet_start_code(&[0, 0, 1, 0xBB]));
}

#[test]
fn scanning_for_start_codes() {
    let mut r = BitReader::new(vec![0xFF, 0x00, 0x00, 0x01, 0xB5, 0x00, 0x00, 0x01, 0x02]);
    assert_eq!(next_start_code(&mut r).unwrap(), 0xB5);
    assert_eq!(r.position_in_bits(), 8);
    assert_eq!(advance_to_next_start_code(&mut r), Ok(()));
    assert_eq!(r.position_in_bits(), 8);
    r.pos = 40;
    assert_eq!(advance_to_next_start_code(&mut r), Ok(()));
    assert_eq!(r.position_in_bits(), 40);
    let mut r = BitReader::new(vec![0x00, 0x00, 0x02, 0x00]);
    assert_eq!(next_start_code(&mut r), Err(MpegError::UnexpectedEof));
}

#[test]
fn clamp_limits() {
    assert_eq!(clamp(-5), 0);
    assert_eq!(clamp(0), 0);
    assert_eq!(clamp(200), 200);
    assert_eq!(clamp(255), 255);
    assert_eq!(clamp(256), 255);
}

#[test]
fn dequantization() {
    assert_eq!(dequantize(1, 1, 0), 1);
    // 2 * 3 * 2 * 16 >> 4 = 12, made odd towards zero
    assert_eq!(dequantize(3, 2, 1), 11);
    assert_eq!(dequantize(-3, 2, 1), -11);
    assert_eq!(dequantize(0, 5, 1), 0);
    assert_eq!(dequantize(255, 31, 63), 2047);
    assert_eq!(dequantize(-256, 31, 63), -2048);
}

#[test]
fn block_set_places_rows() {
    let mut dest = vec![7u8; 16 * 9];
    let mut op = [0u8; 64];
    for i in 0..64 {
        op[i] = i as u8;
    }
    block_set(&mut dest, 17, 16, &op);
    assert_eq!(dest[16], 7);
    assert_eq!(dest[17], 0);
    assert_eq!(dest[24], 7);
    assert_eq!(dest[17 + 16 * 7 + 7], 63);
    assert_eq!(dest[17 + 16 + 3], 11);
}

#[test]
fn frame_planes_cover_macroblocks() {
    let f = Frame::new(17, 10);
    assert_eq!(f.y.width, 32);
    assert_eq!(f.y.height, 16);
    assert_eq!(f.cb.width, 16);
    assert_eq!(f.cr.height, 8);
    assert_eq!(f.y.data.len(), 32 * 16);
}

#[test]
fn color_conversion() {
    let mut f = Frame::new(2, 2);
    for v in f.y.data.iter_mut() {
        *v = 235;
    }
    f.cb.data[0] = 128;
    f.cr.data[0] = 255;
    let rgb = f.to_rgb();
    assert_eq!(rgb.len(), 2 * 2 * 3);
    assert_eq!(&rgb[0..3], &[255, 151, 254]);
    assert_eq!(&rgb[9..12], &[255, 151, 254]);
}

#[test]
fn odd_sizes_leave_last_column_black() {
    let mut f = Frame::new(3, 2);
    for v in f.y.data.iter_mut() {
        *v = 128;
    }
    for v in f.cb.data.iter_mut() {
        *v = 128;
    }
    for v in f.cr.data.iter_mut() {
        *v = 128;
    }
    let rgb = f.to_rgb();
    assert_eq!(rgb.len(), 3 * 2 * 3);
    assert_eq!(&rgb[0..3], &[130, 130, 130]);
    assert_eq!(&rgb[6..9], &[0, 0, 0]);
}

#[test]
fn container_geometry() {
    let c = Container::new(33, 17);
    assert_eq!(c.mb_width, 3);
    assert_eq!(c.mb_height, 2);
    assert_eq!(c.mb_size, 6);
    assert_eq!(c.mb_addr, -1);
}

#[test]
fn decode_tiny_intra_picture() {
    let mut d = MpegDecoder::new(tiny_video_stream());
    let p = d.next_picture().unwrap().unwrap();
    assert_eq!(p.width, 16);
    assert_eq!(p.height, 16);
    assert_eq!(p.rgb.len(), 16 * 16 * 3);
    assert!(p.rgb.iter().all(|v| *v == 130));
    assert!(d.next_picture().unwrap().is_none());
}

#[test]
fn slice_decode_ends_before_next_start_code() {
    let v = tiny_video_stream();
    let mut r = BitReader::new(v);
    r.pos = 28 * 8;
    let mut c = Container::new(16, 16);
    c.parse_slice(&mut r, 1).unwrap();
    assert_eq!(c.mb_addr, 0);
    assert_eq!(c.quantizer_scale, 1);
    assert_eq!(r.position_in_bits(), 37 * 8);
    assert!(c.frame.y.data.iter().all(|v| *v == 128));
}

#[test]
fn slice_with_zero_quantizer_is_malformed() {
    let mut r = BitReader::new(vec![0x00, 0x00, 0x01, 0x01, 0x00, 0x00, 0x00, 0x00]);
    let mut c = Container::new(16, 16);
    assert_eq!(c.parse_slice(&mut r, 1), Err(MpegError::Format));
}

#[test]
fn picture_without_sequence_header_is_malformed() {
    let v = tiny_video_stream();
    let mut d = MpegDecoder::new(v[20..].to_vec());
    assert_eq!(d.next_picture().err(), Some(MpegError::Format));
}

#[test]
fn zero_size_sequence_header_is_malformed() {
    let mut d = MpegDecoder::new(vec![0x00, 0x00, 0x01, 0xB3, 0x00, 0x00, 0x10, 0x12, 0xFF, 0xFF, 0xE0, 0x18]);
    assert_eq!(d.next_picture().err(), Some(MpegError::Format));
}

#[test]
fn test_parse_picture() {
    let mut buf: Vec<u8> = vec![0x00, 0x00, 0x01, 0x00];
    buf.extend(&[0, 0, 0, 0, 0, 0, 0, 0]);
    let mut d = MpegDecoder::new(buf);
    assert_eq!(d.parse_picture().err(), Some(MpegError::UnexpectedEof));
}

#[test]
fn non_intra_picture_is_skipped_to_next_boundary() {
    // a predicted picture, a slice of it, then a group of pictures
    let mut buf: Vec<u8> = vec![0x00, 0x00, 0x01, 0x00, 0x00, 0x10, 0xFF, 0xF8];
    buf.extend(&[0x00, 0x00, 0x01, 0x01, 0xAA, 0x00, 0x01]);
    buf.extend(&[0x00, 0x00, 0x01, 0xB8, 0x00, 0x08, 0x00, 0x00]);
    let mut d = MpegDecoder::new(buf);
    assert!(d.parse_picture().unwrap().is_none());
    assert_eq!(d.reader.position_in_bits(), 15 * 8);
}

#[test]
fn non_intra_pictures_yield_nothing() {
    let mut buf: Vec<u8> = vec![0x00, 0x00, 0x01, 0xB3, 0x01, 0x00, 0x10, 0x12, 0xFF, 0xFF, 0xE0, 0x18];
    buf.extend(&[0x00, 0x00, 0x01, 0x00, 0x00, 0x10, 0xFF, 0xF8]);
    buf.extend(&[0x00, 0x00, 0x01, 0x01, 0xAA, 0x00, 0x01]);
    let mut d = MpegDecoder::new(buf);
    assert_eq!(d.next_picture().err(), Some(MpegError::UnexpectedEof));
}

fn program_stream(video: &[u8]) -> Vec<u8> {
    let mut s = vec![0x00, 0x00, 0x01, 0xBA, 0x21, 0x00, 0x01, 0x00, 0x01, 0x80, 0x00, 0x01];
    // system header of three bytes
    s.extend(&[0x00, 0x00, 0x01, 0xBB, 0x00, 0x03, 0x80, 0x00, 0x01]);
    // an audio packet, with stuffing and a time stamp
    s.extend(&[0x00, 0x00, 0x01, 0xC0, 0x00, 0x09, 0xFF, 0xFF, 0x21, 0x00, 0x01, 0x00, 0x01, 0x55, 0x66]);
    // the video packet: buffer size, then no time stamp
    let len = (video.len() + 3) as u16;
    s.extend(&[0x00, 0x00, 0x01, 0xE0, (len >> 8) as u8, len as u8, 0x60, 0x00, 0x0F]);
    s.extend_from_slice(video);
    s
}

#[test]
fn demux_then_decode() {
    let video = tiny_video_stream();
    let ps = program_stream(&video);
    let mut data = vec![];
    assert_eq!(iso11172_stream(&ps, &mut data), Err(MpegError::UnexpectedEof));
    assert_eq!(data, video);
    let vs = MpegVideoStream::new(&ps).unwrap();
    let mut d = MpegDecoder::new(vs.data);
    let p = d.next_picture().unwrap().unwrap();
    assert_eq!(p.rgb.len(), 16 * 16 * 3);
}

#[test]
fn demux_two_packs() {
    let mut ps = program_stream(&[1, 2, 3]);
    ps.extend(program_stream(&[4, 5]));
    let mut data = vec![9];
    assert_eq!(iso11172_stream(&ps, &mut data), Err(MpegError::UnexpectedEof));
    assert_eq!(data, vec![9, 1, 2, 3, 4, 5]);
}

#[test]
fn demux_requires_pack_start_code() {
    let mut data = vec![];
    assert_eq!(iso11172_stream(&vec![0x00, 0x00, 0x01, 0xB3, 0, 0], &mut data), Err(MpegError::Format));
    assert!(data.is_empty());
    assert_eq!(MpegVideoStream::new(&vec![0x00, 0x00, 0x01, 0xB3]).err(), Some(MpegError::Format));
}

#[test]
fn packet_header_variants() {
    // stuffing, then PTS and DTS
    let mut s = vec![0x00, 0x0C, 0xFF, 0x31];
    s.extend(&[0; 9]);
    s.push(0xAB);
    let mut pos = 0usize;
    let p = Packet::parse(&s, &mut pos, 0xE0).unwrap();
    assert_eq!(p.data, vec![0xAB]);
    assert_eq!(pos, 14);
    // PTS only
    let s = vec![0x00, 0x06, 0x21, 0, 0, 0, 0, 0xCD];
    let mut pos = 0usize;
    assert_eq!(Packet::parse(&s, &mut pos, 0xE0).unwrap().data, vec![0xCD]);
    // all stuffing
    let s = vec![0x00, 0x02, 0xFF, 0xFF];
    let mut pos = 0usize;
    assert_eq!(Packet::parse(&s, &mut pos, 0xE0).err(), Some(MpegError::Format));
    // body shorter than its length
    let s = vec![0x00, 0x05, 0x0F];
    let mut pos = 0usize;
    assert_eq!(Packet::parse(&s, &mut pos, 0xE0).err(), Some(MpegError::UnexpectedEof));
}

#[test]
fn parse_pack_stops_before_next_pack() {
    let first = program_stream(&[1, 2, 3]);
    let mut ps = first.clone();
    ps.extend(program_stream(&[4, 5]));
    let mut data = vec![];
    let mut pos = 4usize;
    assert_eq!(parse_pack(&ps, &mut pos, &mut data), Ok(()));
    assert_eq!(pos, first.len());
    assert_eq!(data, vec![1, 2, 3]);
}

#[test]
fn macroblock_stuffing_leaves_picture_unchanged() {
    // slice 1, quantizer 1, no extra information, then the stuffing code
    let mut r = BitReader::new(vec![0x00, 0x00, 0x01, 0x01, 0x08, 0x04, 0x00, 0x00, 0x00, 0x00]);
    let mut c = Container::new(16, 16);
    assert_eq!(c.parse_slice(&mut r, 1), Err(MpegError::Unsupported));
    assert!(c.frame.y.data.iter().all(|v| *v == 0));
}
