use mpeg_ox::bits::BitReader;
use mpeg_ox::error::MpegError;
use mpeg_ox::vlc::{
    decode_dc_diff, parse_address_increment, parse_dct_dc_size, parse_macroblock_type, read_coefficient,
    read_huffman, Coefficient, VIDEO_DCT_SIZE_CHROMINANCE, VIDEO_DCT_SIZE_LUMINANCE,
    VIDEO_MACROBLOCK_ADDRESS_INCREMENT,
};

#[test]
fn test_parse_dct_dc_size_luminance() {
    let mut stream = BitReader::new(vec![0b1101_0000]);
    assert_eq!(parse_dct_dc_size(&VIDEO_DCT_SIZE_LUMINANCE, &mut stream).unwrap(), 4);
    assert_eq!(parse_dct_dc_size(&VIDEO_DCT_SIZE_LUMINANCE, &mut stream).unwrap(), 0);
    assert_eq!(parse_dct_dc_size(&VIDEO_DCT_SIZE_LUMINANCE, &mut stream).unwrap(), 1);
}

#[test]
fn dc_size_chrominance_codes() {
    // 00 -> 0, 01 -> 1, 10 -> 2, 110 -> 3
    let mut stream = BitReader::new(vec![0b0001_1011, 0b0000_0000]);
    assert_eq!(parse_dct_dc_size(&VIDEO_DCT_SIZE_CHROMINANCE, &mut stream).unwrap(), 0);
    assert_eq!(parse_dct_dc_size(&VIDEO_DCT_SIZE_CHROMINANCE, &mut stream).unwrap(), 1);
    assert_eq!(parse_dct_dc_size(&VIDEO_DCT_SIZE_CHROMINANCE, &mut stream).unwrap(), 2);
    assert_eq!(parse_dct_dc_size(&VIDEO_DCT_SIZE_CHROMINANCE, &mut stream).unwrap(), 3);
}

#[test]
fn read_bits_is_msb_first() {
    let mut r = BitReader::new(vec![0b1011_0111, 0xF0]);
    assert_eq!(r.read_bits(1).unwrap(), 1);
    assert_eq!(r.read_bits(2).unwrap(), 0b01);
    assert_eq!(r.read_bits(5).unwrap(), 0b10111);
    assert_eq!(r.position_in_bits(), 8);
    assert_eq!(r.peek_bits(4).unwrap(), 0xF);
    assert_eq!(r.read_bits(8).unwrap(), 0xF0);
    assert_eq!(r.read_bits(1), Err(MpegError::UnexpectedEof));
    assert_eq!(r.position_in_bits(), 16);
}

#[test]
fn read_bits_across_bytes() {
    let mut r = BitReader::new(vec![0x12, 0x34, 0x56, 0x78, 0x9A]);
    assert_eq!(r.read_bits(4).unwrap(), 0x1);
    assert_eq!(r.read_bits(32).unwrap(), 0x2345_6789);
    assert_eq!(r.read_bits(5), Err(MpegError::UnexpectedEof));
    assert_eq!(r.read_bits(4).unwrap(), 0xA);
}

#[test]
fn align_to_byte_discards_partial_byte() {
    let mut r = BitReader::new(vec![0xFF, 0x00]);
    r.read_bits(3).unwrap();
    assert!(!r.byte_aligned());
    r.align_to_byte();
    assert!(r.byte_aligned());
    assert_eq!(r.position_in_bits(), 8);
    r.align_to_byte();
    assert_eq!(r.position_in_bits(), 8);
}

#[test]
fn macroblock_address_increment_codes() {
    // 1 -> 1
    let mut r = BitReader::new(vec![0b1000_0000]);
    assert_eq!(parse_address_increment(&mut r, 100).unwrap(), 1);
    assert_eq!(r.position_in_bits(), 1);
    // 011 -> 2
    let mut r = BitReader::new(vec![0b0110_0000]);
    assert_eq!(parse_address_increment(&mut r, 100).unwrap(), 2);
    assert_eq!(r.position_in_bits(), 3);
    // 010 -> 3
    let mut r = BitReader::new(vec![0b0100_0000]);
    assert_eq!(parse_address_increment(&mut r, 100).unwrap(), 3);
}

#[test]
fn macroblock_address_escape_adds_33() {
    // code 34 (0000 0001 111), then 1
    let mut r = BitReader::new(vec![0b0000_0001, 0b1111_0000]);
    assert_eq!(parse_address_increment(&mut r, 100).unwrap(), 34);
    assert_eq!(r.position_in_bits(), 12);
    let mut r = BitReader::new(vec![0b0000_0001, 0b1111_0000]);
    assert_eq!(parse_address_increment(&mut r, 33), Err(MpegError::Format));
}

#[test]
fn macroblock_stuffing_is_unsupported() {
    // code 35 (0000 0001 000)
    let mut r = BitReader::new(vec![0b0000_0001, 0b0000_0000]);
    assert_eq!(parse_address_increment(&mut r, 100), Err(MpegError::Unsupported));
}

#[test]
fn address_increment_larger_than_limit_is_malformed() {
    let mut r = BitReader::new(vec![0b0100_0000]);
    assert_eq!(parse_address_increment(&mut r, 2), Err(MpegError::Format));
}

#[test]
fn illegal_code_is_malformed() {
    // 0000 000 leads to a negative branch in the address increment tree.
    let mut r = BitReader::new(vec![0b0000_0000, 0b0000_0000]);
    assert_eq!(read_huffman(&VIDEO_MACROBLOCK_ADDRESS_INCREMENT, &mut r), Err(MpegError::Format));
}

#[test]
fn huffman_at_end_of_input() {
    let mut r = BitReader::new(vec![]);
    assert_eq!(read_huffman(&VIDEO_MACROBLOCK_ADDRESS_INCREMENT, &mut r), Err(MpegError::UnexpectedEof));
    // 0000 0001 needs more bits than the input holds
    let mut r = BitReader::new(vec![0b0000_0001]);
    assert_eq!(read_huffman(&VIDEO_MACROBLOCK_ADDRESS_INCREMENT, &mut r), Err(MpegError::UnexpectedEof));
}

#[test]
fn macroblock_types_of_intra_pictures() {
    let mut r = BitReader::new(vec![0b1010_0000]);
    assert_eq!(parse_macroblock_type(&mut r).unwrap(), 0b1_0000);
    assert_eq!(parse_macroblock_type(&mut r).unwrap(), 0b1_0001);
    assert_eq!(parse_macroblock_type(&mut r), Err(MpegError::Format));
}

#[test]
fn dc_differentials() {
    assert_eq!(decode_dc_diff(0, 1), -1);
    assert_eq!(decode_dc_diff(1, 1), 1);
    assert_eq!(decode_dc_diff(5, 4), -10);
    assert_eq!(decode_dc_diff(12, 4), 12);
    assert_eq!(decode_dc_diff(0, 8), -255);
    assert_eq!(decode_dc_diff(255, 8), 255);
}

#[test]
fn coefficients_end_of_block_and_levels() {
    // 10 = end of block; 11 0 = run 0 level 1; 011 1 = run 1 level -1
    let mut r = BitReader::new(vec![0b1011_0011, 0b1000_0000]);
    assert_eq!(read_coefficient(&mut r).unwrap(), Coefficient::EndOfBlock);
    assert_eq!(read_coefficient(&mut r).unwrap(), Coefficient::Level { run: 0, level: 1 });
    assert_eq!(read_coefficient(&mut r).unwrap(), Coefficient::Level { run: 1, level: -1 });
}

#[test]
fn coefficient_escape_codes() {
    // 0000 01, run 000011, level 0000_0101
    let mut r = BitReader::new(vec![0b0000_0100, 0b0011_0000, 0b0101_0000]);
    assert_eq!(read_coefficient(&mut r).unwrap(), Coefficient::Level { run: 3, level: 5 });
    // level byte 1000_0000 extended by 0000_0001: 1 - 256
    let mut r = BitReader::new(vec![0b0000_0100, 0b0000_1000, 0b0000_0000, 0b0001_0000]);
    assert_eq!(read_coefficient(&mut r).unwrap(), Coefficient::Level { run: 0, level: -255 });
    // level byte 1111_1111: -1
    let mut r = BitReader::new(vec![0b0000_0100, 0b0000_1111, 0b1111_0000]);
    assert_eq!(read_coefficient(&mut r).unwrap(), Coefficient::Level { run: 0, level: -1 });
}
