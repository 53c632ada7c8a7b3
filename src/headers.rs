//! Start codes and the fixed-size headers of the video layer.
use vstd::prelude::*;

verus! {

pub const PACK_START_CODE: u8 = 0xBA;
pub const SYSTEM_HEADER_START_CODE: u8 = 0xBB;
pub const PACKET_START_CODE: u8 = 0xBC;
pub const VIDEO_STREAM_0_START_CODE: u8 = 0xE0;
pub const GROUP_OF_PICTURES_START_VALUE: u8 = 0xB8;
pub const SEQUENCE_HEADER_START_VALUE: u8 = 0xB3;
pub const PICTURE_START_VALUE: u8 = 0x00;
pub const START_EXTENSION: u8 = 0xB5;
pub const START_USER_DATA: u8 = 0xB2;
pub const FRAME_TYPE_I: u8 = 0b001;

/// The four bytes at byte `j` of `data`.
pub open spec fn code_at(data: Seq<u8>, j: int) -> Seq<u8> {
    data.subrange(j, j + 4)
}

/// The prefix `00 00 01` shared by all start codes.
pub open spec fn has_prefix(b: Seq<u8>) -> bool {
    b[0] == 0 && b[1] == 0 && b[2] == 1
}

pub fn is_any_start_code(b: &[u8; 4]) -> (r: bool)
    ensures
        r == has_prefix(b@),
{
    b[0] == 0 && b[1] == 0 && b[2] == 1
}

pub fn is_start_code(b: &[u8; 4], code: u8) -> (r: bool)
    ensures
        r == (has_prefix(b@) && b@[3] == code),
{
    b[0] == 0 && b[1] == 0 && b[2] == 1 && b[3] == code
}

/// A start code of the video layer: picture, slice, sequence or group (`00`..=`B8`).
pub open spec fn is_video_layer_code(b: Seq<u8>) -> bool {
    has_prefix(b) && b[3] <= GROUP_OF_PICTURES_START_VALUE
}

pub fn is_video_layer_start_code(b: &[u8; 4]) -> (r: bool)
    ensures
        r == is_video_layer_code(b@),
{
    b[0] == 0 && b[1] == 0 && b[2] == 1 && b[3] <= GROUP_OF_PICTURES_START_VALUE
}

/// A packet start code of the system layer: stream ids `BC` and up.
pub open spec fn is_packet_code(b: Seq<u8>) -> bool {
    has_prefix(b) && b[3] >= PACKET_START_CODE
}

pub fn is_packet_start_code(b: &[u8; 4]) -> (r: bool)
    ensures
        r == is_packet_code(b@),
{
    b[0] == 0 && b[1] == 0 && b[2] == 1 && b[3] >= PACKET_START_CODE
}

/// A slice start code: `01`..=`AF`, the slice number.
pub open spec fn is_slice_code(b: Seq<u8>) -> bool {
    has_prefix(b) && 0x01 <= b[3] <= 0xAF
}

pub fn is_slice_start_code(b: &[u8; 4]) -> (r: bool)
    ensures
        r == is_slice_code(b@),
{
    b[0] == 0x0 && b[1] == 0x0 && b[2] == 0x01 && b[3] >= 0x01 && b[3] <= 0xAF
}

/// Horizontal size coded in the first twelve bits of a sequence header.
pub open spec fn hsize_of(b0: u8, b1: u8) -> int {
    b0 as int * 16 + b1 as int / 16
}

/// Vertical size coded in the next twelve bits.
pub open spec fn vsize_of(b1: u8, b2: u8) -> int {
    (b1 as int % 16) * 256 + b2 as int
}

/// The eight bytes after a sequence header start code.
pub struct SequenceHeader {
    pub raw: [u8; 8],
}

impl SequenceHeader {
    pub fn new(raw: [u8; 8]) -> (r: SequenceHeader)
        ensures
            r.raw == raw,
    {
        SequenceHeader { raw }
    }

    /// Picture width: `(b0 << 4) | (b1 >> 4)`.
    pub fn hsize(&self) -> (r: u16)
        ensures
            r == hsize_of(self.raw[0], self.raw[1]),
    {
        let hi = self.raw[0] as u16;
        let lo = (self.raw[1] / 16) as u16;
        hi * 16 + lo
    }

    /// Picture height: `((b1 & 0x0F) << 8) | b2`.
    pub fn vsize(&self) -> (r: u16)
        ensures
            r == vsize_of(self.raw[1], self.raw[2]),
    {
        ((self.raw[1] % 16) as u16) * 256 + self.raw[2] as u16
    }

    /// Index of the pixel aspect ratio, the high half of byte 3.
    pub fn aspect_ratio_code(&self) -> (r: u8)
        ensures
            r == self.raw[3] as int / 16,
    {
        self.raw[3] / 16
    }

    /// Index of the frame rate, the low half of byte 3.
    pub fn frame_rate_code(&self) -> (r: u8)
        ensures
            r == self.raw[3] as int % 16,
    {
        self.raw[3] % 16
    }

    /// Name of the aspect ratio, for the indices that have one.
    pub fn aspect_ratio_str(&self) -> (r: Option<&'static str>)
        ensures
            r == aspect_ratio_name(self.raw[3] as int / 16),
    {
        let idx = self.aspect_ratio_code();
        if idx == 0 {
            Some("")
        } else if idx == 1 {
            Some("1:1")
        } else if idx == 2 {
            Some("4:3")
        } else if idx == 3 {
            Some("16:9")
        } else if idx == 4 {
            Some("2.21:1")
        } else {
            None
        }
    }
}

/// Name of aspect ratio index `idx`: reserved indices have none.
pub open spec fn aspect_ratio_name(idx: int) -> Option<&'static str> {
    if idx == 0 {
        Some("")
    } else if idx == 1 {
        Some("1:1")
    } else if idx == 2 {
        Some("4:3")
    } else if idx == 3 {
        Some("16:9")
    } else if idx == 4 {
        Some("2.21:1")
    } else {
        None
    }
}

/// The four bytes after a group of pictures start code: its time code.
pub struct GroupOfPictures {
    pub raw: [u8; 4],
}

impl GroupOfPictures {
    pub fn new(raw: [u8; 4]) -> (r: GroupOfPictures)
        ensures
            r.raw == raw,
    {
        GroupOfPictures { raw }
    }

    /// Bits 1..6 of the time code.
    pub fn hour(&self) -> (r: u8)
        ensures
            r == (self.raw[0] as int / 4) % 32,
    {
        (self.raw[0] / 4) % 32
    }

    /// Bits 6..12.
    pub fn min(&self) -> (r: u8)
        ensures
            r == (self.raw[0] as int % 4) * 16 + self.raw[1] as int / 16,
    {
        (self.raw[0] % 4) * 16 + self.raw[1] / 16
    }

    /// Bits 13..19, after a marker bit.
    pub fn sec(&self) -> (r: u8)
        ensures
            r == (self.raw[1] as int % 8) * 8 + self.raw[2] as int / 32,
    {
        (self.raw[1] % 8) * 8 + self.raw[2] / 32
    }

    /// Bits 19..25.
    pub fn frame(&self) -> (r: u8)
        ensures
            r == (self.raw[2] as int % 32) * 2 + self.raw[3] as int / 128,
    {
        (self.raw[2] % 32) * 2 + self.raw[3] / 128
    }
}

/// The first four bytes after a picture start code.
pub struct PictureHeader {
    pub raw: [u8; 4],
}

impl PictureHeader {
    pub fn new(raw: [u8; 4]) -> (r: PictureHeader)
        ensures
            r.raw == raw,
    {
        PictureHeader { raw }
    }

    /// Temporal reference: the first ten bits.
    pub fn sequence_nr(&self) -> (r: u16)
        ensures
            r == self.raw[0] as int * 4 + self.raw[1] as int / 64,
    {
        (self.raw[0] as u16) * 4 + (self.raw[1] / 64) as u16
    }

    /// Picture coding type: 1 intra, 2 predicted, 3 bidirectional, 4 DC only.
    pub fn frame_type(&self) -> (r: u8)
        ensures
            r == (self.raw[1] as int / 8) % 8,
    {
        (self.raw[1] / 8) % 8
    }
}

/// Parsing the same sequence header bytes again yields the same parameters.
pub proof fn lemma_sequence_header_parse_deterministic(a: SequenceHeader, b: SequenceHeader)
    requires
        a.raw == b.raw,
    ensures
        hsize_of(a.raw[0], a.raw[1]) == hsize_of(b.raw[0], b.raw[1]),
        vsize_of(a.raw[1], a.raw[2]) == vsize_of(b.raw[1], b.raw[2]),
        a.raw[3] as int / 16 == b.raw[3] as int / 16,
        a.raw[3] as int % 16 == b.raw[3] as int % 16,
{
}

/// The sizes of a sequence header are read back from the three bytes that
/// code them: each byte is determined by the two sizes and the bits beside them.
pub proof fn lemma_sequence_sizes_recoverable(b0: u8, b1: u8, b2: u8)
    ensures
        0 <= hsize_of(b0, b1) < 4096,
        0 <= vsize_of(b1, b2) < 4096,
        b0 as int == hsize_of(b0, b1) / 16,
        b1 as int == (hsize_of(b0, b1) % 16) * 16 + vsize_of(b1, b2) / 256,
        b2 as int == vsize_of(b1, b2) % 256,
{
}

} // verus!
