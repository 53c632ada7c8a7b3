//! A big-endian, bit-addressable reader over an in-memory byte buffer.
use vstd::prelude::*;
use vstd::arithmetic::power2::pow2;

use crate::error::MpegError;

verus! {

/// Bit `i` of `data`, counting the most significant bit of each byte first.
pub open spec fn bit_at(data: Seq<u8>, i: int) -> nat {
    ((data[i / 8] as nat) / pow2((7 - i % 8) as nat)) % 2
}

/// The unsigned number formed by the `n` bits of `data` starting at bit `pos`,
/// most significant bit first.
pub open spec fn bits_value(data: Seq<u8>, pos: int, n: nat) -> nat
    decreases n,
{
    if n == 0 {
        0
    } else {
        2 * bits_value(data, pos, (n - 1) as nat) + bit_at(data, pos + n - 1)
    }
}

pub proof fn lemma_bits_value_bound(data: Seq<u8>, pos: int, n: nat)
    ensures
        bits_value(data, pos, n) < pow2(n),
    decreases n,
{
    if n > 0 {
        lemma_bits_value_bound(data, pos, (n - 1) as nat);
        vstd::arithmetic::power2::lemma_pow2_unfold(n);
    } else {
        vstd::arithmetic::power2::lemma2_to64();
    }
}

/// Relies on bitstream_io's big-endian `BitReader` over an in-memory cursor:
/// `seek_bits` to bit `pos`, then `BitRead::read` of `n` bits returns them
/// most significant bit first. Seeking past the end succeeds; the read (or the
/// skip inside the seek) fails when fewer than `n` bits remain after `pos`.
#[verifier::external_body]
fn read_bits_at(data: &[u8], pos: u64, n: u32) -> (r: Option<u32>)
    requires
        1 <= n <= 32,
    ensures
        r == (if pos + n <= 8 * data@.len() {
            Some(bits_value(data@, pos as int, n as nat) as u32)
        } else {
            None
        }),
{
    let mut reader = bitstream_io::BitReader::endian(std::io::Cursor::new(data), bitstream_io::BigEndian);
    reader.seek_bits(std::io::SeekFrom::Start(pos)).ok()?;
    bitstream_io::BitRead::read::<u32>(&mut reader, n).ok()
}

/// A reader positioned at some bit of a byte buffer.
pub struct BitReader {
    pub data: Vec<u8>,
    /// The position of the next bit to read.
    pub pos: u64,
}

impl BitReader {
    /// The position stays within the buffer, and every bit position fits in a `u64`.
    pub open spec fn wf(&self) -> bool {
        &&& 8 * self.data@.len() <= u64::MAX
        &&& self.pos <= 8 * self.data@.len()
    }

    /// Number of bits in the buffer.
    pub open spec fn len_bits(&self) -> int {
        8 * self.data@.len() as int
    }

    pub fn new(data: Vec<u8>) -> (r: BitReader)
        requires
            8 * data@.len() <= u64::MAX,
        ensures
            r.wf(),
            r.data@ == data@,
            r.pos == 0,
    {
        BitReader { data, pos: 0 }
    }

    pub fn position_in_bits(&self) -> (r: u64)
        ensures
            r == self.pos,
    {
        self.pos
    }

    pub fn byte_aligned(&self) -> (r: bool)
        ensures
            r == (self.pos % 8 == 0),
    {
        self.pos % 8 == 0
    }

    /// Number of bits left to read.
    pub fn remaining_bits(&self) -> (r: u64)
        requires
            self.wf(),
        ensures
            r == self.len_bits() - self.pos,
    {
        (self.data.len() as u64) * 8 - self.pos
    }

    /// The next `n` bits as a number, without moving.
    pub fn peek_bits(&self, n: u32) -> (r: Result<u32, MpegError>)
        requires
            self.wf(),
            1 <= n <= 32,
        ensures
            r == (if self.pos + n <= self.len_bits() {
                Ok::<u32, MpegError>(bits_value(self.data@, self.pos as int, n as nat) as u32)
            } else {
                Err(MpegError::UnexpectedEof)
            }),
    {
        match read_bits_at(self.data.as_slice(), self.pos, n) {
            Some(v) => Ok(v),
            None => Err(MpegError::UnexpectedEof),
        }
    }

    /// Reads the next `n` bits as a number; at the end of the buffer nothing moves.
    pub fn read_bits(&mut self, n: u32) -> (r: Result<u32, MpegError>)
        requires
            old(self).wf(),
            1 <= n <= 32,
        ensures
            final(self).wf(),
            final(self).data@ == old(self).data@,
            old(self).pos + n <= old(self).len_bits() ==> {
                &&& r == Ok::<u32, MpegError>(bits_value(old(self).data@, old(self).pos as int, n as nat) as u32)
                &&& final(self).pos == old(self).pos + n
            },
            old(self).pos + n > old(self).len_bits() ==> {
                &&& r == Err::<u32, MpegError>(MpegError::UnexpectedEof)
                &&& final(self).pos == old(self).pos
            },
    {
        let v = self.peek_bits(n)?;
        self.pos = self.pos + n as u64;
        Ok(v)
    }

    /// Reads one bit.
    pub fn read_bit(&mut self) -> (r: Result<u32, MpegError>)
        requires
            old(self).wf(),
        ensures
            final(self).wf(),
            final(self).data@ == old(self).data@,
            old(self).pos < old(self).len_bits() ==> {
                &&& r == Ok::<u32, MpegError>(bit_at(old(self).data@, old(self).pos as int) as u32)
                &&& final(self).pos == old(self).pos + 1
            },
            old(self).pos >= old(self).len_bits() ==> {
                &&& r == Err::<u32, MpegError>(MpegError::UnexpectedEof)
                &&& final(self).pos == old(self).pos
            },
    {
        proof {
            reveal_with_fuel(bits_value, 2);
        }
        self.read_bits(1)
    }

    /// Skips to the next byte boundary, discarding up to seven bits.
    pub fn align_to_byte(&mut self)
        requires
            old(self).wf(),
        ensures
            final(self).wf(),
            final(self).data@ == old(self).data@,
            final(self).pos % 8 == 0,
            old(self).pos <= final(self).pos < old(self).pos + 8,
    {
        if self.pos % 8 != 0 {
            self.pos = self.pos + (8 - self.pos % 8);
        }
    }
}

} // verus!
