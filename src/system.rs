//! The system layer: demultiplexing packs and packets of a program stream
//! into the payload of video stream 0.
use vstd::prelude::*;

use crate::error::MpegError;
use crate::headers::{
    code_at, has_prefix, is_packet_code, is_packet_start_code, is_start_code, PACK_START_CODE,
    SYSTEM_HEADER_START_CODE, VIDEO_STREAM_0_START_CODE,
};

verus! {

/// A big-endian 16-bit number.
pub open spec fn be16(hi: u8, lo: u8) -> int {
    hi as int * 256 + lo as int
}

/// Index of the first byte at or after `i` that is not stuffing (`0xFF`).
pub open spec fn stuffing_end(body: Seq<u8>, i: int) -> int
    decreases body.len() - i,
{
    if 0 <= i < body.len() && body[i] == 0xFF {
        stuffing_end(body, i + 1)
    } else {
        i
    }
}

/// Length of the header at the start of a packet body: stuffing, then two
/// bytes of buffer size where bit 6 is set, then ten bytes of time stamps
/// where bits 5 and 4 are both set, five where only bit 5 is, else one byte.
/// `None` where the header does not fit in the body.
pub open spec fn packet_header_len(body: Seq<u8>) -> Option<int> {
    let i = stuffing_end(body, 0);
    if i >= body.len() {
        None
    } else {
        let j = if (body[i] as int / 64) % 2 == 1 { i + 2 } else { i };
        if j >= body.len() {
            None
        } else {
            let t = (body[j] as int / 16) % 4;
            let k = if t == 3 { j + 10 } else if t == 2 { j + 5 } else { j + 1 };
            if k > body.len() {
                None
            } else {
                Some(k)
            }
        }
    }
}

/// The program stream `s` read from byte `pos`: the concatenated payload of
/// video stream 0, and the error that ends it. With `in_packets` false a pack
/// start code is expected at `pos`, followed by the 8-byte pack header and
/// possibly a system header; then packets follow while their start codes do.
pub open spec fn demux(s: Seq<u8>, pos: int, in_packets: bool) -> (Seq<u8>, MpegError)
    decreases s.len() - pos, (if in_packets { 1int } else { 0int }),
{
    if pos < 0 || pos + 4 > s.len() {
        (seq![], MpegError::UnexpectedEof)
    } else if in_packets {
        if !is_packet_code(code_at(s, pos)) {
            demux(s, pos, false)
        } else if pos + 6 > s.len() {
            (seq![], MpegError::UnexpectedEof)
        } else {
            let end = pos + 6 + be16(s[pos + 4], s[pos + 5]);
            if end > s.len() {
                (seq![], MpegError::UnexpectedEof)
            } else {
                match packet_header_len(s.subrange(pos + 6, end)) {
                    None => (seq![], MpegError::Format),
                    Some(h) => {
                        let payload = if s[pos + 3] == VIDEO_STREAM_0_START_CODE {
                            s.subrange(pos + 6 + h, end)
                        } else {
                            seq![]
                        };
                        let rest = demux(s, end, true);
                        (payload + rest.0, rest.1)
                    },
                }
            }
        }
    } else if !(has_prefix(code_at(s, pos)) && s[pos + 3] == PACK_START_CODE) {
        (seq![], MpegError::Format)
    } else if pos + 16 > s.len() {
        (seq![], MpegError::UnexpectedEof)
    } else if has_prefix(code_at(s, pos + 12)) && s[pos + 15] == SYSTEM_HEADER_START_CODE {
        if pos + 18 > s.len() {
            (seq![], MpegError::UnexpectedEof)
        } else {
            let next = pos + 18 + be16(s[pos + 16], s[pos + 17]);
            if next > s.len() {
                (seq![], MpegError::UnexpectedEof)
            } else {
                demux(s, next, true)
            }
        }
    } else {
        demux(s, pos + 12, true)
    }
}

/// The packets of one pack from byte `pos`, while their start codes follow:
/// the concatenated payload of video stream 0, and either the byte of the
/// first start code that is not a packet's or the error that stops them.
pub open spec fn packets_spec(s: Seq<u8>, pos: int) -> (Seq<u8>, Result<int, MpegError>)
    decreases s.len() - pos,
{
    if pos < 0 || pos + 4 > s.len() {
        (seq![], Err(MpegError::UnexpectedEof))
    } else if !is_packet_code(code_at(s, pos)) {
        (seq![], Ok(pos))
    } else if pos + 6 > s.len() {
        (seq![], Err(MpegError::UnexpectedEof))
    } else {
        let end = pos + 6 + be16(s[pos + 4], s[pos + 5]);
        if end > s.len() {
            (seq![], Err(MpegError::UnexpectedEof))
        } else {
            match packet_header_len(s.subrange(pos + 6, end)) {
                None => (seq![], Err(MpegError::Format)),
                Some(h) => {
                    let payload = if s[pos + 3] == VIDEO_STREAM_0_START_CODE {
                        s.subrange(pos + 6 + h, end)
                    } else {
                        seq![]
                    };
                    let rest = packets_spec(s, end);
                    (payload + rest.0, rest.1)
                },
            }
        }
    }
}

/// One pack whose start code is at byte `pos`: its 8-byte header, an optional
/// system header (skipped whole), then its packets.
pub open spec fn pack_spec(s: Seq<u8>, pos: int) -> (Seq<u8>, Result<int, MpegError>) {
    if pos + 16 > s.len() {
        (seq![], Err(MpegError::UnexpectedEof))
    } else if has_prefix(code_at(s, pos + 12)) && s[pos + 15] == SYSTEM_HEADER_START_CODE {
        if pos + 18 > s.len() {
            (seq![], Err(MpegError::UnexpectedEof))
        } else {
            let next = pos + 18 + be16(s[pos + 16], s[pos + 17]);
            if next > s.len() {
                (seq![], Err(MpegError::UnexpectedEof))
            } else {
                packets_spec(s, next)
            }
        }
    } else {
        packets_spec(s, pos + 12)
    }
}

/// Reads four bytes at `pos`, if there are four.
fn bytes4(input: &Vec<u8>, pos: usize) -> (r: Option<[u8; 4]>)
    ensures
        input@.len() <= usize::MAX,
        pos + 4 <= input@.len() ==> (r matches Some(b) && b@ == code_at(input@, pos as int)),
        pos + 4 > input@.len() ==> r is None,
{
    let len = input.len();
    if pos > len || len - pos < 4 {
        return None;
    }
    let b = [input[pos], input[pos + 1], input[pos + 2], input[pos + 3]];
    assert(b@ =~= code_at(input@, pos as int));
    Some(b)
}

/// The 8-byte header of a pack; its clock references are not interpreted.
pub struct Pack {
    pub data: [u8; 8],
}

impl Pack {
    pub fn parse(input: &Vec<u8>, pos: &mut usize) -> (r: Result<Pack, MpegError>)
        ensures
            *old(pos) + 8 <= input@.len() ==> (r matches Ok(p) && p.data@ == input@.subrange(*old(pos) as int, *old(pos) + 8)
                && *final(pos) == *old(pos) + 8),
            *old(pos) + 8 > input@.len() ==> r == Err::<Pack, MpegError>(MpegError::UnexpectedEof),
    {
        let len = input.len();
        if *pos > len || len - *pos < 8 {
            return Err(MpegError::UnexpectedEof);
        }
        let mut data: [u8; 8] = [0u8; 8];
        let mut k: usize = 0;
        while k < 8
            invariant
                k <= 8,
                *pos + 8 <= input@.len(),
                len == input@.len(),
                forall|i: int| 0 <= i < k ==> data[i] == input@[*pos + i],
            decreases 8 - k,
        {
            data[k] = input[*pos + k];
            k = k + 1;
        }
        assert(data@ =~= input@.subrange(*pos as int, *pos + 8));
        *pos = *pos + 8;
        Ok(Pack { data })
    }
}

/// A system header: its length, then that many bytes, not interpreted.
pub struct SystemHeader {
    pub data: Vec<u8>,
}

impl SystemHeader {
    pub fn parse(input: &Vec<u8>, pos: &mut usize) -> (r: Result<SystemHeader, MpegError>)
        ensures
            ({
                let p = *old(pos) as int;
                let s = input@;
                if p + 2 > s.len() || p + 2 + be16(s[p], s[p + 1]) > s.len() {
                    r == Err::<SystemHeader, MpegError>(MpegError::UnexpectedEof)
                } else {
                    &&& r matches Ok(h) && h.data@ == s.subrange(p + 2, p + 2 + be16(s[p], s[p + 1]))
                    &&& *final(pos) == p + 2 + be16(s[p], s[p + 1])
                }
            }),
    {
        let len = input.len();
        if *pos > len || len - *pos < 2 {
            return Err(MpegError::UnexpectedEof);
        }
        let hdr_len: usize = input[*pos] as usize * 256 + input[*pos + 1] as usize;
        let start: usize = *pos + 2;
        if len - start < hdr_len {
            return Err(MpegError::UnexpectedEof);
        }
        let data = slice_to_vec(input, start, start + hdr_len);
        *pos = start + hdr_len;
        Ok(SystemHeader { data })
    }
}

/// The bytes of `input` from `start` to `end`.
fn slice_to_vec(input: &Vec<u8>, start: usize, end: usize) -> (r: Vec<u8>)
    requires
        start <= end <= input@.len(),
    ensures
        r@ == input@.subrange(start as int, end as int),
{
    let mut r: Vec<u8> = Vec::new();
    let mut i: usize = start;
    while i < end
        invariant
            start <= i <= end <= input@.len(),
            r@ == input@.subrange(start as int, i as int),
        decreases end - i,
    {
        r.push(input[i]);
        assert(r@ =~= input@.subrange(start as int, i + 1));
        i = i + 1;
    }
    r
}

/// A packet of one elementary stream: its payload, without the packet header.
pub struct Packet {
    pub data: Vec<u8>,
}

impl Packet {
    /// Parses the packet whose length field is at `pos`; `stream_id` is the
    /// last byte of its start code.
    pub fn parse(input: &Vec<u8>, pos: &mut usize, stream_id: u8) -> (r: Result<Packet, MpegError>)
        ensures
            ({
                let p = *old(pos) as int;
                let s = input@;
                if p + 2 > s.len() || p + 2 + be16(s[p], s[p + 1]) > s.len() {
                    r == Err::<Packet, MpegError>(MpegError::UnexpectedEof)
                } else {
                    let end = p + 2 + be16(s[p], s[p + 1]);
                    match packet_header_len(s.subrange(p + 2, end)) {
                        None => r == Err::<Packet, MpegError>(MpegError::Format),
                        Some(h) => {
                            &&& r matches Ok(pk) && pk.data@ == s.subrange(p + 2 + h, end)
                            &&& *final(pos) == end
                        },
                    }
                }
            }),
    {
        let len = input.len();
        if *pos > len || len - *pos < 2 {
            return Err(MpegError::UnexpectedEof);
        }
        let packet_len: usize = input[*pos] as usize * 256 + input[*pos + 1] as usize;
        let start: usize = *pos + 2;
        if len - start < packet_len {
            return Err(MpegError::UnexpectedEof);
        }
        let end: usize = start + packet_len;
        let ghost body = input@.subrange(start as int, end as int);
        let mut idx: usize = start;
        while idx < end && input[idx] == 0xFF
            invariant
                start <= idx <= end <= input@.len(),
                body == input@.subrange(start as int, end as int),
                stuffing_end(body, 0) == stuffing_end(body, idx - start),
            decreases end - idx,
        {
            idx = idx + 1;
        }
        assert(stuffing_end(body, idx - start) == idx - start);
        if idx >= end {
            return Err(MpegError::Format);
        }
        // buffer scale and size
        if (input[idx] / 64) % 2 == 1 {
            if end - idx <= 2 {
                return Err(MpegError::Format);
            }
            idx = idx + 2;
        }
        let t = (input[idx] / 16) % 4;
        let header_rest: usize = if t == 3 {
            // presentation and decoding time stamps
            10
        } else if t == 2 {
            // presentation time stamp
            5
        } else {
            1
        };
        if end - idx < header_rest {
            return Err(MpegError::Format);
        }
        idx = idx + header_rest;
        let data = slice_to_vec(input, idx, end);
        *pos = end;
        Ok(Packet { data })
    }
}

/// Parses one pack whose start code ends at `pos`: its header, an optional
/// system header, then its packets, appending the payload of video stream 0
/// to `data`. Stops before the first start code that is not a packet's.
pub fn parse_pack(input: &Vec<u8>, pos: &mut usize, data: &mut Vec<u8>) -> (res: Result<(), MpegError>)
    requires
        4 <= *old(pos) <= input@.len(),
        has_prefix(code_at(input@, *old(pos) - 4)),
        input@[*old(pos) - 1] == PACK_START_CODE,
    ensures
        final(data)@ == old(data)@ + pack_spec(input@, *old(pos) - 4).0,
        match pack_spec(input@, *old(pos) - 4).1 {
            Ok(q) => res is Ok && *final(pos) == q,
            Err(e) => res == Err::<(), MpegError>(e),
        },
        ({
            let whole = demux(input@, *old(pos) - 4, false);
            match res {
                Ok(()) => {
                    let rest = demux(input@, *final(pos) as int, false);
                    &&& *final(pos) > *old(pos)
                    &&& *final(pos) <= input@.len()
                    &&& old(data)@ + whole.0 == final(data)@ + rest.0
                    &&& whole.1 == rest.1
                },
                Err(e) => {
                    &&& e == whole.1
                    &&& final(data)@ == old(data)@ + whole.0
                },
            }
        }),
{
    let ghost s = input@;
    let ghost p0 = *pos as int - 4;
    let ghost whole = demux(s, p0, false);
    let ghost pk = pack_spec(s, p0);
    assert(code_at(s, p0)[3] == s[p0 + 3]);
    let _pack = Pack::parse(input, pos)?;
    let buf = match bytes4(input, *pos) {
        Some(b) => b,
        None => {
            assert(data@ =~= data@ + whole.0);
            assert(data@ =~= data@ + pk.0);
            return Err(MpegError::UnexpectedEof);
        },
    };
    if is_start_code(&buf, SYSTEM_HEADER_START_CODE) {
        *pos = *pos + 4;
        let _system_header = SystemHeader::parse(input, pos)?;
    }
    assert(whole == demux(s, *pos as int, true));
    assert(pk == packets_spec(s, *pos as int));
    assert(data@ + demux(s, *pos as int, true).0 == old(data)@ + whole.0);
    assert(data@ + packets_spec(s, *pos as int).0 == old(data)@ + pk.0);
    loop
        invariant
            s == input@,
            p0 == *old(pos) - 4,
            whole == demux(s, p0, false),
            p0 + 12 <= *pos <= s.len(),
            old(data)@ + whole.0 == data@ + demux(s, *pos as int, true).0,
            whole.1 == demux(s, *pos as int, true).1,
            pk == pack_spec(s, p0),
            old(data)@ + pk.0 == data@ + packets_spec(s, *pos as int).0,
            pk.1 == packets_spec(s, *pos as int).1,
        decreases s.len() - *pos,
    {
        let buf = match bytes4(input, *pos) {
            Some(b) => b,
            None => {
                assert(data@ =~= old(data)@ + whole.0);
                assert(data@ =~= old(data)@ + pk.0);
                return Err(MpegError::UnexpectedEof);
            },
        };
        if !is_packet_start_code(&buf) {
            assert(data@ =~= old(data)@ + pk.0);
            return Ok(());
        }
        let ghost at = *pos as int;
        *pos = *pos + 4;
        let packet = Packet::parse(input, pos, buf[3])?;
        if buf[3] == VIDEO_STREAM_0_START_CODE {
            let ghost before = data@;
            let mut k: usize = 0;
            while k < packet.data.len()
                invariant
                    k <= packet.data@.len(),
                    data@ == before + packet.data@.subrange(0, k as int),
                decreases packet.data@.len() - k,
            {
                data.push(packet.data[k]);
                assert(data@ =~= before + packet.data@.subrange(0, k + 1));
                k = k + 1;
            }
            assert(packet.data@.subrange(0, packet.data@.len() as int) =~= packet.data@);
        }
        proof {
            let rest = demux(s, *pos as int, true);
            let d = demux(s, at, true);
            let prest = packets_spec(s, *pos as int);
            let pd = packets_spec(s, at);
            assert(buf[3] == s[at + 3]);
            if buf[3] == VIDEO_STREAM_0_START_CODE {
                assert(d.0 == packet.data@ + rest.0);
                assert(old(data)@ + whole.0 =~= data@ + rest.0);
                assert(pd.0 == packet.data@ + prest.0);
                assert(old(data)@ + pk.0 =~= data@ + prest.0);
            } else {
                assert(d.0 == Seq::<u8>::empty() + rest.0);
                assert(d.0 =~= rest.0);
                assert(pd.0 == Seq::<u8>::empty() + prest.0);
                assert(pd.0 =~= prest.0);
            }
        }
    }
}

/// Demultiplexes the program stream `input`, appending the payload of video
/// stream 0 to `data`. Reading goes on until the input runs out, so the
/// result is always an error: `UnexpectedEof` at the end of the input,
/// `Format` where a pack start code is missing or a packet header is malformed.
pub fn iso11172_stream(input: &Vec<u8>, data: &mut Vec<u8>) -> (res: Result<(), MpegError>)
    ensures
        final(data)@ == old(data)@ + demux(input@, 0, false).0,
        res == Err::<(), MpegError>(demux(input@, 0, false).1),
{
    let ghost whole = demux(input@, 0, false);
    let mut pos: usize = 0;
    assert(old(data)@ + whole.0 == data@ + demux(input@, pos as int, false).0);
    loop
        invariant
            pos <= input@.len(),
            whole == demux(input@, 0, false),
            old(data)@ + whole.0 == data@ + demux(input@, pos as int, false).0,
            whole.1 == demux(input@, pos as int, false).1,
        decreases input@.len() - pos,
    {
        let buf = match bytes4(input, pos) {
            Some(b) => b,
            None => {
                assert(data@ =~= old(data)@ + whole.0);
                return Err(MpegError::UnexpectedEof);
            },
        };
        if !is_start_code(&buf, PACK_START_CODE) {
            assert(data@ =~= old(data)@ + whole.0);
            return Err(MpegError::Format);
        }
        pos = pos + 4;
        match parse_pack(input, &mut pos, data) {
            Ok(()) => {},
            Err(e) => {
                assert(data@ =~= old(data)@ + whole.0);
                return Err(e);
            },
        }
    }
}

/// The video elementary stream carried by a program stream.
pub struct MpegVideoStream {
    pub data: Vec<u8>,
}

impl MpegVideoStream {
    /// Demultiplexes `input`; running out of input ends the stream normally.
    pub fn new(input: &Vec<u8>) -> (r: Result<MpegVideoStream, MpegError>)
        ensures
            demux(input@, 0, false).1 == MpegError::UnexpectedEof ==>
                (r matches Ok(v) && v.data@ == demux(input@, 0, false).0),
            demux(input@, 0, false).1 != MpegError::UnexpectedEof ==>
                r == Err::<MpegVideoStream, MpegError>(demux(input@, 0, false).1),
    {
        let mut buf: Vec<u8> = Vec::new();
        match iso11172_stream(input, &mut buf) {
            Err(MpegError::UnexpectedEof) => {
                assert(buf@ =~= demux(input@, 0, false).0);
                Ok(MpegVideoStream { data: buf })
            },
            Err(e) => Err(e),
            Ok(()) => Err(MpegError::Format),
        }
    }
}

} // verus!
