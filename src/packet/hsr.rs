//! The game-network packet: a 16-bit command, an opaque head segment and an
//! opaque body.
//!
//! Wire form: `HEAD_MAGIC | cmd:u16be | head_len:u16be | body_len:u32be | head |
//! body | TAIL_MAGIC`.

use vstd::prelude::*;
use vstd::slice::slice_subrange;
use vstd::slice::slice_to_vec;

use super::append;
use super::be_u16_at;
use super::be_u16_bytes;
use super::be_u32_at;
use super::be_u32_bytes;
use super::head_magic;
use super::head_magic_bytes;
use super::lemma_be_u16_round_trip;
use super::lemma_be_u32_round_trip;
use super::push_be_u16;
use super::push_be_u32;
use super::read_be_u16;
use super::scan;
use super::scan_frame;
use super::stream_outcome;
use super::tail_magic;
use super::tail_magic_bytes;
use super::Layout;
use super::PacketError;
use super::StreamOutcome;
use super::PAYLOAD_START;

verus! {

/// The fields of a network packet.
pub struct NetFields {
    pub cmd: u16,
    pub head: Seq<u8>,
    pub body: Seq<u8>,
}

#[derive(Clone, Debug)]
pub struct NetPacket {
    pub cmd: u16,
    pub head: Vec<u8>,
    pub body: Vec<u8>,
}

impl View for NetPacket {
    type V = NetFields;

    open spec fn view(&self) -> NetFields {
        NetFields { cmd: self.cmd, head: self.head@, body: self.body@ }
    }
}

/// Whether the segments fit their length fields: 16 bits for the head, 32 for
/// the body.
pub open spec fn encodable(f: NetFields) -> bool {
    f.head.len() <= 0xFFFF && f.body.len() <= 0xFFFF_FFFF
}

pub open spec fn encode(f: NetFields) -> Seq<u8> {
    head_magic(Layout::Net) + be_u16_bytes(f.cmd as nat) + be_u16_bytes(f.head.len())
        + be_u32_bytes(f.body.len()) + f.head + f.body + tail_magic(Layout::Net)
}

/// What a buffer holding a network frame at its start parses to.
pub open spec fn parse(b: Seq<u8>) -> Result<NetFields, PacketError> {
    match scan(Layout::Net, b) {
        Err(e) => Err(e),
        Ok(_) => {
            let head_end = PAYLOAD_START + be_u16_at(b, 6);
            Ok(
                NetFields {
                    cmd: be_u16_at(b, 4) as u16,
                    head: b.subrange(PAYLOAD_START as int, head_end),
                    body: b.subrange(head_end, head_end + be_u32_at(b, 8)),
                },
            )
        },
    }
}

fn push_magic(out: &mut Vec<u8>, m: [u8; 4])
    ensures
        final(out)@ == old(out)@ + m@,
{
    out.push(m[0]);
    out.push(m[1]);
    out.push(m[2]);
    out.push(m[3]);
    assert(out@ =~= old(out)@ + m@);
}

impl NetPacket {
    /// Parses the frame at the start of `data`. Bytes after the frame are ignored.
    pub fn try_from(data: &[u8]) -> (r: Result<NetPacket, PacketError>)
        ensures
            match r {
                Ok(p) => parse(data@) == Ok::<NetFields, PacketError>(p@),
                Err(e) => parse(data@) == Err::<NetFields, PacketError>(e),
            },
    {
        let payload = match scan_frame(Layout::Net, data) {
            Ok(n) => n,
            Err(e) => return Err(e),
        };
        let len = data.len();
        assert(PAYLOAD_START + payload + 4 <= len);
        let cmd = read_be_u16(data, 4);
        let head_end = PAYLOAD_START + read_be_u16(data, 6) as usize;
        let body_end = PAYLOAD_START + payload;
        let head = slice_to_vec(slice_subrange(data, PAYLOAD_START, head_end));
        let body = slice_to_vec(slice_subrange(data, head_end, body_end));
        Ok(NetPacket { cmd, head, body })
    }

    /// The head magic and fixed fields. The whole frame is these bytes followed
    /// by the head and body segments and the tail magic, so a stream writer can
    /// send each piece in turn.
    pub fn header_bytes(&self) -> (r: Vec<u8>)
        requires
            encodable(self@),
        ensures
            r@ + self.head@ + self.body@ + tail_magic(Layout::Net) == encode(self@),
            r@.len() == PAYLOAD_START,
    {
        let mut out: Vec<u8> = Vec::new();
        push_magic(&mut out, head_magic_bytes(Layout::Net));
        push_be_u16(&mut out, self.cmd);
        push_be_u16(&mut out, self.head.len() as u16);
        push_be_u32(&mut out, self.body.len() as u32);
        assert(out@ + self.head@ + self.body@ + tail_magic(Layout::Net) =~= encode(self@));
        out
    }

    /// The whole frame.
    pub fn to_bytes(&self) -> (r: Vec<u8>)
        requires
            encodable(self@),
        ensures
            r@ == encode(self@),
    {
        let mut out = self.header_bytes();
        append(&mut out, self.head.as_slice());
        append(&mut out, self.body.as_slice());
        push_magic(&mut out, tail_magic_bytes(Layout::Net));
        out
    }
}

/// Where each part of a network frame lands, whatever follows it.
proof fn lemma_frame_parts(f: NetFields, rest: Seq<u8>)
    requires
        encodable(f),
    ensures
        ({
            let e = encode(f);
            let b = e + rest;
            let head_end = PAYLOAD_START + f.head.len();
            let body_end = head_end + f.body.len();
            &&& e.len() == body_end + 4
            &&& b.subrange(0, 4) == head_magic(Layout::Net)
            &&& be_u16_at(b, 4) == f.cmd as nat
            &&& be_u16_at(b, 6) == f.head.len()
            &&& be_u32_at(b, 8) == f.body.len()
            &&& b.subrange(PAYLOAD_START as int, head_end) == f.head
            &&& b.subrange(head_end, body_end) == f.body
            &&& b.subrange(body_end, body_end + 4) == tail_magic(Layout::Net)
        }),
{
    let e = encode(f);
    let b = e + rest;
    let head_end = PAYLOAD_START + f.head.len();
    let body_end = head_end + f.body.len();
    lemma_be_u16_round_trip(f.cmd as nat);
    lemma_be_u16_round_trip(f.head.len());
    lemma_be_u32_round_trip(f.body.len());
    let c = be_u16_bytes(f.cmd as nat);
    let h = be_u16_bytes(f.head.len());
    let l = be_u32_bytes(f.body.len());
    assert(b.subrange(0, 4) =~= head_magic(Layout::Net));
    assert(b[4] == c[0] && b[5] == c[1] && b[6] == h[0] && b[7] == h[1]);
    assert(b[8] == l[0] && b[9] == l[1] && b[10] == l[2] && b[11] == l[3]);
    assert(b.subrange(PAYLOAD_START as int, head_end) =~= f.head);
    assert(b.subrange(head_end, body_end) =~= f.body);
    assert(b.subrange(body_end, body_end + 4) =~= tail_magic(Layout::Net));
}

/// Parsing what `encode` produced gives the fields back, from a buffer or from
/// a stream, and a stream reader takes exactly the frame's bytes.
pub proof fn lemma_round_trip(f: NetFields, rest: Seq<u8>)
    requires
        encodable(f),
    ensures
        parse(encode(f)) == Ok::<NetFields, PacketError>(f),
        parse(encode(f) + rest) == Ok::<NetFields, PacketError>(f),
        stream_outcome(Layout::Net, encode(f) + rest) == StreamOutcome::Complete(encode(f).len()),
        (encode(f) + rest).subrange(0, encode(f).len() as int) == encode(f),
{
    lemma_frame_parts(f, rest);
    lemma_frame_parts(f, Seq::empty());
    assert(encode(f) + Seq::<u8>::empty() =~= encode(f));
    assert((encode(f) + rest).subrange(0, encode(f).len() as int) =~= encode(f));
}

/// Changing any byte of the head magic of an encoded frame makes parsing and
/// stream reading fail with `InvalidHeadMagic`, and with nothing else.
pub proof fn lemma_head_magic_enforced(f: NetFields, i: int, x: u8)
    requires
        encodable(f),
        0 <= i < 4,
        x != encode(f)[i],
    ensures
        parse(encode(f).update(i, x)) == Err::<NetFields, PacketError>(
            PacketError::InvalidHeadMagic,
        ),
        stream_outcome(Layout::Net, encode(f).update(i, x)) == StreamOutcome::Failed(
            PacketError::InvalidHeadMagic,
        ),
{
    let b = encode(f).update(i, x);
    lemma_round_trip(f, Seq::empty());
    assert(b.subrange(0, 4)[i] != head_magic(Layout::Net)[i]);
}

/// Changing any byte of the tail magic of an encoded frame makes parsing fail
/// with `InvalidTailMagic`, and with nothing else; a stream reader still takes
/// the whole frame, which then fails to parse the same way.
pub proof fn lemma_tail_magic_enforced(f: NetFields, i: int, x: u8)
    requires
        encodable(f),
        encode(f).len() - 4 <= i < encode(f).len(),
        x != encode(f)[i],
    ensures
        parse(encode(f).update(i, x)) == Err::<NetFields, PacketError>(
            PacketError::InvalidTailMagic,
        ),
        stream_outcome(Layout::Net, encode(f).update(i, x)) == StreamOutcome::Complete(
            encode(f).len(),
        ),
{
    let e = encode(f);
    let b = e.update(i, x);
    lemma_frame_parts(f, Seq::empty());
    assert(e + Seq::<u8>::empty() =~= e);
    assert(b.subrange(0, 4) =~= e.subrange(0, 4));
    assert(b[6] == e[6] && b[7] == e[7] && b[8] == e[8] && b[9] == e[9] && b[10] == e[10] && b[11]
        == e[11]);
    let t = e.len() - 4;
    assert(b.subrange(t, t + 4)[i - t] != tail_magic(Layout::Net)[i - t]);
}

/// A buffer of exactly the minimum size, with zero declared lengths and both
/// magics in place, parses to an empty head and body.
pub proof fn lemma_minimum_frame(b: Seq<u8>)
    requires
        b.len() == super::OVERHEAD,
        b.subrange(0, 4) == head_magic(Layout::Net),
        be_u16_at(b, 6) == 0,
        be_u32_at(b, 8) == 0,
        b.subrange(12, 16) == tail_magic(Layout::Net),
    ensures
        parse(b) == Ok::<NetFields, PacketError>(
            NetFields { cmd: be_u16_at(b, 4) as u16, head: Seq::empty(), body: Seq::empty() },
        ),
{
    assert(b.subrange(12, 12) =~= Seq::<u8>::empty());
}

} // verus!
