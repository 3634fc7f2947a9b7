//! Shared framing for the two packet layouts.
//!
//! A frame is `HEAD_MAGIC(4) | fixed fields(8) | variable segments | TAIL_MAGIC(4)`,
//! where the fixed fields carry the lengths of the variable segments. Both
//! layouts share the magic lengths and the width of the fixed block; they differ
//! in the magic bytes and in where the segment lengths sit.

use vstd::prelude::*;

pub mod control_panel;
pub mod hsr;

verus! {

/// Why a frame was rejected.
#[derive(Clone, Copy, Debug, PartialEq, Eq, Structural)]
pub enum PacketError {
    /// The buffer is smaller than a frame with empty segments.
    TooShort,
    /// A field does not fit the width of its length field.
    TooLong,
    InvalidHeadMagic,
    InvalidTailMagic,
    /// The declared segment lengths do not fit the available bytes.
    SizeMismatch,
    /// A text segment is not valid UTF-8.
    InvalidEncoding,
}

impl PacketError {
    /// The name of the error, as it is shown to users.
    pub fn as_str(&self) -> (r: &'static str)
        ensures
            r@ == match self {
                PacketError::TooShort => "TooShort"@,
                PacketError::TooLong => "TooLong"@,
                PacketError::InvalidHeadMagic => "InvalidHeadMagic"@,
                PacketError::InvalidTailMagic => "InvalidTailMagic"@,
                PacketError::SizeMismatch => "SizeMismatch"@,
                PacketError::InvalidEncoding => "InvalidEncoding"@,
            },
    {
        match self {
            PacketError::TooShort => "TooShort",
            PacketError::TooLong => "TooLong",
            PacketError::InvalidHeadMagic => "InvalidHeadMagic",
            PacketError::InvalidTailMagic => "InvalidTailMagic",
            PacketError::SizeMismatch => "SizeMismatch",
            PacketError::InvalidEncoding => "InvalidEncoding",
        }
    }
}

pub const MAGIC_LEN: usize = 4;

/// Length of the block of fixed fields that follows the head magic.
pub const FIXED_LEN: usize = 8;

/// Offset of the first variable segment.
pub const PAYLOAD_START: usize = 12;

/// Size of a frame whose variable segments are all empty.
pub const OVERHEAD: usize = 16;

/// The big-endian value of the two bytes at `at`.
pub open spec fn be_u16_at(b: Seq<u8>, at: int) -> nat {
    b[at] as nat * 256 + b[at + 1] as nat
}

/// The big-endian value of the four bytes at `at`.
pub open spec fn be_u32_at(b: Seq<u8>, at: int) -> nat {
    b[at] as nat * 0x1000000 + b[at + 1] as nat * 0x10000 + b[at + 2] as nat * 0x100
        + b[at + 3] as nat
}

/// The two big-endian bytes of `v`.
pub open spec fn be_u16_bytes(v: nat) -> Seq<u8> {
    seq![(v / 0x100) as u8, (v % 0x100) as u8]
}

/// The four big-endian bytes of `v`.
pub open spec fn be_u32_bytes(v: nat) -> Seq<u8> {
    seq![
        (v / 0x1000000) as u8,
        ((v / 0x10000) % 0x100) as u8,
        ((v / 0x100) % 0x100) as u8,
        (v % 0x100) as u8,
    ]
}

pub proof fn lemma_be_u16_round_trip(v: nat)
    requires
        v < 0x10000,
    ensures
        be_u16_at(be_u16_bytes(v), 0) == v,
{
}

pub proof fn lemma_be_u32_round_trip(v: nat)
    requires
        v < 0x1_0000_0000,
    ensures
        be_u32_at(be_u32_bytes(v), 0) == v,
{
    let t = v / 0x100;
    let t2 = t / 0x100;
    assert(v == t * 0x100 + v % 0x100);
    assert(t == t2 * 0x100 + t % 0x100);
    assert(t2 == (t2 / 0x100) * 0x100 + t2 % 0x100);
    assert(v / 0x10000 == t2) by {
        vstd::arithmetic::div_mod::lemma_div_denominator(v as int, 0x100, 0x100);
    }
    assert(v / 0x1000000 == t2 / 0x100) by {
        vstd::arithmetic::div_mod::lemma_div_denominator(v as int, 0x10000, 0x100);
    }
    assert(t2 / 0x100 < 0x100);
}

pub fn read_be_u16(data: &[u8], at: usize) -> (r: u16)
    requires
        at + 2 <= data@.len(),
    ensures
        r as nat == be_u16_at(data@, at as int),
{
    (data[at] as u16) * 0x100 + (data[at + 1] as u16)
}

pub fn read_be_u32(data: &[u8], at: usize) -> (r: u32)
    requires
        at + 4 <= data@.len(),
    ensures
        r as nat == be_u32_at(data@, at as int),
{
    (data[at] as u32) * 0x1000000 + (data[at + 1] as u32) * 0x10000 + (data[at + 2] as u32)
        * 0x100 + (data[at + 3] as u32)
}

/// Appends the big-endian bytes of `v`.
pub fn push_be_u16(out: &mut Vec<u8>, v: u16)
    ensures
        final(out)@ == old(out)@ + be_u16_bytes(v as nat),
{
    out.push((v / 0x100) as u8);
    out.push((v % 0x100) as u8);
}

/// Appends the big-endian bytes of `v`.
pub fn push_be_u32(out: &mut Vec<u8>, v: u32)
    ensures
        final(out)@ == old(out)@ + be_u32_bytes(v as nat),
{
    out.push((v / 0x1000000) as u8);
    out.push(((v / 0x10000) % 0x100) as u8);
    out.push(((v / 0x100) % 0x100) as u8);
    out.push((v % 0x100) as u8);
}


/// Appends the bytes of `src`.
pub fn append(out: &mut Vec<u8>, src: &[u8])
    ensures
        final(out)@ == old(out)@ + src@,
{
    let ghost start = out@;
    let mut i: usize = 0;
    while i < src.len()
        invariant
            i <= src@.len(),
            out@ == start + src@.subrange(0, i as int),
        decreases src@.len() - i,
    {
        out.push(src[i]);
        i = i + 1;
        assert(out@ =~= start + src@.subrange(0, i as int));
    }
    assert(src@.subrange(0, src@.len() as int) =~= src@);
}

/// Which of the two wire layouts a frame follows.
#[derive(Clone, Copy, Debug, PartialEq, Eq, Structural)]
pub enum Layout {
    /// Authenticated control packet: username, password, two command bytes, body.
    ControlPanel,
    /// Game-network packet: a 16-bit command, a head segment and a body.
    Net,
}

pub open spec fn head_magic(l: Layout) -> Seq<u8> {
    match l {
        Layout::ControlPanel => seq![0x17u8, 0x08u8, 0x19u8, 0x45u8],
        Layout::Net => seq![0x9Du8, 0x74u8, 0xC7u8, 0x14u8],
    }
}

pub open spec fn tail_magic(l: Layout) -> Seq<u8> {
    match l {
        Layout::ControlPanel => seq![0x59u8, 0x56u8, 0x4Cu8, 0x4Eu8],
        Layout::Net => seq![0xD7u8, 0xA1u8, 0x52u8, 0xC8u8],
    }
}

/// The sum of the segment lengths declared in the fixed fields of `b`.
pub open spec fn payload_len(l: Layout, b: Seq<u8>) -> nat {
    match l {
        Layout::ControlPanel => b[4] as nat + b[5] as nat + be_u32_at(b, 8),
        Layout::Net => be_u16_at(b, 6) + be_u32_at(b, 8),
    }
}

/// The length of the frame that the fixed fields of `b` declare.
pub open spec fn frame_len(l: Layout, b: Seq<u8>) -> nat {
    OVERHEAD as nat + payload_len(l, b)
}

/// The structural verdict on a buffer: size, both magics and the declared
/// lengths, before any segment is looked at. Bytes after the frame are ignored.
pub open spec fn scan(l: Layout, b: Seq<u8>) -> Result<(), PacketError> {
    if b.len() < OVERHEAD {
        Err(PacketError::TooShort)
    } else if b.subrange(0, 4) != head_magic(l) {
        Err(PacketError::InvalidHeadMagic)
    } else if b.len() < frame_len(l, b) {
        Err(PacketError::SizeMismatch)
    } else if b.subrange(
        PAYLOAD_START + payload_len(l, b),
        PAYLOAD_START + payload_len(l, b) + 4,
    ) != tail_magic(l) {
        Err(PacketError::InvalidTailMagic)
    } else {
        Ok(())
    }
}

pub fn head_magic_bytes(l: Layout) -> (r: [u8; 4])
    ensures
        r@ == head_magic(l),
{
    let r = match l {
        Layout::ControlPanel => [0x17u8, 0x08u8, 0x19u8, 0x45u8],
        Layout::Net => [0x9Du8, 0x74u8, 0xC7u8, 0x14u8],
    };
    assert(r@ =~= head_magic(l));
    r
}

pub fn tail_magic_bytes(l: Layout) -> (r: [u8; 4])
    ensures
        r@ == tail_magic(l),
{
    let r = match l {
        Layout::ControlPanel => [0x59u8, 0x56u8, 0x4Cu8, 0x4Eu8],
        Layout::Net => [0xD7u8, 0xA1u8, 0x52u8, 0xC8u8],
    };
    assert(r@ =~= tail_magic(l));
    r
}

/// Whether the four bytes at `at` are `m`.
fn magic_at(data: &[u8], at: usize, m: &[u8; 4]) -> (r: bool)
    requires
        at + 4 <= data@.len(),
    ensures
        r == (data@.subrange(at as int, at + 4) == m@),
{
    let r = data[at] == m[0] && data[at + 1] == m[1] && data[at + 2] == m[2] && data[at + 3]
        == m[3];
    if r {
        assert(data@.subrange(at as int, at + 4) =~= m@);
    } else {
        assert(data@.subrange(at as int, at + 4) != m@) by {
            if data@.subrange(at as int, at + 4) == m@ {
                assert(data@.subrange(at as int, at + 4)[0] == m@[0]);
                assert(data@.subrange(at as int, at + 4)[1] == m@[1]);
                assert(data@.subrange(at as int, at + 4)[2] == m@[2]);
                assert(data@.subrange(at as int, at + 4)[3] == m@[3]);
            }
        }
    }
    r
}

/// The declared payload length, from a buffer that holds the fixed fields.
fn declared_payload(l: Layout, data: &[u8]) -> (r: u64)
    requires
        PAYLOAD_START <= data@.len(),
    ensures
        r == payload_len(l, data@),
        r <= 0x1_0000_0000 + 0x10000,
{
    match l {
        Layout::ControlPanel => data[4] as u64 + data[5] as u64 + read_be_u32(data, 8) as u64,
        Layout::Net => read_be_u16(data, 6) as u64 + read_be_u32(data, 8) as u64,
    }
}

/// Checks the structure of the frame at the start of `data` and returns its
/// payload length. All length arithmetic is done in 64 bits on values read
/// from the buffer, so no declared length can overflow or reach past the end.
pub fn scan_frame(l: Layout, data: &[u8]) -> (r: Result<usize, PacketError>)
    ensures
        match r {
            Ok(n) => scan(l, data@) == Ok::<(), PacketError>(()) && n == payload_len(l, data@),
            Err(e) => scan(l, data@) == Err::<(), PacketError>(e),
        },
{
    if data.len() < OVERHEAD {
        return Err(PacketError::TooShort);
    }
    if !magic_at(data, 0, &head_magic_bytes(l)) {
        return Err(PacketError::InvalidHeadMagic);
    }
    let payload = declared_payload(l, data);
    if payload + (OVERHEAD as u64) > data.len() as u64 {
        return Err(PacketError::SizeMismatch);
    }
    let payload = payload as usize;
    if !magic_at(data, PAYLOAD_START + payload, &tail_magic_bytes(l)) {
        return Err(PacketError::InvalidTailMagic);
    }
    Ok(payload)
}

/// What a stream that starts with `s` yields to a frame reader.
pub enum StreamOutcome {
    /// More bytes are needed before a verdict.
    NeedMore,
    /// The stream does not start with a frame of the layout.
    Failed(PacketError),
    /// The first `len` bytes of the stream form the frame.
    Complete(nat),
}

/// The verdict that a reader reaches on a stream starting with `s`: it checks
/// the head magic as soon as the four bytes are in, then reads the fixed
/// fields, then exactly the rest of the frame that they declare.
pub open spec fn stream_outcome(l: Layout, s: Seq<u8>) -> StreamOutcome {
    if s.len() < MAGIC_LEN {
        StreamOutcome::NeedMore
    } else if s.subrange(0, 4) != head_magic(l) {
        StreamOutcome::Failed(PacketError::InvalidHeadMagic)
    } else if s.len() < PAYLOAD_START || s.len() < frame_len(l, s) {
        StreamOutcome::NeedMore
    } else {
        StreamOutcome::Complete(frame_len(l, s))
    }
}

/// The prefixes at which a reader stops to read: nothing, the head magic, the
/// head magic and fixed fields, or the whole frame.
pub open spec fn at_step(l: Layout, r: Seq<u8>) -> bool {
    r.len() == 0 || (r.len() >= MAGIC_LEN && r.subrange(0, 4) == head_magic(l) && (r.len()
        == MAGIC_LEN || r.len() == PAYLOAD_START || r.len() == frame_len(l, r)))
}

/// How many bytes a reader that holds `r` asks for next; 0 once the frame is in.
pub open spec fn wanted_len(l: Layout, r: Seq<u8>) -> nat {
    if r.len() == 0 {
        MAGIC_LEN as nat
    } else if r.len() == MAGIC_LEN {
        FIXED_LEN as nat
    } else if r.len() == PAYLOAD_START {
        (frame_len(l, r) - PAYLOAD_START) as nat
    } else {
        0
    }
}

/// Collects one frame from a byte stream, step by step: the caller reads the
/// number of bytes that `wanted` gives and hands them to `feed`, until
/// `is_complete` holds or `feed` fails.
pub struct FrameReader {
    layout: Layout,
    received: Vec<u8>,
}

impl View for FrameReader {
    type V = Seq<u8>;

    closed spec fn view(&self) -> Seq<u8> {
        self.received@
    }
}

impl FrameReader {
    pub closed spec fn layout(&self) -> Layout {
        self.layout
    }

    pub open spec fn wf(&self) -> bool {
        at_step(self.layout(), self@)
    }

    pub fn new(layout: Layout) -> (r: FrameReader)
        ensures
            r.layout() == layout,
            r@ == Seq::<u8>::empty(),
            r.wf(),
    {
        FrameReader { layout, received: Vec::new() }
    }

    /// The number of bytes to read next; 0 once the frame is complete.
    pub fn wanted(&self) -> (n: u64)
        requires
            self.wf(),
        ensures
            n == wanted_len(self.layout(), self@),
    {
        let len = self.received.len();
        if len == 0 {
            MAGIC_LEN as u64
        } else if len == MAGIC_LEN {
            FIXED_LEN as u64
        } else if len == PAYLOAD_START {
            declared_payload(self.layout, self.received.as_slice()) + MAGIC_LEN as u64
        } else {
            0
        }
    }

    pub fn is_complete(&self) -> (b: bool)
        requires
            self.wf(),
        ensures
            b == (stream_outcome(self.layout(), self@) is Complete),
            b ==> stream_outcome(self.layout(), self@) == StreamOutcome::Complete(self@.len()),
            !b ==> stream_outcome(self.layout(), self@) == StreamOutcome::NeedMore,
    {
        let len = self.received.len();
        len != 0 && len != MAGIC_LEN && len != PAYLOAD_START
    }

    /// Takes the bytes that `wanted` asked for. Fails, keeping nothing, when
    /// they show that the stream holds no frame of this layout.
    pub fn feed(&mut self, chunk: &[u8]) -> (r: Result<(), PacketError>)
        requires
            old(self).wf(),
            wanted_len(old(self).layout(), old(self)@) > 0,
            chunk@.len() == wanted_len(old(self).layout(), old(self)@),
        ensures
            final(self).layout() == old(self).layout(),
            final(self).wf(),
            r is Ok ==> final(self)@ == old(self)@ + chunk@,
            r is Ok <==> !(stream_outcome(old(self).layout(), old(self)@ + chunk@) is Failed),
            r matches Err(e) ==> stream_outcome(old(self).layout(), old(self)@ + chunk@)
                == StreamOutcome::Failed(e),
            r is Err ==> final(self)@ == old(self)@,
    {
        let ghost l = self.layout;
        let ghost before = self.received@;
        if self.received.len() == 0 {
            if !magic_at(chunk, 0, &head_magic_bytes(self.layout)) {
                assert(chunk@.subrange(0, 4) =~= (before + chunk@).subrange(0, 4));
                return Err(PacketError::InvalidHeadMagic);
            }
        }
        append(&mut self.received, chunk);
        proof {
            let after = self.received@;
            assert(after.subrange(0, 4) =~= if before.len() == 0 {
                chunk@.subrange(0, 4)
            } else {
                before.subrange(0, 4)
            });
            if before.len() == PAYLOAD_START {
                assert(payload_len(l, after) == payload_len(l, before)) by {
                    assert(after[4] == before[4] && after[5] == before[5] && after[6]
                        == before[6] && after[7] == before[7] && after[8] == before[8]
                        && after[9] == before[9] && after[10] == before[10] && after[11]
                        == before[11]);
                }
            }
        }
        Ok(())
    }

    /// The bytes collected so far: the whole frame once `is_complete` holds.
    pub fn into_bytes(self) -> (r: Vec<u8>)
        ensures
            r@ == self@,
    {
        self.received
    }
}

/// What a reader collected stays its verdict, whatever the stream holds after it.
pub proof fn lemma_stream_outcome_extends(l: Layout, r: Seq<u8>, rest: Seq<u8>)
    requires
        !(stream_outcome(l, r) is NeedMore),
    ensures
        stream_outcome(l, r + rest) == stream_outcome(l, r),
{
    let s = r + rest;
    assert(s.subrange(0, 4) =~= r.subrange(0, 4));
    if r.len() >= PAYLOAD_START {
        assert(payload_len(l, s) == payload_len(l, r)) by {
            assert(s[4] == r[4] && s[5] == r[5] && s[6] == r[6] && s[7] == r[7] && s[8] == r[8]
                && s[9] == r[9] && s[10] == r[10] && s[11] == r[11]);
        }
    }
}

/// A buffer that holds at least the minimum frame size and the right head
/// magic, but fewer bytes than its declared lengths add up to, is rejected with
/// `SizeMismatch`, whatever the declared lengths are, up to the largest values
/// their fields can hold.
pub proof fn lemma_length_lie_rejected(b: Seq<u8>)
    requires
        b.len() >= OVERHEAD,
    ensures
        b.subrange(0, 4) == head_magic(Layout::ControlPanel) && b.len() < frame_len(
            Layout::ControlPanel,
            b,
        ) ==> control_panel::parse(b) == Err::<control_panel::ControlPanelFields, PacketError>(
            PacketError::SizeMismatch,
        ),
        b.subrange(0, 4) == head_magic(Layout::Net) && b.len() < frame_len(Layout::Net, b)
            ==> hsr::parse(b) == Err::<hsr::NetFields, PacketError>(PacketError::SizeMismatch),
{
}

/// A buffer shorter than the minimum frame size is rejected with `TooShort`.
pub proof fn lemma_too_short_rejected(b: Seq<u8>)
    requires
        b.len() < OVERHEAD,
    ensures
        control_panel::parse(b) == Err::<control_panel::ControlPanelFields, PacketError>(
            PacketError::TooShort,
        ),
        hsr::parse(b) == Err::<hsr::NetFields, PacketError>(PacketError::TooShort),
{
}

} // verus!
