//! The authenticated control packet: a username, a password, two command
//! bytes and an opaque body.
//!
//! Wire form: `HEAD_MAGIC | username_len:u8 | password_len:u8 | main_cmd:u8 |
//! sub_cmd:u8 | body_len:u32be | username | password | body | TAIL_MAGIC`.

use vstd::prelude::*;
use vstd::slice::slice_subrange;
use vstd::slice::slice_to_vec;
use vstd::utf8::decode_utf8;
use vstd::utf8::encode_utf8;
use vstd::utf8::valid_utf8;
use vstd::utf8::encode_utf8_decode_utf8;
use vstd::utf8::decode_utf8_encode_utf8;
use vstd::utf8::encode_utf8_valid_utf8;

use crate::text::string_from_utf8;
use super::append;
use super::be_u32_at;
use super::be_u32_bytes;
use super::head_magic;
use super::head_magic_bytes;
use super::lemma_be_u32_round_trip;
use super::push_be_u32;
use super::scan;
use super::scan_frame;
use super::stream_outcome;
use super::tail_magic;
use super::tail_magic_bytes;
use super::Layout;
use super::PacketError;
use super::StreamOutcome;
use super::PAYLOAD_START;

verus! {

/// The fields of a control packet, its strings as characters.
pub struct ControlPanelFields {
    pub username: Seq<char>,
    pub password: Seq<char>,
    pub main_cmd: u8,
    pub sub_cmd: u8,
    pub body: Seq<u8>,
}

#[derive(Clone, Debug)]
pub struct ControlPanelPacket {
    pub username: String,
    pub password: String,
    pub main_cmd: u8,
    pub sub_cmd: u8,
    pub body: Vec<u8>,
}

impl View for ControlPanelPacket {
    type V = ControlPanelFields;

    open spec fn view(&self) -> ControlPanelFields {
        ControlPanelFields {
            username: self.username@,
            password: self.password@,
            main_cmd: self.main_cmd,
            sub_cmd: self.sub_cmd,
            body: self.body@,
        }
    }
}

/// The frame that carries the given raw segments.
pub open spec fn control_frame(
    user: Seq<u8>,
    pass: Seq<u8>,
    main_cmd: u8,
    sub_cmd: u8,
    body: Seq<u8>,
) -> Seq<u8> {
    head_magic(Layout::ControlPanel) + seq![user.len() as u8, pass.len() as u8, main_cmd, sub_cmd]
        + be_u32_bytes(body.len()) + user + pass + body + tail_magic(Layout::ControlPanel)
}

/// Whether each string fits its one-byte length field.
pub open spec fn strings_fit(f: ControlPanelFields) -> bool {
    encode_utf8(f.username).len() <= 0xFF && encode_utf8(f.password).len() <= 0xFF
}

/// Whether the fields can be framed: the strings fit one-byte lengths and the
/// body a 32-bit length.
pub open spec fn encodable(f: ControlPanelFields) -> bool {
    strings_fit(f) && f.body.len() <= 0xFFFF_FFFF
}

pub open spec fn encode(f: ControlPanelFields) -> Seq<u8> {
    control_frame(encode_utf8(f.username), encode_utf8(f.password), f.main_cmd, f.sub_cmd, f.body)
}

/// What a buffer holding a control frame at its start parses to.
pub open spec fn parse(b: Seq<u8>) -> Result<ControlPanelFields, PacketError> {
    match scan(Layout::ControlPanel, b) {
        Err(e) => Err(e),
        Ok(_) => {
            let user_end = PAYLOAD_START + b[4] as int;
            let pass_end = user_end + b[5] as int;
            let user = b.subrange(PAYLOAD_START as int, user_end);
            let pass = b.subrange(user_end, pass_end);
            if !valid_utf8(user) || !valid_utf8(pass) {
                Err(PacketError::InvalidEncoding)
            } else {
                Ok(
                    ControlPanelFields {
                        username: decode_utf8(user),
                        password: decode_utf8(pass),
                        main_cmd: b[6],
                        sub_cmd: b[7],
                        body: b.subrange(pass_end, pass_end + be_u32_at(b, 8)),
                    },
                )
            }
        },
    }
}

fn push_magic(out: &mut Vec<u8>, m: [u8; 4])
    ensures
        final(out)@ == old(out)@ + m@,
{
    out.push(m[0]);
    out.push(m[1]);
    out.push(m[2]);
    out.push(m[3]);
    assert(out@ =~= old(out)@ + m@);
}

impl ControlPanelPacket {
    /// Parses the frame at the start of `data`. Bytes after the frame are ignored.
    pub fn try_from(data: &[u8]) -> (r: Result<ControlPanelPacket, PacketError>)
        ensures
            match r {
                Ok(p) => parse(data@) == Ok::<ControlPanelFields, PacketError>(p@),
                Err(e) => parse(data@) == Err::<ControlPanelFields, PacketError>(e),
            },
    {
        let payload = match scan_frame(Layout::ControlPanel, data) {
            Ok(n) => n,
            Err(e) => return Err(e),
        };
        let user_end = PAYLOAD_START + data[4] as usize;
        let pass_end = user_end + data[5] as usize;
        let body_end = PAYLOAD_START + payload;
        let ghost body_len = be_u32_at(data@, 8);
        let user = slice_to_vec(slice_subrange(data, PAYLOAD_START, user_end));
        let pass = slice_to_vec(slice_subrange(data, user_end, pass_end));
        let ghost (ub, pb) = (user@, pass@);
        let username = match string_from_utf8(user) {
            Some(s) => s,
            None => return Err(PacketError::InvalidEncoding),
        };
        let password = match string_from_utf8(pass) {
            Some(s) => s,
            None => return Err(PacketError::InvalidEncoding),
        };
        proof {
            encode_utf8_decode_utf8(username@);
            encode_utf8_decode_utf8(password@);
        }
        let body = slice_to_vec(slice_subrange(data, pass_end, body_end));
        assert(pass_end + body_len == body_end);
        Ok(ControlPanelPacket { username, password, main_cmd: data[6], sub_cmd: data[7], body })
    }

    /// The head magic and fixed fields. The whole frame is these bytes followed
    /// by the username, password and body bytes and the tail magic, so a
    /// stream writer can send each piece in turn. Fails before anything is
    /// produced when a string does not fit its length field.
    pub fn header_bytes(&self) -> (r: Result<Vec<u8>, PacketError>)
        requires
            self.body@.len() <= 0xFFFF_FFFF,
        ensures
            r is Ok <==> strings_fit(self@),
            r matches Err(e) ==> e == PacketError::TooLong,
            r matches Ok(h) ==> h@ + encode_utf8(self.username@) + encode_utf8(self.password@)
                + self.body@ + tail_magic(Layout::ControlPanel) == encode(self@),
            r matches Ok(h) ==> h@.len() == PAYLOAD_START,
    {
        let user = self.username.as_str().as_bytes();
        if user.len() > 0xFF {
            return Err(PacketError::TooLong);
        }
        let pass = self.password.as_str().as_bytes();
        if pass.len() > 0xFF {
            return Err(PacketError::TooLong);
        }
        let mut out: Vec<u8> = Vec::new();
        push_magic(&mut out, head_magic_bytes(Layout::ControlPanel));
        out.push(user.len() as u8);
        out.push(pass.len() as u8);
        out.push(self.main_cmd);
        out.push(self.sub_cmd);
        push_be_u32(&mut out, self.body.len() as u32);
        proof {
            let u = encode_utf8(self.username@);
            let p = encode_utf8(self.password@);
            assert(out@ + u + p + self.body@ + tail_magic(Layout::ControlPanel) =~= encode(
                self@,
            ));
        }
        Ok(out)
    }

    /// The whole frame. Fails with `TooLong`, and builds nothing, when a string
    /// does not fit its length field.
    pub fn to_bytes(&self) -> (r: Result<Vec<u8>, PacketError>)
        requires
            self.body@.len() <= 0xFFFF_FFFF,
        ensures
            r is Ok <==> strings_fit(self@),
            r matches Err(e) ==> e == PacketError::TooLong,
            r matches Ok(b) ==> b@ == encode(self@),
    {
        let mut out = match self.header_bytes() {
            Ok(h) => h,
            Err(e) => return Err(e),
        };
        append(&mut out, self.username.as_str().as_bytes());
        append(&mut out, self.password.as_str().as_bytes());
        append(&mut out, self.body.as_slice());
        push_magic(&mut out, tail_magic_bytes(Layout::ControlPanel));
        Ok(out)
    }
}

/// Where each part of a control frame lands, whatever follows it.
proof fn lemma_frame_parts(
    user: Seq<u8>,
    pass: Seq<u8>,
    main_cmd: u8,
    sub_cmd: u8,
    body: Seq<u8>,
    rest: Seq<u8>,
)
    requires
        user.len() <= 0xFF,
        pass.len() <= 0xFF,
        body.len() <= 0xFFFF_FFFF,
    ensures
        ({
            let f = control_frame(user, pass, main_cmd, sub_cmd, body);
            let b = f + rest;
            let user_end = PAYLOAD_START + user.len();
            let pass_end = user_end + pass.len();
            let body_end = pass_end + body.len();
            &&& f.len() == body_end + 4
            &&& b.subrange(0, 4) == head_magic(Layout::ControlPanel)
            &&& b[4] as int == user.len() && b[5] as int == pass.len()
            &&& b[6] == main_cmd && b[7] == sub_cmd
            &&& be_u32_at(b, 8) == body.len()
            &&& b.subrange(PAYLOAD_START as int, user_end) == user
            &&& b.subrange(user_end, pass_end) == pass
            &&& b.subrange(pass_end, body_end) == body
            &&& b.subrange(body_end, body_end + 4) == tail_magic(Layout::ControlPanel)
        }),
{
    let f = control_frame(user, pass, main_cmd, sub_cmd, body);
    let b = f + rest;
    let user_end = PAYLOAD_START + user.len();
    let pass_end = user_end + pass.len();
    let body_end = pass_end + body.len();
    lemma_be_u32_round_trip(body.len());
    let len4 = be_u32_bytes(body.len());
    assert(b.subrange(0, 4) =~= head_magic(Layout::ControlPanel));
    assert(b[8] == len4[0] && b[9] == len4[1] && b[10] == len4[2] && b[11] == len4[3]);
    assert(b.subrange(PAYLOAD_START as int, user_end) =~= user);
    assert(b.subrange(user_end, pass_end) =~= pass);
    assert(b.subrange(pass_end, body_end) =~= body);
    assert(b.subrange(body_end, body_end + 4) =~= tail_magic(Layout::ControlPanel));
}

/// Parsing a frame built from raw segments gives those segments back, as long
/// as both string segments are valid UTF-8; otherwise it fails with
/// `InvalidEncoding`. Bytes after the frame change nothing.
pub proof fn lemma_parse_frame(
    user: Seq<u8>,
    pass: Seq<u8>,
    main_cmd: u8,
    sub_cmd: u8,
    body: Seq<u8>,
    rest: Seq<u8>,
)
    requires
        user.len() <= 0xFF,
        pass.len() <= 0xFF,
        body.len() <= 0xFFFF_FFFF,
    ensures
        scan(Layout::ControlPanel, control_frame(user, pass, main_cmd, sub_cmd, body) + rest) == Ok::<
            (),
            PacketError,
        >(()),
        parse(control_frame(user, pass, main_cmd, sub_cmd, body) + rest) == if valid_utf8(user)
            && valid_utf8(pass) {
            Ok(
                ControlPanelFields {
                    username: decode_utf8(user),
                    password: decode_utf8(pass),
                    main_cmd,
                    sub_cmd,
                    body,
                },
            )
        } else {
            Err(PacketError::InvalidEncoding)
        },
{
    lemma_frame_parts(user, pass, main_cmd, sub_cmd, body, rest);
}

/// A control frame with a string segment that is not UTF-8 is rejected with
/// `InvalidEncoding`, even when everything else about it is well formed.
pub proof fn lemma_invalid_utf8_rejected(
    user: Seq<u8>,
    pass: Seq<u8>,
    main_cmd: u8,
    sub_cmd: u8,
    body: Seq<u8>,
)
    requires
        user.len() <= 0xFF,
        pass.len() <= 0xFF,
        body.len() <= 0xFFFF_FFFF,
        !valid_utf8(user) || !valid_utf8(pass),
    ensures
        parse(control_frame(user, pass, main_cmd, sub_cmd, body)) == Err::<
            ControlPanelFields,
            PacketError,
        >(PacketError::InvalidEncoding),
{
    lemma_parse_frame(user, pass, main_cmd, sub_cmd, body, Seq::empty());
    assert(control_frame(user, pass, main_cmd, sub_cmd, body) + Seq::<u8>::empty()
        =~= control_frame(user, pass, main_cmd, sub_cmd, body));
}

/// Parsing what `encode` produced gives the fields back, from a buffer or from
/// a stream, and a stream reader takes exactly the frame's bytes.
pub proof fn lemma_round_trip(f: ControlPanelFields, rest: Seq<u8>)
    requires
        encodable(f),
    ensures
        parse(encode(f)) == Ok::<ControlPanelFields, PacketError>(f),
        parse(encode(f) + rest) == Ok::<ControlPanelFields, PacketError>(f),
        stream_outcome(Layout::ControlPanel, encode(f) + rest) == StreamOutcome::Complete(
            encode(f).len(),
        ),
        (encode(f) + rest).subrange(0, encode(f).len() as int) == encode(f),
{
    let u = encode_utf8(f.username);
    let p = encode_utf8(f.password);
    encode_utf8_valid_utf8(f.username);
    encode_utf8_valid_utf8(f.password);
    encode_utf8_decode_utf8(f.username);
    encode_utf8_decode_utf8(f.password);
    lemma_frame_parts(u, p, f.main_cmd, f.sub_cmd, f.body, rest);
    lemma_parse_frame(u, p, f.main_cmd, f.sub_cmd, f.body, rest);
    lemma_parse_frame(u, p, f.main_cmd, f.sub_cmd, f.body, Seq::empty());
    assert(encode(f) + Seq::<u8>::empty() =~= encode(f));
    assert((encode(f) + rest).subrange(0, encode(f).len() as int) =~= encode(f));
}

/// Changing any byte of the head magic of an encoded frame makes parsing and
/// stream reading fail with `InvalidHeadMagic`, and with nothing else.
pub proof fn lemma_head_magic_enforced(f: ControlPanelFields, i: int, x: u8)
    requires
        encodable(f),
        0 <= i < 4,
        x != encode(f)[i],
    ensures
        parse(encode(f).update(i, x)) == Err::<ControlPanelFields, PacketError>(
            PacketError::InvalidHeadMagic,
        ),
        stream_outcome(Layout::ControlPanel, encode(f).update(i, x)) == StreamOutcome::Failed(
            PacketError::InvalidHeadMagic,
        ),
{
    let b = encode(f).update(i, x);
    lemma_round_trip(f, Seq::empty());
    assert(b.subrange(0, 4)[i] != head_magic(Layout::ControlPanel)[i]);
}

/// Changing any byte of the tail magic of an encoded frame makes parsing fail
/// with `InvalidTailMagic`, and with nothing else; a stream reader still takes
/// the whole frame, which then fails to parse the same way.
pub proof fn lemma_tail_magic_enforced(f: ControlPanelFields, i: int, x: u8)
    requires
        encodable(f),
        encode(f).len() - 4 <= i < encode(f).len(),
        x != encode(f)[i],
    ensures
        parse(encode(f).update(i, x)) == Err::<ControlPanelFields, PacketError>(
            PacketError::InvalidTailMagic,
        ),
        stream_outcome(Layout::ControlPanel, encode(f).update(i, x)) == StreamOutcome::Complete(
            encode(f).len(),
        ),
{
    let e = encode(f);
    let b = e.update(i, x);
    let u = encode_utf8(f.username);
    let p = encode_utf8(f.password);
    lemma_frame_parts(u, p, f.main_cmd, f.sub_cmd, f.body, Seq::empty());
    assert(e + Seq::<u8>::empty() =~= e);
    assert(b.subrange(0, 4) =~= e.subrange(0, 4));
    assert(b[4] == e[4] && b[5] == e[5] && b[8] == e[8] && b[9] == e[9] && b[10] == e[10] && b[11]
        == e[11]);
    let t = e.len() - 4;
    assert(b.subrange(t, t + 4)[i - t] != tail_magic(Layout::ControlPanel)[i - t]);
}

/// A buffer of exactly the minimum size, with zero declared lengths and both
/// magics in place, parses to empty strings and an empty body.
pub proof fn lemma_minimum_frame(b: Seq<u8>)
    requires
        b.len() == super::OVERHEAD,
        b.subrange(0, 4) == head_magic(Layout::ControlPanel),
        b[4] == 0 && b[5] == 0,
        be_u32_at(b, 8) == 0,
        b.subrange(12, 16) == tail_magic(Layout::ControlPanel),
    ensures
        parse(b) == Ok::<ControlPanelFields, PacketError>(
            ControlPanelFields {
                username: Seq::empty(),
                password: Seq::empty(),
                main_cmd: b[6],
                sub_cmd: b[7],
                body: Seq::empty(),
            },
        ),
{
    let e = Seq::<u8>::empty();
    assert(b.subrange(12, 12) =~= e);
    assert(encode_utf8(Seq::<char>::empty()) =~= e);
    decode_utf8_encode_utf8(e);
    encode_utf8_decode_utf8(Seq::<char>::empty());
    encode_utf8_valid_utf8(Seq::<char>::empty());
}

} // verus!
