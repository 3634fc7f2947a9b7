use railgun_common::packet::control_panel::ControlPanelPacket;
use railgun_common::packet::FrameReader;
use railgun_common::packet::Layout;
use railgun_common::packet::PacketError;

const HEAD: [u8; 4] = [0x17, 0x08, 0x19, 0x45];
const TAIL: [u8; 4] = *b"YVLN";

fn sample() -> ControlPanelPacket {
    ControlPanelPacket {
        username: "admin".to_string(),
        password: "pässwörd".to_string(),
        main_cmd: 3,
        sub_cmd: 9,
        body: vec![0xDE, 0xAD, 0xBE, 0xEF],
    }
}

fn same(a: &ControlPanelPacket, b: &ControlPanelPacket) -> bool {
    a.username == b.username
        && a.password == b.password
        && a.main_cmd == b.main_cmd
        && a.sub_cmd == b.sub_cmd
        && a.body == b.body
}

fn read_stream(stream: &[u8]) -> Result<Vec<u8>, PacketError> {
    let mut reader = FrameReader::new(Layout::ControlPanel);
    let mut pos = 0usize;
    while !reader.is_complete() {
        let n = reader.wanted() as usize;
        assert!(pos + n <= stream.len(), "stream ended early");
        reader.feed(&stream[pos..pos + n])?;
        pos += n;
    }
    Ok(reader.into_bytes())
}

/// A frame with raw username and password bytes.
fn raw_frame(user: &[u8], pass: &[u8], body: &[u8]) -> Vec<u8> {
    let mut b = HEAD.to_vec();
    b.push(user.len() as u8);
    b.push(pass.len() as u8);
    b.push(1);
    b.push(2);
    b.extend_from_slice(&(body.len() as u32).to_be_bytes());
    b.extend_from_slice(user);
    b.extend_from_slice(pass);
    b.extend_from_slice(body);
    b.extend_from_slice(&TAIL);
    b
}

#[test]
fn control_wire_layout() {
    let bytes = sample().to_bytes().unwrap();
    let pass = "pässwörd".as_bytes();
    assert_eq!(&bytes[0..4], &HEAD);
    assert_eq!(bytes[4], 5);
    assert_eq!(bytes[5] as usize, pass.len());
    assert_eq!(bytes[6], 3);
    assert_eq!(bytes[7], 9);
    assert_eq!(&bytes[8..12], &[0, 0, 0, 4]);
    assert_eq!(&bytes[12..17], b"admin");
    assert_eq!(&bytes[17..17 + pass.len()], pass);
    assert_eq!(&bytes[17 + pass.len()..21 + pass.len()], &[0xDE, 0xAD, 0xBE, 0xEF]);
    assert_eq!(&bytes[bytes.len() - 4..], b"YVLN");
    assert_eq!(bytes.len(), 16 + 5 + pass.len() + 4);
}

#[test]
fn control_round_trip_buffer() {
    let p = sample();
    let bytes = p.to_bytes().unwrap();
    assert!(same(&ControlPanelPacket::try_from(&bytes).unwrap(), &p));
}

#[test]
fn control_round_trip_stream() {
    let p = sample();
    let mut stream = p.to_bytes().unwrap();
    let n = stream.len();
    stream.extend_from_slice(b"next");
    let frame = read_stream(&stream).unwrap();
    assert_eq!(frame.len(), n);
    assert!(same(&ControlPanelPacket::try_from(&frame).unwrap(), &p));
}

#[test]
fn control_round_trip_longest_strings() {
    let p = ControlPanelPacket {
        username: "u".repeat(255),
        password: "p".repeat(255),
        main_cmd: 0,
        sub_cmd: 0xFF,
        body: vec![],
    };
    let bytes = p.to_bytes().unwrap();
    assert!(same(&ControlPanelPacket::try_from(&bytes).unwrap(), &p));
}

#[test]
fn control_header_and_segments_make_the_frame() {
    let p = sample();
    let mut pieces = p.header_bytes().unwrap();
    assert_eq!(pieces.len(), 12);
    pieces.extend_from_slice(p.username.as_bytes());
    pieces.extend_from_slice(p.password.as_bytes());
    pieces.extend_from_slice(&p.body);
    pieces.extend_from_slice(&TAIL);
    assert_eq!(pieces, p.to_bytes().unwrap());
}

#[test]
fn control_oversize_username_rejected() {
    let mut p = sample();
    p.username = "x".repeat(256);
    assert_eq!(p.to_bytes().unwrap_err(), PacketError::TooLong);
    assert_eq!(p.header_bytes().unwrap_err(), PacketError::TooLong);
}

#[test]
fn control_oversize_password_rejected() {
    let mut p = sample();
    p.password = "é".repeat(128);
    assert_eq!(p.password.len(), 256);
    assert_eq!(p.to_bytes().unwrap_err(), PacketError::TooLong);
    assert_eq!(p.header_bytes().unwrap_err(), PacketError::TooLong);
}

#[test]
fn control_invalid_utf8_rejected() {
    let b = raw_frame(&[0x61, 0xFF, 0x62], b"ok", &[1]);
    assert_eq!(ControlPanelPacket::try_from(&b).unwrap_err(), PacketError::InvalidEncoding);
    let b = raw_frame(b"ok", &[0xC3], &[]);
    assert_eq!(ControlPanelPacket::try_from(&b).unwrap_err(), PacketError::InvalidEncoding);
    let b = raw_frame(b"ok", &[0xED, 0xA0, 0x80], &[]);
    assert_eq!(ControlPanelPacket::try_from(&b).unwrap_err(), PacketError::InvalidEncoding);
}

#[test]
fn control_raw_frame_decodes_text() {
    let b = raw_frame("zoë".as_bytes(), b"", &[5, 6]);
    let p = ControlPanelPacket::try_from(&b).unwrap();
    assert_eq!(p.username, "zoë");
    assert_eq!(p.password, "");
    assert_eq!((p.main_cmd, p.sub_cmd), (1, 2));
    assert_eq!(p.body, vec![5, 6]);
}

#[test]
fn control_head_magic_flip_rejected() {
    let bytes = sample().to_bytes().unwrap();
    for i in 0..4 {
        let mut b = bytes.clone();
        b[i] = !b[i];
        assert_eq!(ControlPanelPacket::try_from(&b).unwrap_err(), PacketError::InvalidHeadMagic);
        assert_eq!(read_stream(&b).unwrap_err(), PacketError::InvalidHeadMagic);
    }
}

#[test]
fn control_tail_magic_flip_rejected() {
    let bytes = sample().to_bytes().unwrap();
    let n = bytes.len();
    for i in n - 4..n {
        let mut b = bytes.clone();
        b[i] ^= 0x80;
        assert_eq!(ControlPanelPacket::try_from(&b).unwrap_err(), PacketError::InvalidTailMagic);
    }
}

#[test]
fn control_length_lie_rejected() {
    let mut b = raw_frame(b"", b"", &[]);
    b[8..12].copy_from_slice(&[0xFF, 0xFF, 0xFF, 0xFF]);
    assert_eq!(ControlPanelPacket::try_from(&b).unwrap_err(), PacketError::SizeMismatch);
    b[4] = 0xFF;
    b[5] = 0xFF;
    assert_eq!(ControlPanelPacket::try_from(&b).unwrap_err(), PacketError::SizeMismatch);
    let mut b = raw_frame(b"abc", b"", &[]);
    b[4] = 4;
    assert_eq!(ControlPanelPacket::try_from(&b).unwrap_err(), PacketError::SizeMismatch);
}

#[test]
fn control_minimum_size_boundary() {
    let b = raw_frame(b"", b"", &[]);
    assert_eq!(b.len(), 16);
    let p = ControlPanelPacket::try_from(&b).unwrap();
    assert!(p.username.is_empty() && p.password.is_empty() && p.body.is_empty());
    assert_eq!((p.main_cmd, p.sub_cmd), (1, 2));
    assert_eq!(ControlPanelPacket::try_from(&b[..15]).unwrap_err(), PacketError::TooShort);
}

#[test]
fn control_stream_reader_sums_declared_lengths() {
    let mut reader = FrameReader::new(Layout::ControlPanel);
    reader.feed(&HEAD).unwrap();
    reader.feed(&[0xFF, 0xFF, 0, 0, 0xFF, 0xFF, 0xFF, 0xFF]).unwrap();
    assert_eq!(reader.wanted(), 0xFF + 0xFF + 0xFFFF_FFFF + 4);
}

#[test]
fn control_stream_reader_rejects_head_at_once() {
    let mut reader = FrameReader::new(Layout::ControlPanel);
    assert_eq!(reader.feed(b"YVLN").unwrap_err(), PacketError::InvalidHeadMagic);
    assert_eq!(reader.wanted(), 4);
}

#[test]
fn error_names() {
    assert_eq!(PacketError::TooShort.as_str(), "TooShort");
    assert_eq!(PacketError::TooLong.as_str(), "TooLong");
    assert_eq!(PacketError::InvalidHeadMagic.as_str(), "InvalidHeadMagic");
    assert_eq!(PacketError::InvalidTailMagic.as_str(), "InvalidTailMagic");
    assert_eq!(PacketError::SizeMismatch.as_str(), "SizeMismatch");
    assert_eq!(PacketError::InvalidEncoding.as_str(), "InvalidEncoding");
}
