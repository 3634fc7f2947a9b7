use railgun_common::packet::hsr::NetPacket;
use railgun_common::packet::FrameReader;
use railgun_common::packet::Layout;
use railgun_common::packet::PacketError;

const HEAD: [u8; 4] = [0x9D, 0x74, 0xC7, 0x14];
const TAIL: [u8; 4] = [0xD7, 0xA1, 0x52, 0xC8];

fn sample() -> NetPacket {
    NetPacket { cmd: 0x1234, head: vec![1, 2, 3], body: vec![9, 8, 7, 6, 5] }
}

fn same(a: &NetPacket, b: &NetPacket) -> bool {
    a.cmd == b.cmd && a.head == b.head && a.body == b.body
}

/// Reads one frame from `stream` the way a transport loop does.
fn read_stream(stream: &[u8]) -> Result<Vec<u8>, PacketError> {
    let mut reader = FrameReader::new(Layout::Net);
    let mut pos = 0usize;
    while !reader.is_complete() {
        let n = reader.wanted() as usize;
        assert!(pos + n <= stream.len(), "stream ended early");
        reader.feed(&stream[pos..pos + n])?;
        pos += n;
    }
    Ok(reader.into_bytes())
}

#[test]
fn serializes_command_frame_with_empty_head() {
    let p = NetPacket { cmd: 0x0001, head: vec![], body: vec![0xAA, 0xBB] };
    let bytes = p.to_bytes();
    let mut expected = HEAD.to_vec();
    expected.extend_from_slice(&[0x00, 0x01, 0x00, 0x00, 0x00, 0x00, 0x00, 0x02, 0xAA, 0xBB]);
    expected.extend_from_slice(&TAIL);
    assert_eq!(bytes, expected);
    let back = NetPacket::try_from(&bytes).unwrap();
    assert_eq!(back.cmd, 0x0001);
    assert!(back.head.is_empty());
    assert_eq!(back.body, vec![0xAA, 0xBB]);
}

#[test]
fn net_round_trip_buffer() {
    let p = sample();
    let bytes = p.to_bytes();
    assert_eq!(bytes.len(), 16 + 3 + 5);
    assert!(same(&NetPacket::try_from(&bytes).unwrap(), &p));
}

#[test]
fn net_round_trip_with_trailing_bytes() {
    let p = sample();
    let mut bytes = p.to_bytes();
    bytes.extend_from_slice(&[0xFF, 0x00, 0x42]);
    assert!(same(&NetPacket::try_from(&bytes).unwrap(), &p));
}

#[test]
fn net_round_trip_stream() {
    let p = sample();
    let mut stream = p.to_bytes();
    let frame_len = stream.len();
    stream.extend_from_slice(&HEAD);
    let frame = read_stream(&stream).unwrap();
    assert_eq!(frame.len(), frame_len);
    assert!(same(&NetPacket::try_from(&frame).unwrap(), &p));
}

#[test]
fn net_header_and_segments_make_the_frame() {
    let p = sample();
    let mut pieces = p.header_bytes();
    assert_eq!(pieces.len(), 12);
    pieces.extend_from_slice(&p.head);
    pieces.extend_from_slice(&p.body);
    pieces.extend_from_slice(&TAIL);
    assert_eq!(pieces, p.to_bytes());
}

#[test]
fn net_head_magic_flip_rejected() {
    let bytes = sample().to_bytes();
    for i in 0..4 {
        let mut b = bytes.clone();
        b[i] ^= 0x01;
        assert_eq!(NetPacket::try_from(&b).unwrap_err(), PacketError::InvalidHeadMagic);
        assert_eq!(read_stream(&b).unwrap_err(), PacketError::InvalidHeadMagic);
    }
}

#[test]
fn net_tail_magic_flip_rejected() {
    let bytes = sample().to_bytes();
    let n = bytes.len();
    for i in n - 4..n {
        let mut b = bytes.clone();
        b[i] = b[i].wrapping_add(1);
        assert_eq!(NetPacket::try_from(&b).unwrap_err(), PacketError::InvalidTailMagic);
    }
}

#[test]
fn net_length_lie_rejected() {
    let mut b = NetPacket { cmd: 7, head: vec![], body: vec![] }.to_bytes();
    b[6] = 0xFF;
    b[7] = 0xFF;
    assert_eq!(NetPacket::try_from(&b).unwrap_err(), PacketError::SizeMismatch);
    let mut b = NetPacket { cmd: 7, head: vec![], body: vec![] }.to_bytes();
    for i in 8..12 {
        b[i] = 0xFF;
    }
    assert_eq!(NetPacket::try_from(&b).unwrap_err(), PacketError::SizeMismatch);
    for i in 6..12 {
        b[i] = 0xFF;
    }
    assert_eq!(NetPacket::try_from(&b).unwrap_err(), PacketError::SizeMismatch);
}

#[test]
fn net_minimum_size_boundary() {
    let mut b = HEAD.to_vec();
    b.extend_from_slice(&[0xAB, 0xCD, 0, 0, 0, 0, 0, 0]);
    b.extend_from_slice(&TAIL);
    assert_eq!(b.len(), 16);
    let p = NetPacket::try_from(&b).unwrap();
    assert_eq!(p.cmd, 0xABCD);
    assert!(p.head.is_empty() && p.body.is_empty());
    assert_eq!(NetPacket::try_from(&b[..15]).unwrap_err(), PacketError::TooShort);
    assert_eq!(NetPacket::try_from(&[]).unwrap_err(), PacketError::TooShort);
}

#[test]
fn net_stream_reader_asks_for_each_part() {
    let bytes = sample().to_bytes();
    let mut reader = FrameReader::new(Layout::Net);
    assert_eq!(reader.wanted(), 4);
    reader.feed(&bytes[0..4]).unwrap();
    assert!(!reader.is_complete());
    assert_eq!(reader.wanted(), 8);
    reader.feed(&bytes[4..12]).unwrap();
    assert_eq!(reader.wanted(), 3 + 5 + 4);
    reader.feed(&bytes[12..]).unwrap();
    assert!(reader.is_complete());
    assert_eq!(reader.wanted(), 0);
    assert_eq!(reader.into_bytes(), bytes);
}

#[test]
fn net_stream_reader_declared_maximum_lengths() {
    let mut reader = FrameReader::new(Layout::Net);
    reader.feed(&HEAD).unwrap();
    reader.feed(&[0, 1, 0xFF, 0xFF, 0xFF, 0xFF, 0xFF, 0xFF]).unwrap();
    assert_eq!(reader.wanted(), 0xFFFF + 0xFFFF_FFFF + 4);
    assert!(!reader.is_complete());
}

#[test]
fn net_wrong_layout_magic_rejected() {
    let mut b = sample().to_bytes();
    b[0..4].copy_from_slice(&[0x17, 0x08, 0x19, 0x45]);
    assert_eq!(NetPacket::try_from(&b).unwrap_err(), PacketError::InvalidHeadMagic);
}
