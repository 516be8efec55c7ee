use rdp_pdu::codec::PduParsing;
use rdp_pdu::error::DecodeError;
use rdp_pdu::geometry::InclusiveRectangle;
use rdp_pdu::reader::ByteReader;
use rdp_pdu::suppress_output::{AllowDisplayUpdatesType, SuppressOutputPdu};

const SUPPRESS_BUFFER: [u8; 4] = [0x00, 0x00, 0x00, 0x00];

const ALLOW_BUFFER: [u8; 12] = [
    0x01, 0x00, 0x00, 0x00, // allow, padding
    0x10, 0x00, // left
    0x20, 0x00, // top
    0xff, 0x03, // right
    0x00, 0x03, // bottom
];

fn allow_pdu() -> SuppressOutputPdu {
    SuppressOutputPdu {
        desktop_rect: Some(InclusiveRectangle { left: 16, top: 32, right: 1023, bottom: 768 }),
    }
}

fn encode<T: PduParsing>(value: &T) -> Vec<u8> {
    let mut out = Vec::new();
    value.to_buffer(&mut out).unwrap();
    out
}

#[test]
fn from_u8_accepts_the_two_tags() {
    assert_eq!(AllowDisplayUpdatesType::from_u8(0x00), Some(AllowDisplayUpdatesType::SuppressDisplayUpdates));
    assert_eq!(AllowDisplayUpdatesType::from_u8(0x01), Some(AllowDisplayUpdatesType::AllowDisplayUpdates));
}

#[test]
fn from_u8_rejects_every_other_byte() {
    for value in 0x02..=0xffu8 {
        assert_eq!(AllowDisplayUpdatesType::from_u8(value), None);
    }
}

#[test]
fn as_u8_gives_the_tag_and_from_u8_reads_it_back() {
    assert_eq!(AllowDisplayUpdatesType::SuppressDisplayUpdates.as_u8(), 0x00);
    assert_eq!(AllowDisplayUpdatesType::AllowDisplayUpdates.as_u8(), 0x01);
    for t in [AllowDisplayUpdatesType::SuppressDisplayUpdates, AllowDisplayUpdatesType::AllowDisplayUpdates] {
        assert_eq!(AllowDisplayUpdatesType::from_u8(t.as_u8()), Some(t));
    }
}

#[test]
fn update_type_follows_the_rectangle() {
    assert_eq!(allow_pdu().update_type(), AllowDisplayUpdatesType::AllowDisplayUpdates);
    assert_eq!(
        SuppressOutputPdu { desktop_rect: None }.update_type(),
        AllowDisplayUpdatesType::SuppressDisplayUpdates
    );
}

#[test]
fn from_buffer_parses_suppress_without_rectangle() {
    let mut stream = ByteReader::new(&SUPPRESS_BUFFER);
    let pdu = SuppressOutputPdu::from_buffer(&mut stream).unwrap();
    assert_eq!(pdu, SuppressOutputPdu { desktop_rect: None });
    assert_eq!(stream.position(), 4);
    assert_eq!(pdu.buffer_length(), 4);
}

#[test]
fn from_buffer_parses_allow_with_rectangle() {
    let mut stream = ByteReader::new(&ALLOW_BUFFER);
    let pdu = SuppressOutputPdu::from_buffer(&mut stream).unwrap();
    assert_eq!(pdu, allow_pdu());
    assert_eq!(stream.position(), 12);
    assert_eq!(stream.remaining_len(), 0);
    assert_eq!(pdu.buffer_length(), 12);
}

#[test]
fn from_buffer_rejects_tag_two() {
    let mut stream = ByteReader::new(&[0x02, 0x00, 0x00, 0x00]);
    assert_eq!(SuppressOutputPdu::from_buffer(&mut stream), Err(DecodeError::InvalidDiscriminant));
    assert_eq!(stream.position(), 0);
}

#[test]
fn from_buffer_rejects_every_unknown_tag() {
    for tag in 0x02..=0xffu8 {
        let bytes = [tag, 0, 0, 0, 1, 0, 2, 0, 3, 0, 4, 0];
        let mut stream = ByteReader::new(&bytes);
        assert_eq!(SuppressOutputPdu::from_buffer(&mut stream), Err(DecodeError::InvalidDiscriminant));
        let mut lone = ByteReader::new(&bytes[..1]);
        assert_eq!(SuppressOutputPdu::from_buffer(&mut lone), Err(DecodeError::InvalidDiscriminant));
    }
}

#[test]
fn suppress_leaves_trailing_bytes_unread() {
    let bytes = [0x00, 0x00, 0x00, 0x00, 0x10, 0x00, 0x20, 0x00, 0xff, 0x03, 0x00, 0x03];
    let mut stream = ByteReader::new(&bytes);
    let pdu = SuppressOutputPdu::from_buffer(&mut stream).unwrap();
    assert_eq!(pdu.desktop_rect, None);
    assert_eq!(stream.position(), 4);
    assert_eq!(stream.remaining_len(), 8);
}

#[test]
fn allow_takes_exactly_the_rectangle() {
    let mut bytes = ALLOW_BUFFER.to_vec();
    bytes.extend_from_slice(&[0xaa, 0xbb, 0xcc]);
    let mut stream = ByteReader::new(&bytes);
    let pdu = SuppressOutputPdu::from_buffer(&mut stream).unwrap();
    assert_eq!(pdu, allow_pdu());
    assert_eq!(stream.position(), 4 + pdu.desktop_rect.unwrap().buffer_length());
    assert_eq!(stream.read_u8(), Ok(0xaa));
}

#[test]
fn padding_is_not_validated_on_read_and_zero_on_write() {
    let mut stream = ByteReader::new(&[0x00, 0x7f, 0x80, 0xff]);
    let pdu = SuppressOutputPdu::from_buffer(&mut stream).unwrap();
    assert_eq!(pdu, SuppressOutputPdu { desktop_rect: None });
    assert_eq!(encode(&pdu), vec![0x00, 0x00, 0x00, 0x00]);
}

#[test]
fn from_buffer_reports_truncation() {
    let mut empty = ByteReader::new(&[]);
    assert_eq!(SuppressOutputPdu::from_buffer(&mut empty), Err(DecodeError::Truncated));
    let mut short = ByteReader::new(&[0x01, 0x00, 0x00]);
    assert_eq!(SuppressOutputPdu::from_buffer(&mut short), Err(DecodeError::Truncated));
    assert_eq!(short.position(), 0);
}

#[test]
fn from_buffer_reports_a_rectangle_that_does_not_decode() {
    let mut stream = ByteReader::new(&ALLOW_BUFFER[..11]);
    assert_eq!(SuppressOutputPdu::from_buffer(&mut stream), Err(DecodeError::InvalidTrailer));
    assert_eq!(stream.position(), 0);
    let mut bare = ByteReader::new(&ALLOW_BUFFER[..4]);
    assert_eq!(SuppressOutputPdu::from_buffer(&mut bare), Err(DecodeError::InvalidTrailer));
}

#[test]
fn to_buffer_writes_the_wire_format() {
    assert_eq!(encode(&SuppressOutputPdu { desktop_rect: None }), SUPPRESS_BUFFER.to_vec());
    assert_eq!(encode(&allow_pdu()), ALLOW_BUFFER.to_vec());
}

#[test]
fn to_buffer_appends_after_what_is_there() {
    let mut out = vec![0xee, 0xdd];
    allow_pdu().to_buffer(&mut out).unwrap();
    assert_eq!(&out[..2], &[0xee, 0xdd]);
    assert_eq!(&out[2..], &ALLOW_BUFFER);
}

#[test]
fn suppress_output_round_trips() {
    for pdu in [SuppressOutputPdu { desktop_rect: None }, allow_pdu()] {
        let bytes = encode(&pdu);
        assert_eq!(bytes.len(), pdu.buffer_length());
        let mut stream = ByteReader::new(&bytes);
        assert_eq!(SuppressOutputPdu::from_buffer(&mut stream), Ok(pdu));
        assert_eq!(stream.position(), bytes.len());
    }
}

#[test]
fn rectangle_is_four_little_endian_edges() {
    let rect = InclusiveRectangle { left: 0x0102, top: 0x0304, right: 0x0506, bottom: 0x0708 };
    let bytes = encode(&rect);
    assert_eq!(bytes, vec![0x02, 0x01, 0x04, 0x03, 0x06, 0x05, 0x08, 0x07]);
    assert_eq!(rect.buffer_length(), 8);
    let mut stream = ByteReader::new(&bytes);
    assert_eq!(InclusiveRectangle::from_buffer(&mut stream), Ok(rect));
    assert_eq!(stream.position(), 8);
}

#[test]
fn rectangle_needs_eight_bytes() {
    let bytes = [1u8, 2, 3, 4, 5, 6, 7];
    let mut stream = ByteReader::new(&bytes);
    assert_eq!(InclusiveRectangle::from_buffer(&mut stream), Err(DecodeError::Truncated));
    assert_eq!(stream.position(), 0);
}

#[test]
fn decode_gives_the_value_and_the_bytes_taken() {
    let mut bytes = ALLOW_BUFFER.to_vec();
    bytes.push(0x55);
    assert_eq!(rdp_pdu::codec::decode::<SuppressOutputPdu>(&bytes), Ok((allow_pdu(), 12)));
    assert_eq!(
        rdp_pdu::codec::decode::<SuppressOutputPdu>(&[0x00, 0x01, 0x02, 0x03, 0x04]),
        Ok((SuppressOutputPdu { desktop_rect: None }, 4))
    );
    assert_eq!(
        rdp_pdu::codec::decode::<SuppressOutputPdu>(&[0xff]),
        Err(DecodeError::InvalidDiscriminant)
    );
}

#[test]
fn encode_gives_the_bytes_alone() {
    assert_eq!(rdp_pdu::codec::encode(&allow_pdu()), Ok(ALLOW_BUFFER.to_vec()));
    assert_eq!(
        rdp_pdu::codec::encode(&SuppressOutputPdu { desktop_rect: None }),
        Ok(SUPPRESS_BUFFER.to_vec())
    );
}
