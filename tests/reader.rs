use derp::cursor::Reader;
use derp::der::{
    bit_string_with_no_unused_bits, expect_tag_and_get_value, nested, positive_integer,
    read_null, read_tag_and_get_value, Tag,
};
use derp::length::{decode_length, encode_length, length_of_length};
use derp::writer::Der;
use derp::Error;

const EXAMPLE: &[u8] = &[
    0x30, 0x18, 0x05, 0x00, 0x30, 0x0e, 0x02, 0x06, 0x01, 0x02, 0x03, 0x04, 0x05, 0x06, 0x02,
    0x04, 0x0a, 0x0b, 0x0c, 0x0d, 0x03, 0x04, 0x00, 0xff, 0xff, 0xff,
];

fn encoded_length(len: usize) -> Vec<u8> {
    let mut out = Vec::new();
    encode_length(&mut out, len);
    out
}

fn decoded_length(bytes: &[u8]) -> (Result<usize, Error>, usize) {
    let mut r = Reader::new(bytes);
    let len = decode_length(&mut r);
    (len, r.remaining().len())
}

fn read_positive(bytes: &[u8]) -> Result<Vec<u8>, Error> {
    let mut r = Reader::new(bytes);
    positive_integer(&mut r).map(|c| c.to_vec())
}

fn read_bits(bytes: &[u8]) -> Result<Vec<u8>, Error> {
    let mut r = Reader::new(bytes);
    bit_string_with_no_unused_bits(&mut r).map(|c| c.to_vec())
}

#[test]
fn length_round_trip_uses_minimal_octets() {
    let cases: [usize; 9] = [0, 1, 127, 128, 255, 256, 65535, 65536, usize::MAX];
    for &len in cases.iter() {
        let enc = encoded_length(len);
        let expected_size = if len < 128 {
            1
        } else {
            1 + length_of_length(len) as usize
        };
        assert_eq!(enc.len(), expected_size);
        let mut buf = enc.clone();
        buf.push(0xAA);
        let (got, left) = decoded_length(&buf);
        assert_eq!(got, Ok(len));
        assert_eq!(left, 1);
    }
}

#[test]
fn length_encodings_exact() {
    assert_eq!(encoded_length(0), vec![0x00]);
    assert_eq!(encoded_length(127), vec![0x7f]);
    assert_eq!(encoded_length(128), vec![0x81, 0x80]);
    assert_eq!(encoded_length(255), vec![0x81, 0xff]);
    assert_eq!(encoded_length(256), vec![0x82, 0x01, 0x00]);
    assert_eq!(encoded_length(0x0102_03), vec![0x83, 0x01, 0x02, 0x03]);
}

#[test]
fn length_of_length_values() {
    assert_eq!(length_of_length(0), 1);
    assert_eq!(length_of_length(255), 1);
    assert_eq!(length_of_length(256), 2);
    assert_eq!(length_of_length(65535), 2);
    assert_eq!(length_of_length(65536), 3);
    assert_eq!(length_of_length(usize::MAX), std::mem::size_of::<usize>() as u8);
}

#[test]
fn length_refuses_non_canonical_forms() {
    assert_eq!(decoded_length(&[0x81, 0x7f]).0, Err(Error::NonCanonical));
    assert_eq!(decoded_length(&[0x82, 0x00, 0x80]).0, Err(Error::NonCanonical));
    assert_eq!(decoded_length(&[0x80]).0, Err(Error::LongLengthNotSupported));
    assert_eq!(
        decoded_length(&[0x89, 1, 0, 0, 0, 0, 0, 0, 0, 0]).0,
        Err(Error::LongLengthNotSupported)
    );
    assert_eq!(decoded_length(&[0x82, 0x01]).0, Err(Error::UnexpectedEnd));
    assert_eq!(decoded_length(&[]).0, Err(Error::UnexpectedEnd));
}

#[test]
fn positive_integer_leading_zero() {
    assert_eq!(read_positive(&[0x02, 0x02, 0x00, 0x7f]), Err(Error::LeadingZero));
    assert_eq!(read_positive(&[0x02, 0x02, 0x00, 0x80]), Ok(vec![0x00, 0x80]));
    assert_eq!(read_positive(&[0x02, 0x01, 0x80]), Err(Error::NegativeValue));
}

#[test]
fn positive_integer_edges() {
    assert_eq!(read_positive(&[0x02, 0x00]), Err(Error::UnexpectedEnd));
    assert_eq!(read_positive(&[0x02, 0x01, 0x00]), Ok(vec![0x00]));
    assert_eq!(read_positive(&[0x02, 0x01, 0x7f]), Ok(vec![0x7f]));
    assert_eq!(read_positive(&[0x04, 0x01, 0x7f]), Err(Error::WrongTag));
    assert_eq!(read_positive(&[0x02, 0x03, 0x01]), Err(Error::UnexpectedEnd));
}

#[test]
fn bit_string_strictness() {
    assert_eq!(read_bits(&[0x03, 0x02, 0x00, 0xff]), Ok(vec![0xff]));
    assert_eq!(read_bits(&[0x03, 0x02, 0x01, 0xfe]), Err(Error::NonZeroUnusedBits));
    assert_eq!(read_bits(&[0x03, 0x00]), Err(Error::UnexpectedEnd));
    assert_eq!(read_bits(&[0x03, 0x01, 0x00]), Ok(vec![]));
}

#[test]
fn trailing_byte_after_sequence_rejected() {
    let buf = [0x30, 0x02, 0x05, 0x00, 0xff];
    let mut r = Reader::new(&buf);
    let mut seq = nested(&mut r, Tag::Sequence).unwrap();
    assert_eq!(read_null(&mut seq), Ok(()));
    assert_eq!(seq.complete(Error::NonCanonical), Ok(()));
    assert_eq!(r.complete(Error::Read), Err(Error::Read));
}

#[test]
fn unread_bytes_inside_element_rejected() {
    let buf = [0x30, 0x03, 0x05, 0x00, 0xff];
    let mut r = Reader::new(&buf);
    let mut seq = nested(&mut r, Tag::Sequence).unwrap();
    assert_eq!(read_null(&mut seq), Ok(()));
    assert_eq!(seq.complete(Error::NonCanonical), Err(Error::NonCanonical));
    assert_eq!(r.complete(Error::Read), Ok(()));
}

#[test]
fn end_to_end_example() {
    let mut r = Reader::new(EXAMPLE);
    let mut outer = nested(&mut r, Tag::Sequence).unwrap();
    read_null(&mut outer).unwrap();
    let mut inner = nested(&mut outer, Tag::Sequence).unwrap();
    let x = positive_integer(&mut inner).unwrap();
    let y = positive_integer(&mut inner).unwrap();
    inner.complete(Error::NonCanonical).unwrap();
    let bits = bit_string_with_no_unused_bits(&mut outer).unwrap();
    outer.complete(Error::NonCanonical).unwrap();
    r.complete(Error::Read).unwrap();

    assert_eq!(x, &[0x01, 0x02, 0x03, 0x04, 0x05, 0x06]);
    assert_eq!(y, &[0x0a, 0x0b, 0x0c, 0x0d]);
    assert_eq!(bits, &[0xff, 0xff, 0xff]);

    let mut ints = Der::new(Vec::new());
    ints.write_integer(x).unwrap();
    ints.write_integer(y).unwrap();
    let mut payload = Der::new(Vec::new());
    payload.write_raw(bits).unwrap();
    let mut body = Der::new(Vec::new());
    body.write_null().unwrap();
    body.write_sequence(&ints).unwrap();
    body.write_bit_string(0, &payload).unwrap();
    let mut der = Der::new(Vec::new());
    der.write_sequence(&body).unwrap();

    assert_eq!(der.into_inner().as_slice(), EXAMPLE);
}

#[test]
fn high_tag_number_rejected() {
    let mut r = Reader::new(&[0x1f, 0x00]);
    assert_eq!(
        expect_tag_and_get_value(&mut r, Tag::Sequence),
        Err(Error::HighTagNumberForm)
    );
    let mut r = Reader::new(&[0xbf, 0x81, 0x00]);
    assert_eq!(read_tag_and_get_value(&mut r), Err(Error::HighTagNumberForm));
    let mut r = Reader::new(&[0x1f]);
    assert_eq!(read_tag_and_get_value(&mut r), Err(Error::HighTagNumberForm));
}

#[test]
fn read_tag_and_get_value_branches() {
    let buf = [0xa0, 0x01, 0x07, 0x04, 0x02, 0x61, 0x62];
    let mut r = Reader::new(&buf);
    let (t, c) = read_tag_and_get_value(&mut r).unwrap();
    assert_eq!(t, Tag::ContextSpecificConstructed0);
    assert_eq!(c, &[0x07]);
    let (t, c) = read_tag_and_get_value(&mut r).unwrap();
    assert_eq!(t, Tag::OctetString);
    assert_eq!(c, &[0x61, 0x62]);
    assert!(r.at_end());
    let mut r = Reader::new(&[0x07, 0x00]);
    assert_eq!(read_tag_and_get_value(&mut r), Err(Error::UnknownTag));
}

#[test]
fn read_null_errors() {
    let mut r = Reader::new(&[0x05, 0x01, 0x00]);
    assert_eq!(read_null(&mut r), Err(Error::WrongValue));
    let mut r = Reader::new(&[0x02, 0x00]);
    assert_eq!(read_null(&mut r), Err(Error::WrongTag));
    let mut r = Reader::new(&[]);
    assert_eq!(read_null(&mut r), Err(Error::UnexpectedEnd));
}

#[test]
fn long_form_element() {
    let content = vec![0x11u8; 200];
    let mut der = Der::new(Vec::new());
    der.write_element(Tag::OctetString, &content).unwrap();
    let bytes = der.into_inner();
    assert_eq!(&bytes[..3], &[0x04, 0x81, 0xc8]);
    assert_eq!(bytes.len(), 203);
    let mut r = Reader::new(&bytes);
    let got = expect_tag_and_get_value(&mut r, Tag::OctetString).unwrap();
    assert_eq!(got, content.as_slice());
    assert!(r.at_end());
}

#[test]
fn cursor_reads() {
    let buf = [1u8, 2, 3];
    let mut r = Reader::new(&buf);
    assert_eq!(r.read_byte(), Ok(1));
    assert_eq!(r.read_bytes(3), Err(Error::UnexpectedEnd));
    assert_eq!(r.read_bytes(2), Ok(&[2u8, 3][..]));
    assert_eq!(r.read_byte(), Err(Error::UnexpectedEnd));
    assert!(r.at_end());
}

#[test]
fn tag_bytes() {
    assert_eq!(Tag::Sequence.to_byte(), 0x30);
    assert_eq!(Tag::Integer.to_byte(), 0x02);
    assert_eq!(Tag::from_byte(0x03), Some(Tag::BitString));
    assert_eq!(Tag::from_byte(0x1f), None);
}
