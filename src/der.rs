//! Reading DER elements: the tag vocabulary, the tag/length/value frame, and
//! the canonical-form checks on NULL, INTEGER and BIT STRING contents.
use vstd::prelude::*;

use crate::cursor::Reader;
use crate::length::{
    decode_len, decode_length, encode_len, lemma_length_canonical, lemma_length_round_trip,
};
use crate::Error;

verus! {

/// The universal (and a few context-specific) tags this codec knows.
#[derive(Debug, PartialEq, Eq, Structural, Clone, Copy)]
pub enum Tag {
    Boolean,
    Integer,
    BitString,
    OctetString,
    Null,
    Oid,
    Utf8String,
    UtcTime,
    GeneralizedTime,
    Sequence,
    ContextSpecificConstructed0,
    ContextSpecificConstructed1,
    ContextSpecificConstructed2,
    ContextSpecificConstructed3,
}

/// The tag octet of each tag.
pub open spec fn tag_byte(t: Tag) -> u8 {
    match t {
        Tag::Boolean => 0x01,
        Tag::Integer => 0x02,
        Tag::BitString => 0x03,
        Tag::OctetString => 0x04,
        Tag::Null => 0x05,
        Tag::Oid => 0x06,
        Tag::Utf8String => 0x0C,
        Tag::UtcTime => 0x17,
        Tag::GeneralizedTime => 0x18,
        Tag::Sequence => 0x30,
        Tag::ContextSpecificConstructed0 => 0xA0,
        Tag::ContextSpecificConstructed1 => 0xA1,
        Tag::ContextSpecificConstructed2 => 0xA2,
        Tag::ContextSpecificConstructed3 => 0xA3,
    }
}

/// The tag whose octet is `b`, if this codec knows one.
pub open spec fn tag_of_byte(b: u8) -> Option<Tag> {
    if b == 0x01 {
        Some(Tag::Boolean)
    } else if b == 0x02 {
        Some(Tag::Integer)
    } else if b == 0x03 {
        Some(Tag::BitString)
    } else if b == 0x04 {
        Some(Tag::OctetString)
    } else if b == 0x05 {
        Some(Tag::Null)
    } else if b == 0x06 {
        Some(Tag::Oid)
    } else if b == 0x0C {
        Some(Tag::Utf8String)
    } else if b == 0x17 {
        Some(Tag::UtcTime)
    } else if b == 0x18 {
        Some(Tag::GeneralizedTime)
    } else if b == 0x30 {
        Some(Tag::Sequence)
    } else if b == 0xA0 {
        Some(Tag::ContextSpecificConstructed0)
    } else if b == 0xA1 {
        Some(Tag::ContextSpecificConstructed1)
    } else if b == 0xA2 {
        Some(Tag::ContextSpecificConstructed2)
    } else if b == 0xA3 {
        Some(Tag::ContextSpecificConstructed3)
    } else {
        None
    }
}

impl Tag {
    /// The tag octet.
    pub fn to_byte(self) -> (r: u8)
        ensures
            r == tag_byte(self),
    {
        match self {
            Tag::Boolean => 0x01,
            Tag::Integer => 0x02,
            Tag::BitString => 0x03,
            Tag::OctetString => 0x04,
            Tag::Null => 0x05,
            Tag::Oid => 0x06,
            Tag::Utf8String => 0x0C,
            Tag::UtcTime => 0x17,
            Tag::GeneralizedTime => 0x18,
            Tag::Sequence => 0x30,
            Tag::ContextSpecificConstructed0 => 0xA0,
            Tag::ContextSpecificConstructed1 => 0xA1,
            Tag::ContextSpecificConstructed2 => 0xA2,
            Tag::ContextSpecificConstructed3 => 0xA3,
        }
    }

    /// The tag whose octet is `b`, or `None` for an octet this codec does
    /// not model.
    pub fn from_byte(b: u8) -> (r: Option<Tag>)
        ensures
            r == tag_of_byte(b),
    {
        match b {
            0x01 => Some(Tag::Boolean),
            0x02 => Some(Tag::Integer),
            0x03 => Some(Tag::BitString),
            0x04 => Some(Tag::OctetString),
            0x05 => Some(Tag::Null),
            0x06 => Some(Tag::Oid),
            0x0C => Some(Tag::Utf8String),
            0x17 => Some(Tag::UtcTime),
            0x18 => Some(Tag::GeneralizedTime),
            0x30 => Some(Tag::Sequence),
            0xA0 => Some(Tag::ContextSpecificConstructed0),
            0xA1 => Some(Tag::ContextSpecificConstructed1),
            0xA2 => Some(Tag::ContextSpecificConstructed2),
            0xA3 => Some(Tag::ContextSpecificConstructed3),
            _ => None,
        }
    }
}

/// A tag octet whose low five bits are all set announces a tag number of 31
/// or more, written in further octets: a form this codec refuses.
pub open spec fn is_high_tag_number(b: u8) -> bool {
    b % 32 == 31
}

/// The encoding of one element: tag octet, length field, contents.
pub open spec fn tlv(tag: u8, content: Seq<u8>) -> Seq<u8> {
    seq![tag] + encode_len(content.len()) + content
}

/// Reading one element at the start of `s`: on success its tag octet, its
/// contents and the bytes after it.
pub open spec fn spec_element(s: Seq<u8>) -> Result<(u8, Seq<u8>, Seq<u8>), Error> {
    if s.len() == 0 {
        Err(Error::UnexpectedEnd)
    } else if is_high_tag_number(s[0]) {
        Err(Error::HighTagNumberForm)
    } else {
        match decode_len(s.skip(1)) {
            Err(e) => Err(e),
            Ok((len, used)) => {
                let start: int = 1 + used as int;
                let end: int = start + len;
                if end > s.len() {
                    Err(Error::UnexpectedEnd)
                } else {
                    Ok((s[0], s.subrange(start, end), s.skip(end)))
                }
            },
        }
    }
}

/// Reading one element that must carry the tag octet `tag`: on success its
/// contents and the bytes after it.
pub open spec fn spec_expect(s: Seq<u8>, tag: u8) -> Result<(Seq<u8>, Seq<u8>), Error> {
    if s.len() > 0 && !is_high_tag_number(s[0]) && s[0] != tag {
        Err(Error::WrongTag)
    } else {
        match spec_element(s) {
            Ok((_, content, rest)) => Ok((content, rest)),
            Err(e) => Err(e),
        }
    }
}

/// Reading one element whose tag must be one this codec models.
pub open spec fn spec_tagged(s: Seq<u8>) -> Result<(Tag, Seq<u8>, Seq<u8>), Error> {
    if s.len() > 0 && !is_high_tag_number(s[0]) && tag_of_byte(s[0]) is None {
        Err(Error::UnknownTag)
    } else {
        match spec_element(s) {
            Ok((t, content, rest)) => Ok((tag_of_byte(t)->Some_0, content, rest)),
            Err(e) => Err(e),
        }
    }
}

/// Reading a NULL element: on success the bytes after it.
pub open spec fn spec_null(s: Seq<u8>) -> Result<Seq<u8>, Error> {
    match spec_expect(s, 0x05) {
        Err(e) => Err(e),
        Ok((content, rest)) => if content.len() != 0 {
            Err(Error::WrongValue)
        } else {
            Ok(rest)
        },
    }
}

/// Whether INTEGER contents are the minimal two's-complement form of a
/// non-negative number, and if not, why.
pub open spec fn check_positive(c: Seq<u8>) -> Result<(), Error> {
    if c.len() == 0 {
        Err(Error::UnexpectedEnd)
    } else if c[0] == 0 && c.len() > 1 && c[1] < 0x80 {
        Err(Error::LeadingZero)
    } else if c[0] >= 0x80 {
        Err(Error::NegativeValue)
    } else {
        Ok(())
    }
}

/// Reading a non-negative INTEGER: on success its contents and the bytes
/// after it.
pub open spec fn spec_positive_integer(s: Seq<u8>) -> Result<(Seq<u8>, Seq<u8>), Error> {
    match spec_expect(s, 0x02) {
        Err(e) => Err(e),
        Ok((content, rest)) => match check_positive(content) {
            Err(e) => Err(e),
            Ok(_) => Ok((content, rest)),
        },
    }
}

/// Reading a BIT STRING with no unused bits: on success its payload (the
/// contents after the unused-bits octet) and the bytes after it.
pub open spec fn spec_bit_string(s: Seq<u8>) -> Result<(Seq<u8>, Seq<u8>), Error> {
    match spec_expect(s, 0x03) {
        Err(e) => Err(e),
        Ok((content, rest)) => if content.len() == 0 {
            Err(Error::UnexpectedEnd)
        } else if content[0] != 0 {
            Err(Error::NonZeroUnusedBits)
        } else {
            Ok((content.skip(1), rest))
        },
    }
}

/// Reads the length field and then the contents of an element whose tag
/// octet has just been read.
fn read_value<'a>(input: &mut Reader<'a>) -> (r: Result<&'a [u8], Error>)
    ensures
        match decode_len(old(input)@) {
            Err(e) => r == Err::<&'a [u8], Error>(e),
            Ok((len, used)) => if used + len > old(input)@.len() {
                r == Err::<&'a [u8], Error>(Error::UnexpectedEnd)
            } else {
                r is Ok && r->Ok_0@ == old(input)@.subrange(used as int, (used + len) as int)
                    && final(input)@ == old(input)@.skip((used + len) as int)
            },
        },
{
    let ghost s = input@;
    let len = decode_length(input)?;
    let ghost used = decode_len(s)->Ok_0.1;
    let content = input.read_bytes(len)?;
    proof {
        assert(content@ =~= s.subrange(used as int, (used + len) as int));
        assert(input@ =~= s.skip((used + len) as int));
    }
    Ok(content)
}

/// Reads the tag octet of an element, refusing the high-tag-number form.
fn read_tag(input: &mut Reader) -> (r: Result<u8, Error>)
    ensures
        old(input)@.len() == 0 ==> r == Err::<u8, Error>(Error::UnexpectedEnd),
        old(input)@.len() > 0 && is_high_tag_number(old(input)@[0]) ==> r == Err::<u8, Error>(
            Error::HighTagNumberForm,
        ),
        old(input)@.len() > 0 && !is_high_tag_number(old(input)@[0]) ==> r == Ok::<u8, Error>(
            old(input)@[0],
        ) && final(input)@ == old(input)@.skip(1),
{
    let actual = input.read_byte()?;
    if actual % 32 == 31 {
        return Err(Error::HighTagNumberForm);
    }
    Ok(actual)
}

proof fn lemma_skip_one(s: Seq<u8>, used: int, len: int)
    requires
        0 <= used,
        0 <= len,
        s.len() >= 1 + used + len,
    ensures
        s.skip(1).subrange(used as int, (used + len) as int) == s.subrange(1 + used, 1 + used + len),
        s.skip(1).skip((used + len) as int) == s.skip(1 + used + len),
{
    assert(s.skip(1).subrange(used as int, (used + len) as int) =~= s.subrange(1 + used, 1 + used + len));
    assert(s.skip(1).skip((used + len) as int) =~= s.skip(1 + used + len));
}

/// Reads one element that must carry `tag`, and hands out its contents as
/// a view into the input.
pub fn expect_tag_and_get_value<'a>(input: &mut Reader<'a>, tag: Tag) -> (r: Result<&'a [u8], Error>)
    ensures
        match spec_expect(old(input)@, tag_byte(tag)) {
            Ok((content, rest)) => r is Ok && r->Ok_0@ == content && final(input)@ == rest,
            Err(e) => r == Err::<&'a [u8], Error>(e),
        },
{
    let ghost s = input@;
    let actual = read_tag(input)?;
    if actual != tag.to_byte() {
        return Err(Error::WrongTag);
    }
    let content = read_value(input)?;
    proof {
        let (len, used) = decode_len(s.skip(1))->Ok_0;
        lemma_skip_one(s, used as int, len as int);
    }
    Ok(content)
}

/// Reads one element whatever its tag, for callers that branch on the tag
/// found; fails with `UnknownTag` on a tag octet this codec does not model.
pub fn read_tag_and_get_value<'a>(input: &mut Reader<'a>) -> (r: Result<(Tag, &'a [u8]), Error>)
    ensures
        match spec_tagged(old(input)@) {
            Ok((t, content, rest)) => r is Ok && r->Ok_0.0 == t && r->Ok_0.1@ == content
                && final(input)@ == rest,
            Err(e) => r == Err::<(Tag, &'a [u8]), Error>(e),
        },
{
    let ghost s = input@;
    let actual = read_tag(input)?;
    let tag = match Tag::from_byte(actual) {
        Some(t) => t,
        None => {
            return Err(Error::UnknownTag);
        },
    };
    let content = read_value(input)?;
    proof {
        let (len, used) = decode_len(s.skip(1))->Ok_0;
        lemma_skip_one(s, used as int, len as int);
    }
    Ok((tag, content))
}

/// Opens one element that must carry `tag` and returns a reader scoped to
/// exactly its contents; the outer reader moves past the element. Reading
/// of the contents ends with `complete(Error::NonCanonical)`, so that bytes
/// left unread inside an element are refused.
pub fn nested<'a>(input: &mut Reader<'a>, tag: Tag) -> (r: Result<Reader<'a>, Error>)
    ensures
        match spec_expect(old(input)@, tag_byte(tag)) {
            Ok((content, rest)) => r is Ok && r->Ok_0@ == content && final(input)@ == rest,
            Err(e) => r == Err::<Reader<'a>, Error>(e),
        },
{
    let content = expect_tag_and_get_value(input, tag)?;
    Ok(Reader::new(content))
}

/// Reads a NULL element, whose contents must be empty (`WrongValue`
/// otherwise).
pub fn read_null(input: &mut Reader) -> (r: Result<(), Error>)
    ensures
        match spec_null(old(input)@) {
            Ok(rest) => r is Ok && final(input)@ == rest,
            Err(e) => r == Err::<(), Error>(e),
        },
{
    let content = expect_tag_and_get_value(input, Tag::Null)?;
    if content.len() != 0 {
        return Err(Error::WrongValue);
    }
    Ok(())
}

/// Reads an INTEGER that must be non-negative and minimally encoded, and
/// hands out its contents unchanged (with the leading zero octet, where the
/// value needs one).
pub fn positive_integer<'a>(input: &mut Reader<'a>) -> (r: Result<&'a [u8], Error>)
    ensures
        match spec_positive_integer(old(input)@) {
            Ok((content, rest)) => r is Ok && r->Ok_0@ == content && final(input)@ == rest,
            Err(e) => r == Err::<&'a [u8], Error>(e),
        },
{
    let content = expect_tag_and_get_value(input, Tag::Integer)?;
    if content.len() == 0 {
        return Err(Error::UnexpectedEnd);
    }
    if content[0] == 0 && content.len() > 1 && content[1] < 0x80 {
        return Err(Error::LeadingZero);
    }
    if content[0] >= 0x80 {
        return Err(Error::NegativeValue);
    }
    Ok(content)
}

/// Reads a BIT STRING whose unused-bits octet must be zero, and hands out
/// the payload after that octet.
pub fn bit_string_with_no_unused_bits<'a>(input: &mut Reader<'a>) -> (r: Result<&'a [u8], Error>)
    ensures
        match spec_bit_string(old(input)@) {
            Ok((payload, rest)) => r is Ok && r->Ok_0@ == payload && final(input)@ == rest,
            Err(e) => r == Err::<&'a [u8], Error>(e),
        },
{
    let content = expect_tag_and_get_value(input, Tag::BitString)?;
    if content.len() == 0 {
        return Err(Error::UnexpectedEnd);
    }
    if content[0] != 0 {
        return Err(Error::NonZeroUnusedBits);
    }
    Ok(vstd::slice::slice_subrange(content, 1, content.len()))
}

/// Whatever the reader takes as one element is, byte for byte, the
/// encoding of that element's tag and contents: the bytes it consumed are
/// `tlv(tag, contents)`.
pub proof fn lemma_element_is_encoding(s: Seq<u8>)
    requires
        spec_element(s) is Ok,
    ensures
        ({
            let (t, content, rest) = spec_element(s)->Ok_0;
            s == tlv(t, content) + rest
        }),
{
    let (t, content, rest) = spec_element(s)->Ok_0;
    let tail = s.skip(1);
    let (len, used) = decode_len(tail)->Ok_0;
    lemma_length_canonical(tail);
    let header = tail.subrange(0, used as int);
    assert(header == encode_len(len));
    assert(content.len() == len);
    assert(s =~= seq![t] + header + content + rest);
}

/// The reader takes the encoding of an element, followed by anything, back
/// to the same tag and contents, and leaves exactly what followed.
pub proof fn lemma_read_encoding(t: u8, content: Seq<u8>, rest: Seq<u8>)
    requires
        !is_high_tag_number(t),
        content.len() <= usize::MAX,
    ensures
        spec_element(tlv(t, content) + rest) == Ok::<(u8, Seq<u8>, Seq<u8>), Error>(
            (t, content, rest),
        ),
        spec_expect(tlv(t, content) + rest, t) == Ok::<(Seq<u8>, Seq<u8>), Error>(
            (content, rest),
        ),
{
    let s = tlv(t, content) + rest;
    let header = encode_len(content.len());
    lemma_length_round_trip(content.len(), content + rest);
    assert(s.skip(1) =~= header + (content + rest));
    let start: int = 1 + header.len() as int;
    let end: int = start + content.len();
    assert(s.subrange(start, end) =~= content);
    assert(s.skip(end) =~= rest);
}

/// A tag octet with its low five bits all set is refused as the
/// high-tag-number form, whatever follows it and whichever tag was expected.
pub proof fn lemma_high_tag_number_refused(b: u8, rest: Seq<u8>, expected: u8)
    requires
        b % 32 == 31,
    ensures
        spec_element(seq![b] + rest) == Err::<(u8, Seq<u8>, Seq<u8>), Error>(
            Error::HighTagNumberForm,
        ),
        spec_expect(seq![b] + rest, expected) == Err::<(Seq<u8>, Seq<u8>), Error>(
            Error::HighTagNumberForm,
        ),
        spec_tagged(seq![b] + rest) == Err::<(Tag, Seq<u8>, Seq<u8>), Error>(
            Error::HighTagNumberForm,
        ),
{
    assert((seq![b] + rest)[0] == b);
}

/// A SEQUENCE followed by one stray byte: the SEQUENCE reads cleanly, but a
/// byte is left over, so completing the read of the buffer fails.
pub proof fn lemma_trailing_byte_left(content: Seq<u8>, stray: u8)
    requires
        content.len() <= usize::MAX,
    ensures
        spec_expect(tlv(0x30, content) + seq![stray], 0x30) == Ok::<(Seq<u8>, Seq<u8>), Error>(
            (content, seq![stray]),
        ),
        seq![stray].len() != 0,
{
    lemma_read_encoding(0x30, content, seq![stray]);
}

} // verus!
