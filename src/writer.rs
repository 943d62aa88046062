//! Writing DER: each value is framed with its tag and the exact length of
//! its contents.
use vstd::prelude::*;

use crate::der::{
    lemma_element_is_encoding, spec_bit_string, spec_element, spec_expect, spec_null,
    spec_positive_integer, tag_byte, tlv, Tag,
};
use crate::length::{encode_len, encode_length};
use crate::Error;

verus! {

/// INTEGER contents for a non-negative number given as big-endian octets: a
/// zero octet goes in front when the first octet has its top bit set, so
/// that the value does not read as negative.
pub open spec fn positive_content(input: Seq<u8>) -> Seq<u8> {
    if input.len() > 0 && input[0] >= 0x80 {
        seq![0u8] + input
    } else {
        input
    }
}

/// Writes DER into an owned buffer, encoding each tag and content length.
/// Constructed values (SEQUENCE, BIT STRING) take their contents from a
/// second `Der` written beforehand, since a length must precede the contents
/// it measures.
pub struct Der {
    writer: Vec<u8>,
}

impl View for Der {
    type V = Seq<u8>;

    /// Everything written so far.
    closed spec fn view(&self) -> Seq<u8> {
        self.writer@
    }
}

impl Der {
    /// A `Der` that appends to the bytes already in `writer`.
    pub fn new(writer: Vec<u8>) -> (r: Der)
        ensures
            r@ == writer@,
    {
        Der { writer }
    }

    /// Everything written so far.
    pub fn as_bytes(&self) -> (r: &[u8])
        ensures
            r@ == self@,
    {
        self.writer.as_slice()
    }

    /// The buffer with everything written to it.
    pub fn into_inner(self) -> (r: Vec<u8>)
        ensures
            r@ == self@,
    {
        self.writer
    }

    fn push_bytes(&mut self, input: &[u8])
        ensures
            final(self)@ == old(self)@ + input@,
    {
        let mut i: usize = 0;
        while i < input.len()
            invariant
                i <= input@.len(),
                self@ == old(self)@ + input@.take(i as int),
            decreases input@.len() - i,
        {
            proof {
                assert(input@.take(i + 1) =~= input@.take(i as int).push(input@[i as int]));
            }
            self.writer.push(input[i]);
            i = i + 1;
        }
        proof {
            assert(input@.take(i as int) =~= input@);
        }
    }

    fn write_len(&mut self, len: usize)
        ensures
            final(self)@ == old(self)@ + encode_len(len as nat),
    {
        encode_length(&mut self.writer, len);
    }

    /// Writes a NULL element.
    pub fn write_null(&mut self) -> (r: Result<(), Error>)
        ensures
            r == Ok::<(), Error>(()),
            final(self)@ == old(self)@ + seq![0x05u8, 0x00u8],
    {
        self.writer.push(Tag::Null.to_byte());
        self.writer.push(0);
        proof {
            assert(final(self)@ =~= old(self)@ + seq![0x05u8, 0x00u8]);
        }
        Ok(())
    }

    /// Writes an element with the given tag and contents, as they are: the
    /// caller supplies contents already in canonical form.
    pub fn write_element(&mut self, tag: Tag, input: &[u8]) -> (r: Result<(), Error>)
        ensures
            r == Ok::<(), Error>(()),
            final(self)@ == old(self)@ + tlv(tag_byte(tag), input@),
    {
        self.writer.push(tag.to_byte());
        self.write_len(input.len());
        self.push_bytes(input);
        proof {
            assert(final(self)@ =~= old(self)@ + tlv(tag_byte(tag), input@));
        }
        Ok(())
    }

    /// Writes an INTEGER with the given contents, adding no octet.
    pub fn write_integer(&mut self, input: &[u8]) -> (r: Result<(), Error>)
        ensures
            r == Ok::<(), Error>(()),
            final(self)@ == old(self)@ + tlv(0x02, input@),
    {
        self.write_element(Tag::Integer, input)
    }

    /// Writes the big-endian octets `input` as a non-negative INTEGER,
    /// putting a zero octet in front where the first octet has its top bit
    /// set.
    pub fn write_positive_integer(&mut self, input: &[u8]) -> (r: Result<(), Error>)
        requires
            input@.len() < usize::MAX,
        ensures
            r == Ok::<(), Error>(()),
            final(self)@ == old(self)@ + tlv(0x02, positive_content(input@)),
    {
        self.writer.push(Tag::Integer.to_byte());
        let push_zero = if input.len() > 0 {
            input[0] >= 0x80
        } else {
            false
        };
        if push_zero {
            self.write_len(input.len() + 1);
            self.writer.push(0);
        } else {
            self.write_len(input.len());
        }
        self.push_bytes(input);
        proof {
            assert(final(self)@ =~= old(self)@ + tlv(0x02, positive_content(input@)));
        }
        Ok(())
    }

    /// Writes a SEQUENCE whose contents are everything written to `content`.
    pub fn write_sequence(&mut self, content: &Der) -> (r: Result<(), Error>)
        ensures
            r == Ok::<(), Error>(()),
            final(self)@ == old(self)@ + tlv(0x30, content@),
    {
        self.write_element(Tag::Sequence, content.as_bytes())
    }

    /// Writes an OBJECT IDENTIFIER with the given contents.
    pub fn write_oid(&mut self, input: &[u8]) -> (r: Result<(), Error>)
        ensures
            r == Ok::<(), Error>(()),
            final(self)@ == old(self)@ + tlv(0x06, input@),
    {
        self.write_element(Tag::Oid, input)
    }

    /// Writes bytes with no tag or length: for splicing in values that are
    /// already DER.
    pub fn write_raw(&mut self, input: &[u8]) -> (r: Result<(), Error>)
        ensures
            r == Ok::<(), Error>(()),
            final(self)@ == old(self)@ + input@,
    {
        self.push_bytes(input);
        Ok(())
    }

    /// Writes a BIT STRING: the unused-bits octet, then everything written to
    /// `content`.
    pub fn write_bit_string(&mut self, unused_bits: u8, content: &Der) -> (r: Result<(), Error>)
        requires
            content@.len() < usize::MAX,
        ensures
            r == Ok::<(), Error>(()),
            final(self)@ == old(self)@ + tlv(0x03, seq![unused_bits] + content@),
    {
        let payload = content.as_bytes();
        self.writer.push(Tag::BitString.to_byte());
        self.write_len(payload.len() + 1);
        self.writer.push(unused_bits);
        self.push_bytes(payload);
        proof {
            assert(final(self)@ =~= old(self)@ + tlv(0x03, seq![unused_bits] + content@));
        }
        Ok(())
    }
}

/// Writing back what was read reproduces the input: for each kind of element
/// the reader accepts at the start of `s`, the writer call of the same kind,
/// given what the reader handed out, writes exactly the bytes the reader
/// consumed. Since a SEQUENCE is written from its contents as read, this
/// holds through any nesting.
pub proof fn lemma_round_trip(s: Seq<u8>, tag: u8)
    ensures
        spec_expect(s, tag) is Ok ==> s == tlv(tag, spec_expect(s, tag)->Ok_0.0) + spec_expect(
            s,
            tag,
        )->Ok_0.1,
        spec_null(s) is Ok ==> s == seq![0x05u8, 0x00u8] + spec_null(s)->Ok_0,
        spec_positive_integer(s) is Ok ==> s == tlv(
            0x02,
            positive_content(spec_positive_integer(s)->Ok_0.0),
        ) + spec_positive_integer(s)->Ok_0.1,
        spec_bit_string(s) is Ok ==> s == tlv(0x03, seq![0u8] + spec_bit_string(s)->Ok_0.0)
            + spec_bit_string(s)->Ok_0.1,
{
    if spec_element(s) is Ok {
        lemma_element_is_encoding(s);
        let (t, content, rest) = spec_element(s)->Ok_0;
        if spec_null(s) is Ok {
            assert(content.len() == 0);
            assert(encode_len(0) =~= seq![0x00u8]);
            assert(tlv(t, content) =~= seq![0x05u8, 0x00u8]);
        }
        if spec_bit_string(s) is Ok {
            assert(seq![0u8] + content.skip(1) =~= content);
        }
    }
}

} // verus!
