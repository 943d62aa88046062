//! The DER length field: short form for lengths below 128, and otherwise a
//! count of big-endian length octets followed by those octets, as few as the
//! value needs.
use vstd::prelude::*;

use crate::cursor::Reader;
use crate::Error;

verus! {

/// `256` raised to the power `n`.
pub open spec fn pow256(n: nat) -> nat
    decreases n,
{
    if n == 0 {
        1
    } else {
        256 * pow256((n - 1) as nat)
    }
}

/// The value of a sequence of octets read as a big-endian unsigned number.
pub open spec fn be_value(s: Seq<u8>) -> nat
    decreases s.len(),
{
    if s.len() == 0 {
        0
    } else {
        (be_value(s.drop_last()) * 256 + s.last()) as nat
    }
}

/// The big-endian octets of `v` with no leading zero octet (one octet for
/// values below 256, including zero).
pub open spec fn minimal_be(v: nat) -> Seq<u8>
    decreases v,
{
    if v < 256 {
        seq![v as u8]
    } else {
        minimal_be(v / 256).push((v % 256) as u8)
    }
}

/// The number of octets needed to write `len` in big-endian form.
pub open spec fn spec_length_of_length(len: nat) -> nat {
    minimal_be(len).len()
}

/// The DER encoding of a length.
pub open spec fn encode_len(len: nat) -> Seq<u8> {
    if len < 128 {
        seq![len as u8]
    } else {
        seq![(0x80 + spec_length_of_length(len)) as u8] + minimal_be(len)
    }
}

/// Decoding of a length field at the start of `s`: on success, the length
/// and the number of octets the field took.
pub open spec fn decode_len(s: Seq<u8>) -> Result<(nat, nat), Error> {
    if s.len() == 0 {
        Err(Error::UnexpectedEnd)
    } else if s[0] < 0x80 {
        Ok((s[0] as nat, 1))
    } else {
        let n = (s[0] - 0x80) as nat;
        if n == 0 || n > 8 {
            Err(Error::LongLengthNotSupported)
        } else if s.len() < 1 + n {
            Err(Error::UnexpectedEnd)
        } else if s[1] == 0 {
            Err(Error::NonCanonical)
        } else {
            let v = be_value(s.subrange(1, 1 + n as int));
            if v < 128 {
                Err(Error::NonCanonical)
            } else if v > usize::MAX {
                Err(Error::LongLengthNotSupported)
            } else {
                Ok((v, 1 + n))
            }
        }
    }
}

proof fn lemma_div_mod_256(v: nat)
    ensures
        v == (v / 256) * 256 + v % 256,
        v % 256 < 256,
        v >= 256 ==> v / 256 >= 1,
        v / 256 < v || v == 0,
{
}

proof fn lemma_compose_256(x: nat, b: nat)
    requires
        b < 256,
    ensures
        (x * 256 + b) / 256 == x,
        (x * 256 + b) % 256 == b,
{
    assert((x * 256 + b) / 256 == x && (x * 256 + b) % 256 == b) by (nonlinear_arith)
        requires
            b < 256,
    ;
}

proof fn lemma_be_value_push(s: Seq<u8>, b: u8)
    ensures
        be_value(s.push(b)) == be_value(s) * 256 + b,
{
    assert(s.push(b).drop_last() =~= s);
}

proof fn lemma_be_value_minimal(v: nat)
    ensures
        be_value(minimal_be(v)) == v,
        minimal_be(v).len() >= 1,
        v >= 1 ==> minimal_be(v)[0] != 0,
    decreases v,
{
    if v < 256 {
        lemma_be_value_push(Seq::<u8>::empty(), v as u8);
        assert(seq![v as u8] =~= Seq::<u8>::empty().push(v as u8));
    } else {
        lemma_div_mod_256(v);
        lemma_be_value_minimal(v / 256);
        lemma_be_value_push(minimal_be(v / 256), (v % 256) as u8);
    }
}

proof fn lemma_be_value_bound(s: Seq<u8>)
    ensures
        be_value(s) < pow256(s.len()),
    decreases s.len(),
{
    if s.len() > 0 {
        lemma_be_value_bound(s.drop_last());
        let x = be_value(s.drop_last());
        let p = pow256(s.drop_last().len());
        assert(x * 256 + s.last() < 256 * p) by (nonlinear_arith)
            requires
                x < p,
                s.last() < 256,
        ;
    }
}

proof fn lemma_minimal_be_len_bound(v: nat, k: nat)
    requires
        k >= 1,
        v < pow256(k),
    ensures
        minimal_be(v).len() <= k,
    decreases k,
{
    if v >= 256 {
        let p = pow256((k - 1) as nat);
        assert(k - 1 >= 1) by {
            if k == 1 {
                assert(pow256(1) == 256 * pow256(0));
            }
        }
        assert(v / 256 < p) by (nonlinear_arith)
            requires
                v < 256 * p,
        ;
        lemma_minimal_be_len_bound(v / 256, (k - 1) as nat);
    }
}

proof fn lemma_minimal_be_unique(s: Seq<u8>)
    requires
        s.len() >= 1,
        s[0] != 0,
    ensures
        minimal_be(be_value(s)) == s,
        be_value(s) >= 1,
        s.len() >= 2 ==> be_value(s) >= 256,
    decreases s.len(),
{
    let t = s.drop_last();
    let b = s.last();
    assert(s =~= t.push(b));
    lemma_be_value_push(t, b);
    if s.len() == 1 {
        assert(be_value(t) == 0);
        assert(seq![b] =~= s);
    } else {
        lemma_minimal_be_unique(t);
        let x = be_value(t);
        lemma_compose_256(x, b as nat);
        assert(minimal_be(be_value(s)) == minimal_be(x).push(b));
    }
}

/// usize values need at most eight length octets.
proof fn lemma_usize_length_of_length(len: nat)
    requires
        len <= usize::MAX,
    ensures
        1 <= spec_length_of_length(len) <= 8,
{
    reveal_with_fuel(pow256, 9);
    assert(pow256(8) == 0x1_0000_0000_0000_0000);
    lemma_minimal_be_len_bound(len, 8);
    lemma_be_value_minimal(len);
}

/// Encoding a length and decoding it again gives back the length, the
/// decoder takes exactly the octets that the encoder wrote, and the long form
/// uses exactly `spec_length_of_length(len)` octets after its first one.
pub proof fn lemma_length_round_trip(len: nat, rest: Seq<u8>)
    requires
        len <= usize::MAX,
    ensures
        decode_len(encode_len(len) + rest) == Ok::<(nat, nat), Error>((len, encode_len(len).len())),
        encode_len(len).len() == if len < 128 {
            1
        } else {
            1 + spec_length_of_length(len)
        },
{
    let s = encode_len(len) + rest;
    if len >= 128 {
        lemma_usize_length_of_length(len);
        lemma_be_value_minimal(len);
        let n = spec_length_of_length(len);
        assert(s.subrange(1, 1 + n as int) =~= minimal_be(len));
        assert(s[1] == minimal_be(len)[0]);
    }
}

/// The decoder accepts only the encoding that the encoder writes: whatever
/// it reads as a length was written in exactly that form.
pub proof fn lemma_length_canonical(s: Seq<u8>)
    requires
        decode_len(s) is Ok,
    ensures
        ({
            let (len, used) = decode_len(s)->Ok_0;
            used <= s.len() && s.subrange(0, used as int) == encode_len(len)
        }),
{
    let (len, used) = decode_len(s)->Ok_0;
    if s[0] < 0x80 {
        assert(s.subrange(0, 1) =~= encode_len(len));
    } else {
        let n = (s[0] - 0x80) as nat;
        let body = s.subrange(1, 1 + n as int);
        assert(body[0] == s[1]);
        lemma_minimal_be_unique(body);
        assert(s.subrange(0, used as int) =~= encode_len(len));
    }
}

/// The number of octets needed to write `len` in big-endian form: 1 for
/// lengths up to 255, one more for each further factor of 256.
pub fn length_of_length(len: usize) -> (r: u8)
    ensures
        r as nat == spec_length_of_length(len as nat),
        1 <= r <= 8,
{
    proof {
        lemma_usize_length_of_length(len as nat);
    }
    let mut v: usize = len;
    let mut n: u8 = 1;
    while v >= 256
        invariant
            1 <= n,
            n as nat + minimal_be(v as nat).len() == 1 + spec_length_of_length(len as nat),
            spec_length_of_length(len as nat) <= 8,
        decreases v,
    {
        proof {
            lemma_be_value_minimal((v / 256) as nat);
        }
        v = v / 256;
        n = n + 1;
    }
    n
}

/// Appends the big-endian octets of `v`, without leading zero octets.
fn push_minimal_be(out: &mut Vec<u8>, v: usize)
    ensures
        final(out)@ == old(out)@ + minimal_be(v as nat),
    decreases v,
{
    if v >= 256 {
        push_minimal_be(out, v / 256);
    }
    out.push((v % 256) as u8);
    proof {
        if v >= 256 {
            assert(final(out)@ =~= old(out)@ + minimal_be(v as nat));
        } else {
            assert(final(out)@ =~= old(out)@ + minimal_be(v as nat));
        }
    }
}

/// Appends the DER encoding of `len`: one octet below 128, and otherwise
/// `0x80` plus the number of length octets, followed by those octets.
pub fn encode_length(out: &mut Vec<u8>, len: usize)
    ensures
        final(out)@ == old(out)@ + encode_len(len as nat),
{
    if len < 128 {
        out.push(len as u8);
        proof {
            assert(final(out)@ =~= old(out)@ + encode_len(len as nat));
        }
    } else {
        let n = length_of_length(len);
        out.push(0x80 + n);
        push_minimal_be(out, len);
        proof {
            assert(final(out)@ =~= old(out)@ + encode_len(len as nat));
        }
    }
}

/// Reads a DER length field; see `decode_len` for which encodings are
/// accepted and which error each of the others gives.
pub fn decode_length(input: &mut Reader) -> (r: Result<usize, Error>)
    ensures
        match decode_len(old(input)@) {
            Ok((len, used)) => r == Ok::<usize, Error>(len as usize) && final(input)@ == old(
                input,
            )@.skip(used as int),
            Err(e) => r == Err::<usize, Error>(e),
        },
{
    let ghost s = input@;
    let first = input.read_byte()?;
    if first < 0x80 {
        return Ok(first as usize);
    }
    let n: u8 = first - 0x80;
    if n == 0 || n > 8 {
        return Err(Error::LongLengthNotSupported);
    }
    let bytes = input.read_bytes(n as usize)?;
    proof {
        assert(bytes@ =~= s.subrange(1, 1 + n as int));
        assert(input@ =~= s.skip(1 + n as int));
    }
    if bytes[0] == 0 {
        return Err(Error::NonCanonical);
    }
    let mut v: u64 = 0;
    let mut i: usize = 0;
    proof {
        reveal_with_fuel(pow256, 9);
        assert(pow256(8) == 0x1_0000_0000_0000_0000);
        assert(bytes@.subrange(0, 0) =~= Seq::<u8>::empty());
    }
    while i < n as usize
        invariant
            n <= 8,
            bytes@.len() == n,
            i <= n,
            v as nat == be_value(bytes@.subrange(0, i as int)),
            pow256(8) == 0x1_0000_0000_0000_0000,
        decreases n - i,
    {
        proof {
            let pre = bytes@.subrange(0, i as int);
            assert(bytes@.subrange(0, i + 1) =~= pre.push(bytes@[i as int]));
            lemma_be_value_push(pre, bytes@[i as int]);
            lemma_be_value_bound(bytes@.subrange(0, i + 1));
            lemma_pow256_monotone((i + 1) as nat, 8);
        }
        v = v * 256 + bytes[i] as u64;
        i = i + 1;
    }
    proof {
        assert(bytes@.subrange(0, n as int) =~= bytes@);
    }
    if v < 128 {
        return Err(Error::NonCanonical);
    }
    if v > usize::MAX as u64 {
        return Err(Error::LongLengthNotSupported);
    }
    Ok(v as usize)
}

proof fn lemma_pow256_monotone(a: nat, b: nat)
    requires
        a <= b,
    ensures
        pow256(a) <= pow256(b),
    decreases b - a,
{
    if a < b {
        lemma_pow256_monotone(a, (b - 1) as nat);
    }
}

} // verus!
