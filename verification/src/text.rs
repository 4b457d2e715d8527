//! Conversions between byte strings and text.

use crate::error::Error;
use vstd::pervasive::unreached;
use vstd::prelude::*;
use vstd::string::StringSliceAdditionalSpecFns;
use vstd::utf8::*;

verus! {

/// The error of `String::from_utf8`. Nothing is read out of it.
#[verifier::external_type_specification]
#[verifier::external_body]
pub struct ExFromUtf8Error(std::string::FromUtf8Error);

/// `String::from_utf8` succeeds exactly on well-formed UTF-8, and then gives
/// the text whose encoding is the input.
pub assume_specification[ String::from_utf8 ](vec: Vec<u8>) -> (r: Result<
    String,
    std::string::FromUtf8Error,
>)
    ensures
        r is Ok <==> valid_utf8(vec@),
        r matches Ok(s) ==> encode_utf8(s@) == vec@,
;

/// Every byte is below 128.
pub open spec fn is_ascii_bytes(s: Seq<u8>) -> bool {
    forall|i: int| 0 <= i < s.len() ==> #[trigger] s[i] < 0x80
}

/// A byte string of ASCII only is well-formed UTF-8.
pub proof fn lemma_ascii_is_utf8(s: Seq<u8>)
    requires
        is_ascii_bytes(s),
    ensures
        valid_utf8(s),
{
    assert(s.subrange(0, 0) =~= Seq::<u8>::empty());
    assert(partial_valid_utf8(s, 0));
    assert forall|i: int| 0 <= i < s.len() implies #[trigger] is_leading_byte_width_1(s[i]) by {}
    partial_valid_utf8_extend_ascii_block(s, 0, s.len() as int);
    assert(s.subrange(0, s.len() as int) =~= s);
}

/// The text that `bytes` spell, or `EncodingFailure` where they are not
/// well-formed UTF-8.
pub fn text_from_utf8(bytes: Vec<u8>) -> (r: Result<String, Error>)
    ensures
        r is Ok <==> valid_utf8(bytes@),
        r matches Ok(s) ==> encode_utf8(s@) == bytes@ && s@ == decode_utf8(bytes@),
        r matches Err(e) ==> e == Error::EncodingFailure,
{
    match String::from_utf8(bytes) {
        Ok(s) => {
            proof {
                encode_utf8_decode_utf8(s@);
            }
            Ok(s)
        },
        Err(_) => Err(Error::EncodingFailure),
    }
}

/// The text that a well-formed byte string spells.
pub(crate) fn utf8_to_string(bytes: Vec<u8>) -> (r: String)
    requires
        valid_utf8(bytes@),
    ensures
        encode_utf8(r@) == bytes@,
{
    match text_from_utf8(bytes) {
        Ok(s) => s,
        Err(_) => unreached(),
    }
}

/// The text that an ASCII byte string spells.
pub(crate) fn ascii_to_string(bytes: Vec<u8>) -> (r: String)
    requires
        is_ascii_bytes(bytes@),
    ensures
        encode_utf8(r@) == bytes@,
{
    proof {
        lemma_ascii_is_utf8(bytes@);
    }
    utf8_to_string(bytes)
}

/// Appends well-formed bytes to well-formed bytes.
pub(crate) fn append_bytes(out: &mut Vec<u8>, piece: &[u8])
    requires
        valid_utf8(old(out)@),
        valid_utf8(piece@),
    ensures
        final(out)@ == old(out)@ + piece@,
        valid_utf8(final(out)@),
{
    out.extend_from_slice(piece);
    proof {
        assert(out@ =~= old(out)@ + piece@);
        valid_utf8_concat(old(out)@, piece@);
    }
}

/// Appends the bytes of `piece`.
pub(crate) fn append_text(out: &mut Vec<u8>, piece: &str)
    requires
        valid_utf8(old(out)@),
    ensures
        final(out)@ == old(out)@ + piece.spec_bytes(),
        valid_utf8(final(out)@),
{
    proof {
        encode_utf8_valid_utf8(piece@);
    }
    append_bytes(out, piece.as_bytes());
}

/// The decimal digits of `n`, most significant first.
pub open spec fn decimal_digits(n: nat) -> Seq<u8>
    decreases n,
{
    if n < 10 {
        seq![(0x30 + n) as u8]
    } else {
        decimal_digits(n / 10) + seq![(0x30 + n % 10) as u8]
    }
}

/// `n` in decimal, with a minus sign where it is negative.
pub open spec fn decimal(n: int) -> Seq<u8> {
    if n < 0 {
        seq![0x2Du8] + decimal_digits((-n) as nat)
    } else {
        decimal_digits(n as nat)
    }
}

/// Decimal text is ASCII.
pub proof fn lemma_decimal_ascii(n: int)
    ensures
        is_ascii_bytes(decimal(n)),
{
    if n < 0 {
        lemma_decimal_digits_ascii((-n) as nat);
    } else {
        lemma_decimal_digits_ascii(n as nat);
    }
}

proof fn lemma_decimal_digits_ascii(n: nat)
    ensures
        is_ascii_bytes(decimal_digits(n)),
    decreases n,
{
    if n >= 10 {
        lemma_decimal_digits_ascii(n / 10);
    }
}

fn push_decimal_digits(out: &mut Vec<u8>, n: u64)
    ensures
        final(out)@ == old(out)@ + decimal_digits(n as nat),
    decreases n,
{
    if n >= 10 {
        push_decimal_digits(out, n / 10);
    }
    let digit: u8 = (n % 10) as u8;
    out.push(0x30 + digit);
    proof {
        if n >= 10 {
            assert(out@ =~= old(out)@ + (decimal_digits(n as nat / 10) + seq![(0x30 + n % 10) as u8]));
        } else {
            assert(out@ =~= old(out)@ + decimal_digits(n as nat));
        }
    }
}

/// `n` written in decimal.
pub fn decimal_text(n: u64) -> (r: String)
    ensures
        encode_utf8(r@) == decimal(n as int),
{
    let mut out: Vec<u8> = Vec::new();
    push_decimal_digits(&mut out, n);
    proof {
        lemma_decimal_ascii(n as int);
        assert(out@ =~= decimal(n as int));
    }
    ascii_to_string(out)
}

/// `n` written in decimal, with its sign where it is negative.
pub fn decimal_string(n: i64) -> (r: String)
    ensures
        encode_utf8(r@) == decimal(n as int),
{
    let mut out: Vec<u8> = Vec::new();
    if n < 0 {
        out.push(0x2Du8);
        let magnitude: u64 = if n == i64::MIN {
            0x8000_0000_0000_0000u64
        } else {
            (-n) as u64
        };
        push_decimal_digits(&mut out, magnitude);
    } else {
        push_decimal_digits(&mut out, n as u64);
    }
    proof {
        lemma_decimal_ascii(n as int);
        assert(out@ =~= decimal(n as int));
    }
    ascii_to_string(out)
}

} // verus!
