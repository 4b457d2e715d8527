//! Percent-encoding with the unreserved set of RFC 3986.

use crate::text::{ascii_to_string, is_ascii_bytes};
use vstd::prelude::*;
use vstd::string::StringSliceAdditionalSpecFns;
use vstd::utf8::encode_utf8;

verus! {

/// The bytes that are never escaped: ASCII letters, digits, `-`, `.`, `_`, `~`.
pub open spec fn is_unreserved(b: u8) -> bool {
    ||| 0x41 <= b <= 0x5A
    ||| 0x61 <= b <= 0x7A
    ||| 0x30 <= b <= 0x39
    ||| b == 0x2D
    ||| b == 0x2E
    ||| b == 0x5F
    ||| b == 0x7E
}

/// The upper-case hexadecimal digit for a value below 16.
pub open spec fn hex_upper(n: int) -> u8 {
    if n < 10 {
        (0x30 + n) as u8
    } else {
        (0x41 + n - 10) as u8
    }
}

/// `%XX`: a percent sign and the two upper-case hexadecimal digits of `b`.
pub open spec fn escape(b: u8) -> Seq<u8> {
    seq![0x25u8, hex_upper(b as int / 16), hex_upper(b as int % 16)]
}

/// What one input byte becomes.
pub open spec fn encode_byte(b: u8) -> Seq<u8> {
    if is_unreserved(b) {
        seq![b]
    } else {
        escape(b)
    }
}

/// The percent-encoding of a byte string: unreserved bytes stay, every other
/// byte is replaced by its escape.
pub open spec fn percent_encode(s: Seq<u8>) -> Seq<u8>
    decreases s.len(),
{
    if s.len() == 0 {
        Seq::empty()
    } else {
        percent_encode(s.drop_last()) + encode_byte(s.last())
    }
}

/// `percent_encoding::percent_encode_byte`: the three-character escape of a
/// byte, a percent sign followed by the byte's value as two upper-case
/// hexadecimal digits. The crate reads it out of a fixed table of all 256
/// escapes.
#[verifier::external_body]
fn escape_of(byte: u8) -> (r: &'static str)
    ensures
        r.spec_bytes() == escape(byte),
{
    percent_encoding::percent_encode_byte(byte)
}

/// Whether `b` is in the unreserved set.
pub fn unreserved(b: u8) -> (r: bool)
    ensures
        r == is_unreserved(b),
{
    (0x41 <= b && b <= 0x5A) || (0x61 <= b && b <= 0x7A) || (0x30 <= b && b <= 0x39) || b == 0x2D
        || b == 0x2E || b == 0x5F || b == 0x7E
}

/// Percent-encodes `input`.
pub fn percent_encode_bytes(input: &[u8]) -> (r: Vec<u8>)
    ensures
        r@ == percent_encode(input@),
{
    let mut out: Vec<u8> = Vec::new();
    let mut i: usize = 0;
    while i < input.len()
        invariant
            i <= input.len(),
            out@ == percent_encode(input@.take(i as int)),
        decreases input.len() - i,
    {
        let b = input[i];
        proof {
            assert(input@.take(i + 1).drop_last() =~= input@.take(i as int));
        }
        if unreserved(b) {
            out.push(b);
            assert(out@ =~= percent_encode(input@.take(i as int)) + seq![b]);
        } else {
            let ghost before = out@;
            out.extend_from_slice(escape_of(b).as_bytes());
            assert(out@ =~= before + escape(b));
        }
        i += 1;
    }
    proof {
        assert(input@.take(input.len() as int) =~= input@);
    }
    out
}

/// Percent-encodes the UTF-8 bytes of `input`. Text that is already encoded
/// is encoded again: its percent signs become `%25`.
pub fn encode(input: &str) -> (r: String)
    ensures
        encode_utf8(r@) == percent_encode(input.spec_bytes()),
{
    let out = percent_encode_bytes(input.as_bytes());
    proof {
        lemma_percent_encode_alphabet(input.spec_bytes());
    }
    ascii_to_string(out)
}

/// A byte that can occur in encoded text: an unreserved byte or the percent
/// sign.
pub open spec fn is_encoded_byte(b: u8) -> bool {
    is_unreserved(b) || b == 0x25
}

/// Every byte is an unreserved byte or the percent sign.
pub open spec fn is_encoded_text(s: Seq<u8>) -> bool {
    forall|i: int| 0 <= i < s.len() ==> is_encoded_byte(#[trigger] s[i])
}

/// Encoding distributes over concatenation.
pub proof fn lemma_percent_encode_concat(a: Seq<u8>, b: Seq<u8>)
    ensures
        percent_encode(a + b) == percent_encode(a) + percent_encode(b),
    decreases b.len(),
{
    if b.len() == 0 {
        assert(a + b =~= a);
        assert(percent_encode(a) + percent_encode(b) =~= percent_encode(a));
    } else {
        lemma_percent_encode_concat(a, b.drop_last());
        assert((a + b).drop_last() =~= a + b.drop_last());
        assert((a + b).last() == b.last());
        assert(percent_encode(a + b) =~= percent_encode(a) + (percent_encode(b.drop_last())
            + encode_byte(b.last())));
    }
}

/// The encoding of a single byte.
pub proof fn lemma_percent_encode_single(b: u8)
    ensures
        percent_encode(seq![b]) == encode_byte(b),
{
    assert(seq![b].drop_last() =~= Seq::<u8>::empty());
    assert(percent_encode(Seq::<u8>::empty()) =~= Seq::<u8>::empty());
    assert(seq![b].last() == b);
    assert(percent_encode(seq![b]) =~= encode_byte(b));
}

/// The encoding read from the front: the first byte's encoding, then the
/// encoding of the rest.
pub proof fn lemma_percent_encode_front(s: Seq<u8>)
    requires
        s.len() > 0,
    ensures
        percent_encode(s) == encode_byte(s[0]) + percent_encode(s.drop_first()),
{
    assert(s =~= seq![s[0]] + s.drop_first());
    lemma_percent_encode_concat(seq![s[0]], s.drop_first());
    lemma_percent_encode_single(s[0]);
}

/// Encoded text holds unreserved bytes and percent signs only; in
/// particular it is ASCII and free of `&`, `=`, `,`, `"` and spaces.
pub proof fn lemma_percent_encode_alphabet(s: Seq<u8>)
    ensures
        is_encoded_text(percent_encode(s)),
        is_ascii_bytes(percent_encode(s)),
    decreases s.len(),
{
    if s.len() > 0 {
        lemma_percent_encode_alphabet(s.drop_last());
        let head = percent_encode(s.drop_last());
        let tail = encode_byte(s.last());
        assert forall|i: int| 0 <= i < tail.len() implies is_encoded_byte(#[trigger] tail[i]) by {
            lemma_hex_upper_range(s.last() as int / 16);
            lemma_hex_upper_range(s.last() as int % 16);
        }
        assert forall|i: int| 0 <= i < percent_encode(s).len() implies is_encoded_byte(
            #[trigger] percent_encode(s)[i],
        ) by {
            if i >= head.len() {
                assert(percent_encode(s)[i] == tail[i - head.len()]);
            } else {
                assert(percent_encode(s)[i] == head[i]);
            }
        }
    }
}

/// A hexadecimal digit is `0`-`9` or `A`-`F`, hence unreserved.
pub proof fn lemma_hex_upper_range(n: int)
    requires
        0 <= n < 16,
    ensures
        is_unreserved(hex_upper(n)),
        0x30 <= hex_upper(n) <= 0x39 || 0x41 <= hex_upper(n) <= 0x46,
{
}

/// Text made of unreserved bytes only is left as it is.
pub proof fn lemma_percent_encode_unreserved(s: Seq<u8>)
    requires
        forall|i: int| 0 <= i < s.len() ==> is_unreserved(#[trigger] s[i]),
    ensures
        percent_encode(s) == s,
    decreases s.len(),
{
    if s.len() > 0 {
        lemma_percent_encode_unreserved(s.drop_last());
        assert(is_unreserved(s[s.len() - 1]));
        assert(percent_encode(s) =~= s);
    }
}

/// Two hexadecimal digits determine the byte.
proof fn lemma_escape_injective(a: u8, b: u8)
    requires
        escape(a) == escape(b),
    ensures
        a == b,
{
    assert(escape(a)[1] == escape(b)[1]);
    assert(escape(a)[2] == escape(b)[2]);
    assert(a as int / 16 == b as int / 16);
    assert(a as int % 16 == b as int % 16);
}

/// Different inputs have different encodings.
pub proof fn lemma_percent_encode_injective(a: Seq<u8>, b: Seq<u8>)
    requires
        percent_encode(a) == percent_encode(b),
    ensures
        a == b,
    decreases a.len(),
{
    if a.len() == 0 {
        if b.len() > 0 {
            lemma_percent_encode_front(b);
            assert(encode_byte(b[0]).len() > 0);
            assert(percent_encode(b).len() > 0);
        }
        assert(a =~= b);
    } else {
        lemma_percent_encode_front(a);
        if b.len() == 0 {
            assert(encode_byte(a[0]).len() > 0);
            assert(percent_encode(a).len() > 0);
        } else {
            lemma_percent_encode_front(b);
            let ea = encode_byte(a[0]);
            let eb = encode_byte(b[0]);
            let ra = percent_encode(a.drop_first());
            let rb = percent_encode(b.drop_first());
            assert((ea + ra)[0] == ea[0]);
            assert((eb + rb)[0] == eb[0]);
            assert(is_unreserved(a[0]) == is_unreserved(b[0]));
            assert(ea.len() == eb.len());
            assert(ea =~= (ea + ra).subrange(0, ea.len() as int));
            assert(eb =~= (eb + rb).subrange(0, eb.len() as int));
            assert(ra =~= (ea + ra).subrange(ea.len() as int, (ea + ra).len() as int));
            assert(rb =~= (eb + rb).subrange(eb.len() as int, (eb + rb).len() as int));
            if is_unreserved(a[0]) {
                assert(ea[0] == eb[0]);
            } else {
                lemma_escape_injective(a[0], b[0]);
            }
            lemma_percent_encode_injective(a.drop_first(), b.drop_first());
            assert(a =~= seq![a[0]] + a.drop_first());
            assert(b =~= seq![b[0]] + b.drop_first());
        }
    }
}

/// `s` holds no byte `b`.
pub open spec fn free_of(s: Seq<u8>, b: u8) -> bool {
    forall|i: int| 0 <= i < s.len() ==> #[trigger] s[i] != b
}

/// Encoded text holds none of the separators that are written around it.
pub proof fn lemma_encoded_text_free_of_separators(s: Seq<u8>)
    requires
        is_encoded_text(s),
    ensures
        free_of(s, 0x26),
        free_of(s, 0x3D),
{
    assert forall|i: int| 0 <= i < s.len() implies #[trigger] s[i] != 0x26 && s[i] != 0x3D by {
        assert(is_encoded_byte(s[i]));
    }
}

/// Two texts joined by a separator come apart in one way only, if the
/// separator does not occur in the first.
pub proof fn lemma_split_at_first(a1: Seq<u8>, b1: Seq<u8>, a2: Seq<u8>, b2: Seq<u8>, sep: u8)
    requires
        a1 + seq![sep] + b1 == a2 + seq![sep] + b2,
        free_of(a1, sep),
        free_of(a2, sep),
    ensures
        a1 == a2,
        b1 == b2,
{
    let left = a1 + seq![sep] + b1;
    let right = a2 + seq![sep] + b2;
    if a1.len() < a2.len() {
        assert(left[a1.len() as int] == sep);
        assert(right[a1.len() as int] == a2[a1.len() as int]);
    } else if a2.len() < a1.len() {
        assert(right[a2.len() as int] == sep);
        assert(left[a2.len() as int] == a1[a2.len() as int]);
    }
    assert(a1 =~= left.subrange(0, a1.len() as int));
    assert(a2 =~= right.subrange(0, a2.len() as int));
    assert(b1 =~= left.subrange(a1.len() as int + 1, left.len() as int));
    assert(b2 =~= right.subrange(a2.len() as int + 1, right.len() as int));
}

/// The same, with the separator absent from the second text.
pub proof fn lemma_split_at_last(a1: Seq<u8>, b1: Seq<u8>, a2: Seq<u8>, b2: Seq<u8>, sep: u8)
    requires
        a1 + seq![sep] + b1 == a2 + seq![sep] + b2,
        free_of(b1, sep),
        free_of(b2, sep),
    ensures
        a1 == a2,
        b1 == b2,
{
    let left = a1 + seq![sep] + b1;
    let right = a2 + seq![sep] + b2;
    assert(left.len() == a1.len() + 1 + b1.len());
    assert(right.len() == a2.len() + 1 + b2.len());
    if a1.len() < a2.len() {
        assert(right[a2.len() as int] == sep);
        assert(left[a2.len() as int] == b1[a2.len() - a1.len() - 1]);
    } else if a2.len() < a1.len() {
        assert(left[a1.len() as int] == sep);
        assert(right[a1.len() as int] == b2[a1.len() - a2.len() - 1]);
    }
    assert(a1 =~= left.subrange(0, a1.len() as int));
    assert(a2 =~= right.subrange(0, a2.len() as int));
    assert(b1 =~= left.subrange(a1.len() as int + 1, left.len() as int));
    assert(b2 =~= right.subrange(a2.len() as int + 1, right.len() as int));
}

} // verus!
