//! The signing key, the signature base string and the signature itself.

use crate::error::Error;
use crate::oauth::encode::{
    lemma_encoded_text_free_of_separators, lemma_percent_encode_alphabet,
    lemma_percent_encode_injective, lemma_split_at_first, percent_encode, percent_encode_bytes,
};
use crate::oauth::params::{
    lemma_normalized_params_injective, normalize_params, normalized_params, param_bytes, param_map,
};
use crate::text::ascii_to_string;
use vstd::prelude::*;
use vstd::string::StringSliceAdditionalSpecFns;
use vstd::utf8::encode_utf8;

verus! {

/// The ampersand that separates the parts of key and base string.
pub open spec fn amp() -> Seq<u8> {
    seq![0x26u8]
}

/// The HMAC key: both secrets percent-encoded and joined by `&`. With an
/// empty token secret the key ends in `&`.
pub open spec fn signing_key(consumer_secret: Seq<u8>, token_secret: Seq<u8>) -> Seq<u8> {
    percent_encode(consumer_secret) + amp() + percent_encode(token_secret)
}

/// A lower-case ASCII letter becomes its capital; every other byte stays.
pub open spec fn upper_byte(b: u8) -> u8 {
    if 0x61 <= b <= 0x7A {
        (b - 0x20) as u8
    } else {
        b
    }
}

/// `s` with its ASCII letters in upper case.
pub open spec fn ascii_upper(s: Seq<u8>) -> Seq<u8> {
    Seq::new(s.len(), |i: int| upper_byte(s[i]))
}

/// The signature base string: the method in upper case, the URL and the
/// normalized parameter string, each percent-encoded, joined by `&`.
pub open spec fn signature_base(
    method: Seq<u8>,
    url: Seq<u8>,
    params: Map<Seq<u8>, Seq<u8>>,
) -> Seq<u8> {
    percent_encode(ascii_upper(method)) + amp() + percent_encode(url) + amp() + percent_encode(
        normalized_params(params),
    )
}

/// The HMAC-SHA1 of `message` under `key` (RFC 2104 with SHA-1).
pub uninterp spec fn hmac_sha1_digest(key: Seq<u8>, message: Seq<u8>) -> Seq<u8>;

/// The inputs that HMAC-SHA1 takes: SHA-1 counts the bits of what it hashes
/// in 64 bits, and the message is hashed behind a block of 64 bytes.
pub open spec fn hmac_input_ok(key_len: nat, message_len: nat) -> bool {
    key_len < 0x2000_0000_0000_0000 && message_len + 64 < 0x2000_0000_0000_0000
}

/// The character that stands for a value below 64 in the standard base64
/// alphabet: `A`-`Z`, `a`-`z`, `0`-`9`, `+`, `/`.
pub open spec fn base64_symbol(v: int) -> u8 {
    if v < 26 {
        (0x41 + v) as u8
    } else if v < 52 {
        (0x61 + v - 26) as u8
    } else if v < 62 {
        (0x30 + v - 52) as u8
    } else if v == 62 {
        0x2Bu8
    } else {
        0x2Fu8
    }
}

/// Standard base64 with padding (RFC 4648): three bytes become four
/// characters of six bits each; a last group of one or two bytes is filled up
/// with zero bits and `=`.
pub open spec fn base64(data: Seq<u8>) -> Seq<u8>
    decreases data.len(),
{
    if data.len() == 0 {
        Seq::empty()
    } else if data.len() == 1 {
        seq![
            base64_symbol(data[0] as int / 4),
            base64_symbol(data[0] as int % 4 * 16),
            0x3Du8,
            0x3Du8,
        ]
    } else if data.len() == 2 {
        seq![
            base64_symbol(data[0] as int / 4),
            base64_symbol(data[0] as int % 4 * 16 + data[1] as int / 16),
            base64_symbol(data[1] as int % 16 * 4),
            0x3Du8,
        ]
    } else {
        seq![
            base64_symbol(data[0] as int / 4),
            base64_symbol(data[0] as int % 4 * 16 + data[1] as int / 16),
            base64_symbol(data[1] as int % 16 * 4 + data[2] as int / 64),
            base64_symbol(data[2] as int % 64),
        ] + base64(data.skip(3))
    }
}

/// The signature of a request: the base64 text of the HMAC-SHA1 of its base
/// string under its signing key.
pub open spec fn oauth_signature(
    method: Seq<u8>,
    url: Seq<u8>,
    consumer_secret: Seq<u8>,
    token_secret: Seq<u8>,
    params: Map<Seq<u8>, Seq<u8>>,
) -> Seq<u8> {
    base64(
        hmac_sha1_digest(
            signing_key(consumer_secret, token_secret),
            signature_base(method, url, params),
        ),
    )
}

/// `hmacsha1::hmac_sha1`: the 20 bytes of HMAC-SHA1 over `message` with
/// `key`. The result depends on the two arguments alone. The crate's SHA-1
/// counts bits in a `u64`, which is what `hmac_input_ok` keeps in range.
#[verifier::external_body]
fn hmac_sha1_of(key: &[u8], message: &[u8]) -> (r: [u8; 20])
    requires
        hmac_input_ok(key@.len(), message@.len()),
    ensures
        r@ == hmac_sha1_digest(key@, message@),
{
    hmacsha1::hmac_sha1(key, message)
}

/// `base64::encode`: the standard alphabet with padding, as a `String`.
#[verifier::external_body]
fn base64_of(digest: &[u8; 20]) -> (r: String)
    ensures
        encode_utf8(r@) == base64(digest@),
{
    base64::encode(digest)
}

/// The HMAC key for the two secrets.
pub fn create_signature_key(oauth_consumer_secret: &str, oauth_token_secret: &str) -> (r: String)
    ensures
        encode_utf8(r@) == signing_key(
            oauth_consumer_secret.spec_bytes(),
            oauth_token_secret.spec_bytes(),
        ),
{
    let mut out = percent_encode_bytes(oauth_consumer_secret.as_bytes());
    let token = percent_encode_bytes(oauth_token_secret.as_bytes());
    out.push(0x26u8);
    out.extend_from_slice(token.as_slice());
    proof {
        let a = percent_encode(oauth_consumer_secret.spec_bytes());
        let b = percent_encode(oauth_token_secret.spec_bytes());
        lemma_percent_encode_alphabet(oauth_consumer_secret.spec_bytes());
        lemma_percent_encode_alphabet(oauth_token_secret.spec_bytes());
        assert(out@ =~= a + amp() + b);
        assert forall|i: int| 0 <= i < out@.len() implies #[trigger] out@[i] < 0x80 by {
            if i < a.len() {
                assert(out@[i] == a[i]);
            } else if i > a.len() {
                assert(out@[i] == b[i - a.len() - 1]);
            }
        }
    }
    ascii_to_string(out)
}

/// `s` with its ASCII letters in upper case.
pub fn to_ascii_upper(s: &[u8]) -> (r: Vec<u8>)
    ensures
        r@ == ascii_upper(s@),
{
    let mut out: Vec<u8> = Vec::new();
    let mut i: usize = 0;
    while i < s.len()
        invariant
            i <= s.len(),
            out@ == ascii_upper(s@.take(i as int)),
        decreases s.len() - i,
    {
        let b = s[i];
        let u: u8 = if 0x61 <= b && b <= 0x7A {
            b - 0x20
        } else {
            b
        };
        out.push(u);
        proof {
            assert(out@ =~= ascii_upper(s@.take(i + 1)));
        }
        i += 1;
    }
    proof {
        assert(s@.take(s.len() as int) =~= s@);
    }
    out
}

/// The signature base string for a request.
pub fn create_signature_data(http_method: &str, url: &str, params: &[(&str, &str)]) -> (r: String)
    ensures
        encode_utf8(r@) == signature_base(
            http_method.spec_bytes(),
            url.spec_bytes(),
            param_map(param_bytes(params@)),
        ),
{
    let upper = to_ascii_upper(http_method.as_bytes());
    let mut out = percent_encode_bytes(upper.as_slice());
    let enc_url = percent_encode_bytes(url.as_bytes());
    let normalized = normalize_params(params);
    let enc_params = percent_encode_bytes(normalized.as_slice());
    out.push(0x26u8);
    out.extend_from_slice(enc_url.as_slice());
    out.push(0x26u8);
    out.extend_from_slice(enc_params.as_slice());
    proof {
        let a = percent_encode(upper@);
        let b = enc_url@;
        let c = enc_params@;
        lemma_percent_encode_alphabet(upper@);
        lemma_percent_encode_alphabet(url.spec_bytes());
        lemma_percent_encode_alphabet(normalized@);
        assert(out@ =~= a + amp() + b + amp() + c);
        assert forall|i: int| 0 <= i < out@.len() implies #[trigger] out@[i] < 0x80 by {
            if i < a.len() {
                assert(out@[i] == a[i]);
            } else if i == a.len() {
            } else if i < a.len() + 1 + b.len() {
                assert(out@[i] == b[i - a.len() - 1]);
            } else if i == a.len() + 1 + b.len() {
            } else {
                assert(out@[i] == c[i - a.len() - b.len() - 2]);
            }
        }
    }
    ascii_to_string(out)
}

/// Whether HMAC-SHA1 takes a key and a message of these lengths.
pub fn hmac_takes(key_len: usize, message_len: usize) -> (r: bool)
    ensures
        r == hmac_input_ok(key_len as nat, message_len as nat),
{
    (key_len as u64) < 0x2000_0000_0000_0000u64 && (message_len as u64) < 0x2000_0000_0000_0000u64
        - 64
}

/// The base64 text of a digest.
pub fn signature_text(digest: &[u8; 20]) -> (r: String)
    ensures
        encode_utf8(r@) == base64(digest@),
{
    base64_of(digest)
}

/// Signs `message` with `key`: HMAC-SHA1, written in base64.
pub fn sign(key: &[u8], message: &[u8]) -> (r: String)
    requires
        hmac_input_ok(key@.len(), message@.len()),
    ensures
        encode_utf8(r@) == base64(hmac_sha1_digest(key@, message@)),
{
    let digest = hmac_sha1_of(key, message);
    signature_text(&digest)
}

/// Signs `message` with `key` where HMAC-SHA1 takes them, and says
/// `InputTooLong` where it does not.
pub fn try_sign(key: &[u8], message: &[u8]) -> (r: Result<String, Error>)
    ensures
        r is Ok <==> hmac_input_ok(key@.len(), message@.len()),
        r matches Ok(s) ==> encode_utf8(s@) == base64(hmac_sha1_digest(key@, message@)),
        r matches Err(e) ==> e == Error::InputTooLong,
{
    if hmac_takes(key.len(), message.len()) {
        Ok(sign(key, message))
    } else {
        Err(Error::InputTooLong)
    }
}

/// The signature of a request, or `InputTooLong` where key or base string
/// is longer than HMAC-SHA1 takes.
pub fn create_oauth_signature(
    http_method: &str,
    url: &str,
    oauth_consumer_secret: &str,
    oauth_token_secret: &str,
    params: &[(&str, &str)],
) -> (r: Result<String, Error>)
    ensures
        r is Ok <==> hmac_input_ok(
            signing_key(oauth_consumer_secret.spec_bytes(), oauth_token_secret.spec_bytes()).len(),
            signature_base(
                http_method.spec_bytes(),
                url.spec_bytes(),
                param_map(param_bytes(params@)),
            ).len(),
        ),
        r matches Ok(s) ==> encode_utf8(s@) == oauth_signature(
            http_method.spec_bytes(),
            url.spec_bytes(),
            oauth_consumer_secret.spec_bytes(),
            oauth_token_secret.spec_bytes(),
            param_map(param_bytes(params@)),
        ),
        r matches Err(e) ==> e == Error::InputTooLong,
{
    let key = create_signature_key(oauth_consumer_secret, oauth_token_secret);
    let data = create_signature_data(http_method, url, params);
    try_sign(key.as_str().as_bytes(), data.as_str().as_bytes())
}

/// The signing key determines both secrets.
pub proof fn lemma_signing_key_injective(
    consumer_secret: Seq<u8>,
    token_secret: Seq<u8>,
    other_consumer_secret: Seq<u8>,
    other_token_secret: Seq<u8>,
)
    requires
        signing_key(consumer_secret, token_secret) == signing_key(
            other_consumer_secret,
            other_token_secret,
        ),
    ensures
        consumer_secret == other_consumer_secret,
        token_secret == other_token_secret,
{
    lemma_percent_encode_alphabet(consumer_secret);
    lemma_percent_encode_alphabet(other_consumer_secret);
    lemma_encoded_text_free_of_separators(percent_encode(consumer_secret));
    lemma_encoded_text_free_of_separators(percent_encode(other_consumer_secret));
    lemma_split_at_first(
        percent_encode(consumer_secret),
        percent_encode(token_secret),
        percent_encode(other_consumer_secret),
        percent_encode(other_token_secret),
        0x26,
    );
    lemma_percent_encode_injective(consumer_secret, other_consumer_secret);
    lemma_percent_encode_injective(token_secret, other_token_secret);
}

/// The signature base string determines the method up to the case of its
/// letters, the URL and the parameters.
pub proof fn lemma_signature_base_injective(
    method: Seq<u8>,
    url: Seq<u8>,
    params: Map<Seq<u8>, Seq<u8>>,
    other_method: Seq<u8>,
    other_url: Seq<u8>,
    other_params: Map<Seq<u8>, Seq<u8>>,
)
    requires
        params.dom().finite(),
        other_params.dom().finite(),
        signature_base(method, url, params) == signature_base(
            other_method,
            other_url,
            other_params,
        ),
    ensures
        ascii_upper(method) == ascii_upper(other_method),
        url == other_url,
        params == other_params,
{
    let m1 = percent_encode(ascii_upper(method));
    let m2 = percent_encode(ascii_upper(other_method));
    let u1 = percent_encode(url);
    let u2 = percent_encode(other_url);
    let n1 = percent_encode(normalized_params(params));
    let n2 = percent_encode(normalized_params(other_params));
    lemma_percent_encode_alphabet(ascii_upper(method));
    lemma_percent_encode_alphabet(ascii_upper(other_method));
    lemma_percent_encode_alphabet(url);
    lemma_percent_encode_alphabet(other_url);
    lemma_encoded_text_free_of_separators(m1);
    lemma_encoded_text_free_of_separators(m2);
    lemma_encoded_text_free_of_separators(u1);
    lemma_encoded_text_free_of_separators(u2);
    assert(m1 + amp() + u1 + amp() + n1 =~= m1 + amp() + (u1 + amp() + n1));
    assert(m2 + amp() + u2 + amp() + n2 =~= m2 + amp() + (u2 + amp() + n2));
    lemma_split_at_first(m1, u1 + amp() + n1, m2, u2 + amp() + n2, 0x26);
    lemma_split_at_first(u1, n1, u2, n2, 0x26);
    lemma_percent_encode_injective(ascii_upper(method), ascii_upper(other_method));
    lemma_percent_encode_injective(url, other_url);
    lemma_percent_encode_injective(normalized_params(params), normalized_params(other_params));
    lemma_normalized_params_injective(params, other_params);
}

/// What is signed tells the requests apart. Two requests with the same
/// signing key and the same base string have the same secrets, the same
/// method up to the case of its letters, the same URL and the same
/// parameters: a change in any of these changes the key or the text that
/// HMAC-SHA1 is computed over.
pub proof fn lemma_signed_text_determines_request(
    method: Seq<u8>,
    url: Seq<u8>,
    consumer_secret: Seq<u8>,
    token_secret: Seq<u8>,
    params: Map<Seq<u8>, Seq<u8>>,
    other_method: Seq<u8>,
    other_url: Seq<u8>,
    other_consumer_secret: Seq<u8>,
    other_token_secret: Seq<u8>,
    other_params: Map<Seq<u8>, Seq<u8>>,
)
    requires
        params.dom().finite(),
        other_params.dom().finite(),
        signing_key(consumer_secret, token_secret) == signing_key(
            other_consumer_secret,
            other_token_secret,
        ),
        signature_base(method, url, params) == signature_base(
            other_method,
            other_url,
            other_params,
        ),
    ensures
        consumer_secret == other_consumer_secret,
        token_secret == other_token_secret,
        ascii_upper(method) == ascii_upper(other_method),
        url == other_url,
        params == other_params,
{
    lemma_signing_key_injective(
        consumer_secret,
        token_secret,
        other_consumer_secret,
        other_token_secret,
    );
    lemma_signature_base_injective(method, url, params, other_method, other_url, other_params);
}

} // verus!
