//! The `Authorization` header of a signed request.

use crate::config::Config;
use crate::error::{Credential, Error};
use crate::oauth::encode::{lemma_percent_encode_alphabet, percent_encode, percent_encode_bytes};
use crate::oauth::params::{param_bytes, param_map};
use crate::oauth::signature::{
    create_oauth_signature, hmac_input_ok, oauth_signature, signature_base, signing_key,
};
use crate::text::{
    append_bytes, append_text, decimal, decimal_string, lemma_ascii_is_utf8, utf8_to_string,
};
use vstd::prelude::*;
use vstd::string::StringSliceAdditionalSpecFns;
use vstd::utf8::{encode_utf8, encode_utf8_decode_utf8, valid_utf8};

verus! {

/// The two kinds of signed request.
#[derive(Debug, Clone, Copy, PartialEq, Eq, Structural)]
pub enum Flow {
    /// Asking for a request token: there is no access token yet, and the
    /// request names a callback.
    RequestToken,
    /// A request on behalf of the user, with the access token.
    Authenticated,
}

/// The field that only one of the flows has: the (empty) callback when
/// asking for a request token, else the access token.
pub open spec fn flow_field(flow: Flow, token: Seq<u8>) -> (Seq<u8>, Seq<u8>) {
    match flow {
        Flow::RequestToken => ("oauth_callback".spec_bytes(), Seq::empty()),
        Flow::Authenticated => ("oauth_token".spec_bytes(), token),
    }
}

/// The protocol parameters that are signed together with the request's own.
pub open spec fn protocol_params(
    flow: Flow,
    consumer_key: Seq<u8>,
    nonce: Seq<u8>,
    timestamp: Seq<u8>,
    token: Seq<u8>,
) -> Seq<(Seq<u8>, Seq<u8>)> {
    seq![
        ("oauth_consumer_key".spec_bytes(), consumer_key),
        ("oauth_nonce".spec_bytes(), nonce),
        ("oauth_signature_method".spec_bytes(), "HMAC-SHA1".spec_bytes()),
        ("oauth_timestamp".spec_bytes(), timestamp),
        ("oauth_version".spec_bytes(), "1.0".spec_bytes()),
        flow_field(flow, token),
    ]
}

/// The fields of the header, in the order in which they are written.
pub open spec fn header_fields(
    flow: Flow,
    nonce: Seq<u8>,
    timestamp: Seq<u8>,
    consumer_key: Seq<u8>,
    signature: Seq<u8>,
    token: Seq<u8>,
) -> Seq<(Seq<u8>, Seq<u8>)> {
    let first = seq![("oauth_nonce".spec_bytes(), nonce)];
    let middle = seq![
        ("oauth_signature_method".spec_bytes(), "HMAC-SHA1".spec_bytes()),
        ("oauth_timestamp".spec_bytes(), timestamp),
        ("oauth_consumer_key".spec_bytes(), consumer_key),
        ("oauth_signature".spec_bytes(), signature),
        ("oauth_version".spec_bytes(), "1.0".spec_bytes()),
    ];
    match flow {
        Flow::RequestToken => first + seq![flow_field(flow, token)] + middle,
        Flow::Authenticated => first + middle + seq![flow_field(flow, token)],
    }
}

/// One field: its name, `=`, and its value percent-encoded between double
/// quotes.
pub open spec fn field_text(field: (Seq<u8>, Seq<u8>)) -> Seq<u8> {
    field.0 + "=\"".spec_bytes() + percent_encode(field.1) + "\"".spec_bytes()
}

/// The fields, separated by a comma and a space.
pub open spec fn join_fields(fields: Seq<(Seq<u8>, Seq<u8>)>) -> Seq<u8>
    decreases fields.len(),
{
    if fields.len() == 0 {
        Seq::empty()
    } else if fields.len() == 1 {
        field_text(fields[0])
    } else {
        join_fields(fields.drop_last()) + ", ".spec_bytes() + field_text(fields.last())
    }
}

/// The header value: `OAuth ` and the fields.
pub open spec fn header_text(fields: Seq<(Seq<u8>, Seq<u8>)>) -> Seq<u8> {
    "OAuth ".spec_bytes() + join_fields(fields)
}

/// Writes the header value for the given fields.
pub fn render_header(fields: &[(&str, &str)]) -> (r: String)
    ensures
        encode_utf8(r@) == header_text(param_bytes(fields@)),
{
    let ghost all = param_bytes(fields@);
    let mut out: Vec<u8> = Vec::new();
    assert(valid_utf8(out@));
    append_text(&mut out, "OAuth ");
    assert(out@ =~= "OAuth ".spec_bytes());
    let mut i: usize = 0;
    while i < fields.len()
        invariant
            i <= fields.len(),
            all == param_bytes(fields@),
            out@ == "OAuth ".spec_bytes() + join_fields(all.take(i as int)),
            valid_utf8(out@),
        decreases fields.len() - i,
    {
        let ghost before = out@;
        let ghost joined = join_fields(all.take(i as int));
        let ghost field = all[i as int];
        let value = percent_encode_bytes(fields[i].1.as_bytes());
        proof {
            lemma_percent_encode_alphabet(fields@[i as int].1.spec_bytes());
            lemma_ascii_is_utf8(value@);
        }
        if i > 0 {
            append_text(&mut out, ", ");
        }
        let ghost sep = out@;
        append_text(&mut out, fields[i].0);
        append_text(&mut out, "=\"");
        append_bytes(&mut out, value.as_slice());
        append_text(&mut out, "\"");
        proof {
            assert(all.take(i + 1).drop_last() =~= all.take(i as int));
            assert(all.take(i + 1).last() == field);
            assert(out@ =~= sep + field_text(field));
            if i > 0 {
                assert(out@ =~= "OAuth ".spec_bytes() + (joined + ", ".spec_bytes() + field_text(
                    field,
                )));
            } else {
                assert(all.take(1)[0] == field);
                assert(joined =~= Seq::<u8>::empty());
                assert(out@ =~= "OAuth ".spec_bytes() + field_text(field));
            }
        }
        i += 1;
    }
    proof {
        assert(all.take(fields.len() as int) =~= all);
    }
    utf8_to_string(out)
}

/// The header value for a request whose signature is known.
///
/// The token is written in the authenticated flow only; when asking for a
/// request token the empty callback stands in its place, behind the nonce.
pub fn authorization_header(
    flow: Flow,
    nonce: &str,
    timestamp: &str,
    consumer_key: &str,
    signature: &str,
    token: &str,
) -> (r: String)
    ensures
        encode_utf8(r@) == header_text(
            header_fields(
                flow,
                nonce.spec_bytes(),
                timestamp.spec_bytes(),
                consumer_key.spec_bytes(),
                signature.spec_bytes(),
                token.spec_bytes(),
            ),
        ),
{
    let mut fields: Vec<(&str, &str)> = Vec::new();
    fields.push(("oauth_nonce", nonce));
    match flow {
        Flow::RequestToken => {
            fields.push(("oauth_callback", ""));
        },
        Flow::Authenticated => {},
    }
    fields.push(("oauth_signature_method", "HMAC-SHA1"));
    fields.push(("oauth_timestamp", timestamp));
    fields.push(("oauth_consumer_key", consumer_key));
    fields.push(("oauth_signature", signature));
    fields.push(("oauth_version", "1.0"));
    match flow {
        Flow::RequestToken => {},
        Flow::Authenticated => {
            fields.push(("oauth_token", token));
        },
    }
    proof {
        lemma_empty_text();
        assert(param_bytes(fields@) =~= header_fields(
            flow,
            nonce.spec_bytes(),
            timestamp.spec_bytes(),
            consumer_key.spec_bytes(),
            signature.spec_bytes(),
            token.spec_bytes(),
        ));
    }
    render_header(fields.as_slice())
}

/// The flow that the flag stands for.
pub open spec fn flow_of(is_request_token_flow: bool) -> Flow {
    if is_request_token_flow {
        Flow::RequestToken
    } else {
        Flow::Authenticated
    }
}

/// The first of the credentials that the flow signs with and the
/// configuration leaves empty. The token and its secret are needed in the
/// authenticated flow only.
pub open spec fn missing_credential(config: Config, flow: Flow) -> Option<Credential> {
    if config.api_key@.len() == 0 {
        Some(Credential::ApiKey)
    } else if config.api_secret@.len() == 0 {
        Some(Credential::ApiSecret)
    } else if flow == Flow::Authenticated && config.access_token@.len() == 0 {
        Some(Credential::AccessToken)
    } else if flow == Flow::Authenticated && config.access_secret@.len() == 0 {
        Some(Credential::AccessSecret)
    } else {
        None
    }
}

/// The token secret that the flow signs with: none before there is a token.
pub open spec fn token_secret(config: Config, flow: Flow) -> Seq<u8> {
    match flow {
        Flow::RequestToken => Seq::empty(),
        Flow::Authenticated => encode_utf8(config.access_secret@),
    }
}

/// Everything that is signed: the request's own parameters and the protocol
/// parameters. Where a request parameter has the name of a protocol
/// parameter, the protocol parameter counts.
pub open spec fn signed_params(
    config: Config,
    extra_params: Seq<(Seq<u8>, Seq<u8>)>,
    flow: Flow,
    nonce: Seq<u8>,
    timestamp: Seq<u8>,
) -> Map<Seq<u8>, Seq<u8>> {
    param_map(
        extra_params + protocol_params(
            flow,
            encode_utf8(config.api_key@),
            nonce,
            timestamp,
            encode_utf8(config.access_token@),
        ),
    )
}

/// The header for a request at a given nonce and timestamp, or why there is
/// none: a credential is missing, or what is to be signed is too long.
pub open spec fn signed_header(
    config: Config,
    method: Seq<u8>,
    url: Seq<u8>,
    extra_params: Seq<(Seq<u8>, Seq<u8>)>,
    flow: Flow,
    nonce: Seq<u8>,
    timestamp: Seq<u8>,
) -> Result<Seq<u8>, Error> {
    let consumer_secret = encode_utf8(config.api_secret@);
    let params = signed_params(config, extra_params, flow, nonce, timestamp);
    if let Some(credential) = missing_credential(config, flow) {
        Err(Error::MissingCredential(credential))
    } else if !hmac_input_ok(
        signing_key(consumer_secret, token_secret(config, flow)).len(),
        signature_base(method, url, params).len(),
    ) {
        Err(Error::InputTooLong)
    } else {
        Ok(
            header_text(
                header_fields(
                    flow,
                    nonce,
                    timestamp,
                    encode_utf8(config.api_key@),
                    oauth_signature(
                        method,
                        url,
                        consumer_secret,
                        token_secret(config, flow),
                        params,
                    ),
                    encode_utf8(config.access_token@),
                ),
            ),
        )
    }
}

/// `result` is the text of `expected`, or its error.
pub open spec fn result_is(result: Result<String, Error>, expected: Result<Seq<u8>, Error>) -> bool {
    match result {
        Ok(text) => expected == Ok::<Seq<u8>, Error>(encode_utf8(text@)),
        Err(e) => expected == Err::<Seq<u8>, Error>(e),
    }
}

/// The first credential that the flow needs and `config` lacks.
pub fn find_missing_credential(config: &Config, flow: Flow) -> (r: Option<Credential>)
    ensures
        r == missing_credential(*config, flow),
{
    if config.api_key.as_str().is_empty() {
        return Some(Credential::ApiKey);
    }
    if config.api_secret.as_str().is_empty() {
        return Some(Credential::ApiSecret);
    }
    match flow {
        Flow::RequestToken => None,
        Flow::Authenticated => {
            if config.access_token.as_str().is_empty() {
                Some(Credential::AccessToken)
            } else if config.access_secret.as_str().is_empty() {
                Some(Credential::AccessSecret)
            } else {
                None
            }
        },
    }
}

/// The `Authorization` header for a request, signed at the given nonce and
/// timestamp. The result is a function of the arguments alone: the same
/// arguments give the same header.
///
/// The request's own parameters are signed but not written into the header.
pub fn build_authorization_header_at(
    config: &Config,
    method: &str,
    url: &str,
    extra_params: &[(&str, &str)],
    is_request_token_flow: bool,
    nonce: &str,
    timestamp: &str,
) -> (r: Result<String, Error>)
    ensures
        result_is(
            r,
            signed_header(
                *config,
                method.spec_bytes(),
                url.spec_bytes(),
                param_bytes(extra_params@),
                flow_of(is_request_token_flow),
                nonce.spec_bytes(),
                timestamp.spec_bytes(),
            ),
        ),
{
    let flow = if is_request_token_flow {
        Flow::RequestToken
    } else {
        Flow::Authenticated
    };
    if let Some(credential) = find_missing_credential(config, flow) {
        return Err(Error::MissingCredential(credential));
    }
    let consumer_key = config.api_key.as_str();
    let token = config.access_token.as_str();
    let mut params: Vec<(&str, &str)> = Vec::new();
    let mut i: usize = 0;
    while i < extra_params.len()
        invariant
            i <= extra_params.len(),
            params@ == extra_params@.take(i as int),
        decreases extra_params.len() - i,
    {
        params.push(extra_params[i]);
        proof {
            assert(params@ =~= extra_params@.take(i + 1));
        }
        i += 1;
    }
    params.push(("oauth_consumer_key", consumer_key));
    params.push(("oauth_nonce", nonce));
    params.push(("oauth_signature_method", "HMAC-SHA1"));
    params.push(("oauth_timestamp", timestamp));
    params.push(("oauth_version", "1.0"));
    let secret = match flow {
        Flow::RequestToken => {
            params.push(("oauth_callback", ""));
            ""
        },
        Flow::Authenticated => {
            params.push(("oauth_token", token));
            config.access_secret.as_str()
        },
    };
    proof {
        lemma_empty_text();
        assert(extra_params@.take(extra_params.len() as int) =~= extra_params@);
        assert(param_bytes(params@) =~= param_bytes(extra_params@) + protocol_params(
            flow,
            consumer_key.spec_bytes(),
            nonce.spec_bytes(),
            timestamp.spec_bytes(),
            token.spec_bytes(),
        ));
        assert(secret.spec_bytes() == token_secret(*config, flow));
    }
    match create_oauth_signature(method, url, config.api_secret.as_str(), secret, params.as_slice()) {
        Ok(signature) => Ok(
            authorization_header(flow, nonce, timestamp, consumer_key, signature.as_str(), token),
        ),
        Err(e) => Err(e),
    }
}

/// `chrono::Utc::now` and `DateTime::timestamp`: the system clock's time in
/// whole seconds since the start of 1970 (UTC). Nothing is promised of the
/// value. chrono stops the program where the clock stands before 1970.
#[verifier::external_body]
fn unix_time() -> i64 {
    chrono::Utc::now().timestamp()
}

/// The header for a request signed at the second `now`, which is nonce and
/// timestamp at once.
pub open spec fn signed_header_at_time(
    config: Config,
    method: Seq<u8>,
    url: Seq<u8>,
    extra_params: Seq<(Seq<u8>, Seq<u8>)>,
    flow: Flow,
    now: int,
) -> Result<Seq<u8>, Error> {
    signed_header(config, method, url, extra_params, flow, decimal(now), decimal(now))
}

/// The `Authorization` header for a request, signed now. The time in
/// seconds, read when the function is called, serves as timestamp and as
/// nonce; a header is for one request and is not to be sent twice.
pub fn build_authorization_header(
    config: &Config,
    method: &str,
    url: &str,
    extra_params: &[(&str, &str)],
    is_request_token_flow: bool,
) -> (r: Result<String, Error>)
    ensures
        exists|now: i64|
            result_is(
                r,
                #[trigger] signed_header_at_time(
                    *config,
                    method.spec_bytes(),
                    url.spec_bytes(),
                    param_bytes(extra_params@),
                    flow_of(is_request_token_flow),
                    now as int,
                ),
            ),
{
    let now = unix_time();
    let timestamp = decimal_string(now);
    let r = build_authorization_header_at(
        config,
        method,
        url,
        extra_params,
        is_request_token_flow,
        timestamp.as_str(),
        timestamp.as_str(),
    );
    proof {
        assert(result_is(
            r,
            signed_header_at_time(
                *config,
                method.spec_bytes(),
                url.spec_bytes(),
                param_bytes(extra_params@),
                flow_of(is_request_token_flow),
                now as int,
            ),
        ));
    }
    r
}

/// The header for a `POST` to `url` on behalf of the user.
pub fn create_oauth1_header(config: &Config, url: &str, params: &[(&str, &str)]) -> (r: Result<
    String,
    Error,
>)
    ensures
        exists|now: i64|
            result_is(
                r,
                #[trigger] signed_header_at_time(
                    *config,
                    "POST".spec_bytes(),
                    url.spec_bytes(),
                    param_bytes(params@),
                    Flow::Authenticated,
                    now as int,
                ),
            ),
{
    build_authorization_header(config, "POST", url, params, false)
}

/// The header for the `POST` to `url` that asks for a request token.
pub fn create_get_request_token_header(config: &Config, url: &str) -> (r: Result<String, Error>)
    ensures
        exists|now: i64|
            result_is(
                r,
                #[trigger] signed_header_at_time(
                    *config,
                    "POST".spec_bytes(),
                    url.spec_bytes(),
                    Seq::empty(),
                    Flow::RequestToken,
                    now as int,
                ),
            ),
{
    let none: Vec<(&str, &str)> = Vec::new();
    proof {
        assert(param_bytes(none@) =~= Seq::<(Seq<u8>, Seq<u8>)>::empty());
    }
    build_authorization_header(config, "POST", url, none.as_slice(), true)
}

/// Signing the same request at the same nonce and timestamp a second time
/// gives the same header, or the same error.
pub proof fn lemma_header_is_deterministic(
    first: Result<String, Error>,
    second: Result<String, Error>,
    config: Config,
    method: Seq<u8>,
    url: Seq<u8>,
    extra_params: Seq<(Seq<u8>, Seq<u8>)>,
    flow: Flow,
    nonce: Seq<u8>,
    timestamp: Seq<u8>,
)
    requires
        result_is(first, signed_header(config, method, url, extra_params, flow, nonce, timestamp)),
        result_is(second, signed_header(config, method, url, extra_params, flow, nonce, timestamp)),
    ensures
        match (first, second) {
            (Ok(a), Ok(b)) => a@ == b@,
            (Err(a), Err(b)) => a == b,
            _ => false,
        },
{
    if let (Ok(a), Ok(b)) = (first, second) {
        encode_utf8_decode_utf8(a@);
        encode_utf8_decode_utf8(b@);
    }
}

/// The names of the fields, in the order of the fields.
pub open spec fn field_names(fields: Seq<(Seq<u8>, Seq<u8>)>) -> Seq<Seq<u8>> {
    Seq::new(fields.len(), |i: int| fields[i].0)
}

/// Different texts have different bytes.
proof fn lemma_bytes_differ(a: &str, b: &str)
    requires
        a@ != b@,
    ensures
        a.spec_bytes() != b.spec_bytes(),
{
    encode_utf8_decode_utf8(a@);
    encode_utf8_decode_utf8(b@);
}

/// The names of callback and token are names of no other field.
proof fn lemma_flow_field_names()
    ensures
        "oauth_callback".spec_bytes() != "oauth_token".spec_bytes(),
        "oauth_callback".spec_bytes() != "oauth_nonce".spec_bytes(),
        "oauth_callback".spec_bytes() != "oauth_signature_method".spec_bytes(),
        "oauth_callback".spec_bytes() != "oauth_timestamp".spec_bytes(),
        "oauth_callback".spec_bytes() != "oauth_consumer_key".spec_bytes(),
        "oauth_callback".spec_bytes() != "oauth_signature".spec_bytes(),
        "oauth_callback".spec_bytes() != "oauth_version".spec_bytes(),
        "oauth_token".spec_bytes() != "oauth_nonce".spec_bytes(),
        "oauth_token".spec_bytes() != "oauth_signature_method".spec_bytes(),
        "oauth_token".spec_bytes() != "oauth_timestamp".spec_bytes(),
        "oauth_token".spec_bytes() != "oauth_consumer_key".spec_bytes(),
        "oauth_token".spec_bytes() != "oauth_signature".spec_bytes(),
        "oauth_token".spec_bytes() != "oauth_version".spec_bytes(),
{
    reveal_strlit("oauth_callback");
    reveal_strlit("oauth_token");
    reveal_strlit("oauth_nonce");
    reveal_strlit("oauth_signature_method");
    reveal_strlit("oauth_timestamp");
    reveal_strlit("oauth_consumer_key");
    reveal_strlit("oauth_signature");
    reveal_strlit("oauth_version");
    assert("oauth_token"@[6] != "oauth_nonce"@[6]);
    lemma_bytes_differ("oauth_callback", "oauth_token");
    lemma_bytes_differ("oauth_callback", "oauth_nonce");
    lemma_bytes_differ("oauth_callback", "oauth_signature_method");
    lemma_bytes_differ("oauth_callback", "oauth_timestamp");
    lemma_bytes_differ("oauth_callback", "oauth_consumer_key");
    lemma_bytes_differ("oauth_callback", "oauth_signature");
    lemma_bytes_differ("oauth_callback", "oauth_version");
    lemma_bytes_differ("oauth_token", "oauth_nonce");
    lemma_bytes_differ("oauth_token", "oauth_signature_method");
    lemma_bytes_differ("oauth_token", "oauth_timestamp");
    lemma_bytes_differ("oauth_token", "oauth_consumer_key");
    lemma_bytes_differ("oauth_token", "oauth_signature");
    lemma_bytes_differ("oauth_token", "oauth_version");
}

/// The flow decides which of the two fields a header has: the header that
/// asks for a request token names a callback and no token, the header of an
/// authenticated request names the token and no callback.
pub proof fn lemma_flow_decides_fields(
    flow: Flow,
    nonce: Seq<u8>,
    timestamp: Seq<u8>,
    consumer_key: Seq<u8>,
    signature: Seq<u8>,
    token: Seq<u8>,
)
    ensures
        field_names(
            header_fields(flow, nonce, timestamp, consumer_key, signature, token),
        ).contains("oauth_callback".spec_bytes()) <==> flow == Flow::RequestToken,
        field_names(
            header_fields(flow, nonce, timestamp, consumer_key, signature, token),
        ).contains("oauth_token".spec_bytes()) <==> flow == Flow::Authenticated,
{
    lemma_flow_field_names();
    let names = field_names(header_fields(flow, nonce, timestamp, consumer_key, signature, token));
    match flow {
        Flow::RequestToken => {
            assert(names.len() == 7);
            assert(names[1] == "oauth_callback".spec_bytes());
            assert(names[0] == "oauth_nonce".spec_bytes());
            assert(names[2] == "oauth_signature_method".spec_bytes());
            assert(names[3] == "oauth_timestamp".spec_bytes());
            assert(names[4] == "oauth_consumer_key".spec_bytes());
            assert(names[5] == "oauth_signature".spec_bytes());
            assert(names[6] == "oauth_version".spec_bytes());
        },
        Flow::Authenticated => {
            assert(names.len() == 7);
            assert(names[6] == "oauth_token".spec_bytes());
            assert(names[0] == "oauth_nonce".spec_bytes());
            assert(names[1] == "oauth_signature_method".spec_bytes());
            assert(names[2] == "oauth_timestamp".spec_bytes());
            assert(names[3] == "oauth_consumer_key".spec_bytes());
            assert(names[4] == "oauth_signature".spec_bytes());
            assert(names[5] == "oauth_version".spec_bytes());
        },
    }
}

/// The empty string has no bytes.
pub proof fn lemma_empty_text()
    ensures
        "".spec_bytes() == Seq::<u8>::empty(),
{
    reveal_strlit("");
    assert("".spec_bytes() =~= Seq::<u8>::empty());
}

} // verus!
