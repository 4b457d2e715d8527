//! The response to a request for a request token.

use crate::chars::{chars_of, pieces_view, spells, split, split_chars, string_of};
use crate::error::Error;
use crate::text::text_from_utf8;
use vstd::prelude::*;
use vstd::slice::slice_to_vec;
use vstd::utf8::{decode_utf8, valid_utf8};

verus! {

/// A request token as the provider hands it out.
#[derive(Debug, PartialEq, Eq)]
pub struct RequstToken {
    pub oauth_token: String,
    pub oauth_token_secret: String,
    pub oauth_callback_confirmed: String,
}

/// A segment is a field when it holds exactly one `=`.
pub open spec fn is_field(segment: Seq<char>) -> bool {
    split(segment, '=').len() == 2
}

/// What stands before the `=`.
pub open spec fn field_name(segment: Seq<char>) -> Seq<char> {
    split(segment, '=')[0]
}

/// What stands behind the `=`.
pub open spec fn field_value(segment: Seq<char>) -> Seq<char> {
    split(segment, '=')[1]
}

/// Every segment is a field.
pub open spec fn all_fields(segments: Seq<Seq<char>>) -> bool {
    forall|i: int| 0 <= i < segments.len() ==> is_field(#[trigger] segments[i])
}

/// The value of the last field called `name`, if there is one.
pub open spec fn lookup(segments: Seq<Seq<char>>, name: Seq<char>) -> Option<Seq<char>>
    decreases segments.len(),
{
    if segments.len() == 0 {
        None
    } else if field_name(segments.last()) == name {
        Some(field_value(segments.last()))
    } else {
        lookup(segments.drop_last(), name)
    }
}

/// The token, its secret and the confirmation that a response body holds.
/// The body is a list of `key=value` fields joined by `&`; there is a
/// result when every segment is such a field and the three keys occur.
pub open spec fn parse_token_response(response: Seq<char>) -> Option<
    (Seq<char>, Seq<char>, Seq<char>),
> {
    let segments = split(response, '&');
    if !all_fields(segments) {
        None
    } else {
        match (
            lookup(segments, "oauth_token"@),
            lookup(segments, "oauth_token_secret"@),
            lookup(segments, "oauth_callback_confirmed"@),
        ) {
            (Some(token), Some(secret), Some(confirmed)) => Some((token, secret, confirmed)),
            _ => None,
        }
    }
}

/// What a body of bytes holds: it has to be text first.
pub open spec fn parse_token_bytes(body: Seq<u8>) -> Result<
    (Seq<char>, Seq<char>, Seq<char>),
    Error,
> {
    if !valid_utf8(body) {
        Err(Error::EncodingFailure)
    } else {
        match parse_token_response(decode_utf8(body)) {
            Some(fields) => Ok(fields),
            None => Err(Error::MalformedTokenResponse),
        }
    }
}

impl RequstToken {
    /// The three values as text.
    pub open spec fn fields(&self) -> (Seq<char>, Seq<char>, Seq<char>) {
        (self.oauth_token@, self.oauth_token_secret@, self.oauth_callback_confirmed@)
    }

    /// Reads the token out of a response body. Nothing is decoded and
    /// nothing is guessed: a segment without exactly one `=`, or a missing
    /// key, is an error.
    pub fn from_response(response: String) -> (r: Result<RequstToken, Error>)
        ensures
            match r {
                Ok(token) => parse_token_response(response@) == Some(token.fields()),
                Err(e) => e == Error::MalformedTokenResponse && parse_token_response(response@)
                    is None,
            },
    {
        let chars = chars_of(response.as_str());
        let segments = split_chars(chars.as_slice(), '&');
        let ghost all = pieces_view(segments@);
        let mut token: Option<String> = None;
        let mut secret: Option<String> = None;
        let mut confirmed: Option<String> = None;
        let mut i: usize = 0;
        while i < segments.len()
            invariant
                i <= segments.len(),
                all == pieces_view(segments@),
                all == split(response@, '&'),
                all_fields(all.take(i as int)),
                option_text(token) == lookup(all.take(i as int), "oauth_token"@),
                option_text(secret) == lookup(all.take(i as int), "oauth_token_secret"@),
                option_text(confirmed) == lookup(all.take(i as int), "oauth_callback_confirmed"@),
            decreases segments.len() - i,
        {
            let parts = split_chars(segments[i].as_slice(), '=');
            proof {
                assert(all[i as int] == segments@[i as int]@);
                assert(all.take(i + 1).drop_last() =~= all.take(i as int));
                assert(all.take(i + 1).last() == all[i as int]);
            }
            if parts.len() != 2 {
                proof {
                    assert(!is_field(all[i as int]));
                }
                return Err(Error::MalformedTokenResponse);
            }
            proof {
                assert(pieces_view(parts@)[0] == parts@[0]@);
                assert(pieces_view(parts@)[1] == parts@[1]@);
                assert forall|j: int| 0 <= j < all.take(i + 1).len() implies is_field(
                    #[trigger] all.take(i + 1)[j],
                ) by {
                    if j < i {
                        assert(all.take(i as int)[j] == all[j]);
                    }
                }
            }
            if spells(parts[0].as_slice(), "oauth_token") {
                token = Some(string_of(parts[1].as_slice()));
            }
            if spells(parts[0].as_slice(), "oauth_token_secret") {
                secret = Some(string_of(parts[1].as_slice()));
            }
            if spells(parts[0].as_slice(), "oauth_callback_confirmed") {
                confirmed = Some(string_of(parts[1].as_slice()));
            }
            i += 1;
        }
        proof {
            assert(all.take(segments.len() as int) =~= all);
        }
        match (token, secret, confirmed) {
            (Some(oauth_token), Some(oauth_token_secret), Some(oauth_callback_confirmed)) => Ok(
                RequstToken { oauth_token, oauth_token_secret, oauth_callback_confirmed },
            ),
            _ => Err(Error::MalformedTokenResponse),
        }
    }

    /// Reads the token out of a response body as it came off the wire.
    pub fn from_bytes(body: &[u8]) -> (r: Result<RequstToken, Error>)
        ensures
            match r {
                Ok(token) => parse_token_bytes(body@) == Ok::<
                    (Seq<char>, Seq<char>, Seq<char>),
                    Error,
                >(token.fields()),
                Err(e) => parse_token_bytes(body@) == Err::<
                    (Seq<char>, Seq<char>, Seq<char>),
                    Error,
                >(e),
            },
    {
        match text_from_utf8(slice_to_vec(body)) {
            Ok(text) => RequstToken::from_response(text),
            Err(e) => Err(e),
        }
    }
}

/// The text of a value that may be missing.
pub open spec fn option_text(value: Option<String>) -> Option<Seq<char>> {
    match value {
        Some(s) => Some(s@),
        None => None,
    }
}

} // verus!
