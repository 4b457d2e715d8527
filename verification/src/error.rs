//! What can go wrong.

use vstd::prelude::*;

verus! {

/// One of the values that the configuration must hold.
#[derive(Debug, Clone, Copy, PartialEq, Eq, Structural)]
pub enum Credential {
    ScreenName,
    Token,
    ApiKey,
    ApiSecret,
    AccessToken,
    AccessSecret,
}

/// The ways in which an operation of this library fails.
#[derive(Debug, Clone, Copy, PartialEq, Eq, Structural)]
pub enum Error {
    /// A value that the operation needs is empty.
    MissingCredential(Credential),
    /// The response to a token request is not three well-formed
    /// `key=value` fields.
    MalformedTokenResponse,
    /// The input is not valid text.
    EncodingFailure,
    /// The input is longer than HMAC-SHA1 can take.
    InputTooLong,
}

impl Credential {
    /// What to tell the user when the value is missing.
    pub open spec fn complaint(self) -> Seq<char> {
        match self {
            Credential::ScreenName => "Please specify TW_NAME as twitter screen_name in .env file or as environment variable."@,
            Credential::Token => "Please specify TW_TOKEN as twitter api token in .env file or as environment variable."@,
            Credential::ApiKey => "API_KEY is missing."@,
            Credential::ApiSecret => "API_SECRET is missing."@,
            Credential::AccessToken => "ACCESS_TOKEN is missing."@,
            Credential::AccessSecret => "ACCESS_SECRET is missing."@,
        }
    }
}

impl Error {
    /// The error in words.
    pub open spec fn message_text(self) -> Seq<char> {
        match self {
            Error::MissingCredential(credential) => credential.complaint(),
            Error::MalformedTokenResponse => "The response to the token request is malformed."@,
            Error::EncodingFailure => "The input is not valid text."@,
            Error::InputTooLong => "The input is too long to be signed."@,
        }
    }

    /// The error in words.
    pub fn message(&self) -> (r: String)
        ensures
            r@ == self.message_text(),
    {
        let text = match self {
            Error::MissingCredential(Credential::ScreenName) => "Please specify TW_NAME as twitter screen_name in .env file or as environment variable.",
            Error::MissingCredential(Credential::Token) => "Please specify TW_TOKEN as twitter api token in .env file or as environment variable.",
            Error::MissingCredential(Credential::ApiKey) => "API_KEY is missing.",
            Error::MissingCredential(Credential::ApiSecret) => "API_SECRET is missing.",
            Error::MissingCredential(Credential::AccessToken) => "ACCESS_TOKEN is missing.",
            Error::MissingCredential(Credential::AccessSecret) => "ACCESS_SECRET is missing.",
            Error::MalformedTokenResponse => "The response to the token request is malformed.",
            Error::EncodingFailure => "The input is not valid text.",
            Error::InputTooLong => "The input is too long to be signed.",
        };
        text.to_owned()
    }
}

} // verus!
