//! OAuth 1.0a signing: from the parts of a request to the value of its
//! `Authorization` header.

pub mod encode;
pub mod header;
pub mod order;
pub mod params;
pub mod signature;
pub mod token;

pub use encode::encode;
pub use header::{
    build_authorization_header, build_authorization_header_at, create_get_request_token_header,
    create_oauth1_header, Flow,
};
pub use signature::{
    create_oauth_signature, create_signature_data, create_signature_key, sign, try_sign,
};
pub use token::RequstToken;
