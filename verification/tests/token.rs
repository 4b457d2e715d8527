use null::error::Error;
use null::oauth::token::RequstToken;

fn parse(body: &str) -> Result<RequstToken, Error> {
    RequstToken::from_response(body.to_string())
}

#[test]
fn token_response_with_three_fields() {
    let token = parse("oauth_token=abc&oauth_token_secret=xyz&oauth_callback_confirmed=true");
    assert_eq!(
        token,
        Ok(RequstToken {
            oauth_token: "abc".to_string(),
            oauth_token_secret: "xyz".to_string(),
            oauth_callback_confirmed: "true".to_string(),
        })
    );
}

#[test]
fn token_response_without_confirmation_is_malformed() {
    assert_eq!(parse("oauth_token=abc&oauth_token_secret=xyz"), Err(Error::MalformedTokenResponse));
}

#[test]
fn token_response_without_token_or_secret_is_malformed() {
    assert_eq!(
        parse("oauth_token_secret=xyz&oauth_callback_confirmed=true"),
        Err(Error::MalformedTokenResponse)
    );
    assert_eq!(
        parse("oauth_token=abc&oauth_callback_confirmed=true"),
        Err(Error::MalformedTokenResponse)
    );
    assert_eq!(parse(""), Err(Error::MalformedTokenResponse));
}

#[test]
fn token_response_segment_needs_exactly_one_equals_sign() {
    let good = "oauth_token=abc&oauth_token_secret=xyz&oauth_callback_confirmed=true";
    assert_eq!(parse(&format!("{}&flag", good)), Err(Error::MalformedTokenResponse));
    assert_eq!(parse(&format!("{}&a=b=c", good)), Err(Error::MalformedTokenResponse));
    assert_eq!(parse(&format!("{}&", good)), Err(Error::MalformedTokenResponse));
    assert_eq!(parse(&format!("&{}", good)), Err(Error::MalformedTokenResponse));
    assert_eq!(
        parse("oauth_token=a=b&oauth_token_secret=xyz&oauth_callback_confirmed=true"),
        Err(Error::MalformedTokenResponse)
    );
    assert!(parse(&format!("{}&other=1", good)).is_ok());
    assert!(parse(&format!("{}&=", good)).is_ok());
}

#[test]
fn token_response_fields_in_any_order_last_value_wins() {
    let token = parse(
        "oauth_callback_confirmed=false&oauth_token=old&oauth_token_secret=&oauth_token=new&x=y",
    )
    .unwrap();
    assert_eq!(token.oauth_token, "new");
    assert_eq!(token.oauth_token_secret, "");
    assert_eq!(token.oauth_callback_confirmed, "false");
}

#[test]
fn token_response_values_are_not_decoded() {
    let token =
        parse("oauth_token=a%20b&oauth_token_secret=\u{e9}+&oauth_callback_confirmed=true").unwrap();
    assert_eq!(token.oauth_token, "a%20b");
    assert_eq!(token.oauth_token_secret, "\u{e9}+");
}

#[test]
fn token_response_from_bytes() {
    let token = RequstToken::from_bytes(
        b"oauth_token=abc&oauth_token_secret=xyz&oauth_callback_confirmed=true",
    );
    assert_eq!(
        token,
        Ok(RequstToken {
            oauth_token: "abc".to_string(),
            oauth_token_secret: "xyz".to_string(),
            oauth_callback_confirmed: "true".to_string(),
        })
    );
    assert_eq!(RequstToken::from_bytes(b"oauth_token=abc"), Err(Error::MalformedTokenResponse));
}

#[test]
fn token_response_that_is_not_text_is_an_encoding_failure() {
    let body = b"oauth_token=\xff&oauth_token_secret=xyz&oauth_callback_confirmed=true";
    assert_eq!(RequstToken::from_bytes(body), Err(Error::EncodingFailure));
    assert_eq!(RequstToken::from_bytes(&[0xc3]), Err(Error::EncodingFailure));
    assert_eq!(Error::EncodingFailure.message(), "The input is not valid text.");
    assert_eq!(
        Error::MalformedTokenResponse.message(),
        "The response to the token request is malformed."
    );
}
