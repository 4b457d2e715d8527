use null::config::Config;
use null::error::{Credential, Error};
use null::oauth::header::{
    authorization_header, build_authorization_header, build_authorization_header_at,
    create_get_request_token_header, create_oauth1_header, find_missing_credential, render_header,
    Flow,
};

const URL: &str = "https://api.example.com/1.1/statuses/update.json";

fn config() -> Config {
    Config {
        screen_name: "name".to_string(),
        token: "bearer".to_string(),
        api_key: "key".to_string(),
        api_secret: "secret".to_string(),
        access_token: "token".to_string(),
        access_secret: "tsecret".to_string(),
    }
}

/// The fields of a header value, as written: name and quoted value.
fn fields(header: &str) -> Vec<(String, String)> {
    let rest = header.strip_prefix("OAuth ").unwrap();
    rest.split(", ")
        .map(|field| {
            let (name, value) = field.split_once('=').unwrap();
            let value = value.strip_prefix('"').unwrap().strip_suffix('"').unwrap();
            (name.to_string(), value.to_string())
        })
        .collect()
}

fn value_of(fields: &[(String, String)], name: &str) -> Option<String> {
    fields.iter().find(|(n, _)| n == name).map(|(_, v)| v.clone())
}

#[test]
fn header_at_a_fixed_time_is_deterministic() {
    let params = [("status", "hello")];
    let first =
        build_authorization_header_at(&config(), "POST", URL, &params, false, "1600000000", "1600000000");
    let second =
        build_authorization_header_at(&config(), "POST", URL, &params, false, "1600000000", "1600000000");
    assert_eq!(first, second);
    assert_eq!(
        first,
        Ok("OAuth oauth_nonce=\"1600000000\", oauth_signature_method=\"HMAC-SHA1\", oauth_timestamp=\"1600000000\", oauth_consumer_key=\"key\", oauth_signature=\"3awfA3jUHJHkEODJLiD%2B1ZkNW2w%3D\", oauth_version=\"1.0\", oauth_token=\"token\"".to_string())
    );
}

#[test]
fn request_token_header_at_a_fixed_time() {
    let header = build_authorization_header_at(
        &config(),
        "POST",
        "https://api.twitter.com/oauth/request_token",
        &[],
        true,
        "1600000000",
        "1600000000",
    );
    assert_eq!(
        header,
        Ok("OAuth oauth_nonce=\"1600000000\", oauth_callback=\"\", oauth_signature_method=\"HMAC-SHA1\", oauth_timestamp=\"1600000000\", oauth_consumer_key=\"key\", oauth_signature=\"W0b5Yuw6vCmTQ%2Fy4tze3SrON850%3D\", oauth_version=\"1.0\"".to_string())
    );
}

#[test]
fn request_token_header_signs_the_request_parameters_too() {
    let header = build_authorization_header_at(
        &config(),
        "POST",
        URL,
        &[("status", "hello")],
        true,
        "1600000000",
        "1600000000",
    )
    .unwrap();
    assert_eq!(
        value_of(&fields(&header), "oauth_signature"),
        Some("NO5FNywK%2BgJWWlPzh9g6Y%2BhL2ps%3D".to_string())
    );
}

#[test]
fn header_of_a_full_request() {
    let config = Config {
        screen_name: "name".to_string(),
        token: "bearer".to_string(),
        api_key: "xvz1evFS4wEEPTGEFPHBog".to_string(),
        api_secret: "kAcSOqF21Fu85e7zjz7ZN2U4ZRhfV3WpwPAoE3Z7kBw".to_string(),
        access_token: "370773112-GmHxMAgYyLbNEtIKZeRNFsMKPR9EyMZeS9weJAEb".to_string(),
        access_secret: "LswwdoUaIvS8ltyTt5jkRh4J50vUPVVHtR2YPi5kE".to_string(),
    };
    let params = [
        ("status", "Hello Ladies + Gentlemen, a signed OAuth request!"),
        ("include_entities", "true"),
    ];
    let header = build_authorization_header_at(
        &config,
        "POST",
        "https://api.twitter.com/1.1/statuses/update.json",
        &params,
        false,
        "kYjzVBB8Y0ZFabxSWbWovY3uYSQ2pTgmZeNu2VS4cg",
        "1318622958",
    )
    .unwrap();
    assert_eq!(
        header,
        "OAuth oauth_nonce=\"kYjzVBB8Y0ZFabxSWbWovY3uYSQ2pTgmZeNu2VS4cg\", oauth_signature_method=\"HMAC-SHA1\", oauth_timestamp=\"1318622958\", oauth_consumer_key=\"xvz1evFS4wEEPTGEFPHBog\", oauth_signature=\"hCtSmYh%2BiHYCEqBWrE7C7hYmtUk%3D\", oauth_version=\"1.0\", oauth_token=\"370773112-GmHxMAgYyLbNEtIKZeRNFsMKPR9EyMZeS9weJAEb\""
    );
}

#[test]
fn request_parameters_are_signed_but_not_written() {
    let with = build_authorization_header_at(&config(), "POST", URL, &[("status", "hello")], false, "1", "2")
        .unwrap();
    let without = build_authorization_header_at(&config(), "POST", URL, &[], false, "1", "2").unwrap();
    assert!(!with.contains("status"));
    assert_ne!(
        value_of(&fields(&with), "oauth_signature"),
        value_of(&fields(&without), "oauth_signature")
    );
}

#[test]
fn a_protocol_parameter_wins_over_a_request_parameter() {
    let plain = build_authorization_header_at(&config(), "POST", URL, &[], false, "1", "2");
    let shadowed =
        build_authorization_header_at(&config(), "POST", URL, &[("oauth_nonce", "9")], false, "1", "2");
    assert_eq!(plain, shadowed);
}

#[test]
fn request_token_flow_has_a_callback_and_no_token() {
    let header = create_get_request_token_header(&config(), "https://api.twitter.com/oauth/request_token")
        .unwrap();
    let fields = fields(&header);
    let names: Vec<&str> = fields.iter().map(|(n, _)| n.as_str()).collect();
    assert_eq!(
        names,
        vec![
            "oauth_nonce",
            "oauth_callback",
            "oauth_signature_method",
            "oauth_timestamp",
            "oauth_consumer_key",
            "oauth_signature",
            "oauth_version"
        ]
    );
    assert_eq!(value_of(&fields, "oauth_callback"), Some(String::new()));
    assert_eq!(value_of(&fields, "oauth_token"), None);
}

#[test]
fn authenticated_flow_has_a_token_and_no_callback() {
    let header = create_oauth1_header(&config(), URL, &[("status", "hello")]).unwrap();
    let fields = fields(&header);
    let names: Vec<&str> = fields.iter().map(|(n, _)| n.as_str()).collect();
    assert_eq!(
        names,
        vec![
            "oauth_nonce",
            "oauth_signature_method",
            "oauth_timestamp",
            "oauth_consumer_key",
            "oauth_signature",
            "oauth_version",
            "oauth_token"
        ]
    );
    assert_eq!(value_of(&fields, "oauth_token"), Some("token".to_string()));
    assert_eq!(value_of(&fields, "oauth_callback"), None);
    assert_eq!(value_of(&fields, "oauth_signature_method"), Some("HMAC-SHA1".to_string()));
    assert_eq!(value_of(&fields, "oauth_version"), Some("1.0".to_string()));
    assert_eq!(value_of(&fields, "oauth_consumer_key"), Some("key".to_string()));
}

#[test]
fn header_signed_now_carries_the_time_as_nonce_and_timestamp() {
    let header = build_authorization_header(&config(), "POST", URL, &[("status", "hello")], false).unwrap();
    let fields = fields(&header);
    let timestamp = value_of(&fields, "oauth_timestamp").unwrap();
    let nonce = value_of(&fields, "oauth_nonce").unwrap();
    assert_eq!(nonce, timestamp);
    let seconds: i64 = timestamp.parse().unwrap();
    assert!(seconds > 1_600_000_000);
    let again =
        build_authorization_header_at(&config(), "POST", URL, &[("status", "hello")], false, &nonce, &timestamp);
    assert_eq!(again, Ok(header));
}

#[test]
fn header_values_are_encoded_and_quoted() {
    let header = authorization_header(Flow::Authenticated, "n 1", "t&2", "k=3", "s+/=", "tok\"en");
    assert_eq!(
        header,
        "OAuth oauth_nonce=\"n%201\", oauth_signature_method=\"HMAC-SHA1\", oauth_timestamp=\"t%262\", oauth_consumer_key=\"k%3D3\", oauth_signature=\"s%2B%2F%3D\", oauth_version=\"1.0\", oauth_token=\"tok%22en\""
    );
    let header = authorization_header(Flow::RequestToken, "n", "t", "k", "s", "ignored");
    assert_eq!(
        header,
        "OAuth oauth_nonce=\"n\", oauth_callback=\"\", oauth_signature_method=\"HMAC-SHA1\", oauth_timestamp=\"t\", oauth_consumer_key=\"k\", oauth_signature=\"s\", oauth_version=\"1.0\""
    );
}

#[test]
fn rendering_joins_fields_with_comma_and_space() {
    assert_eq!(render_header(&[]), "OAuth ");
    assert_eq!(render_header(&[("a", "1")]), "OAuth a=\"1\"");
    assert_eq!(render_header(&[("a", "1"), ("b", "x y")]), "OAuth a=\"1\", b=\"x%20y\"");
}

#[test]
fn a_missing_credential_is_reported_before_signing() {
    let mut incomplete = config();
    incomplete.api_key = String::new();
    assert_eq!(
        build_authorization_header_at(&incomplete, "POST", URL, &[], false, "1", "2"),
        Err(Error::MissingCredential(Credential::ApiKey))
    );
    assert_eq!(
        create_oauth1_header(&incomplete, URL, &[]),
        Err(Error::MissingCredential(Credential::ApiKey))
    );
    let mut incomplete = config();
    incomplete.api_secret = String::new();
    incomplete.access_token = String::new();
    assert_eq!(
        build_authorization_header_at(&incomplete, "POST", URL, &[], true, "1", "2"),
        Err(Error::MissingCredential(Credential::ApiSecret))
    );
    let mut incomplete = config();
    incomplete.access_token = String::new();
    incomplete.access_secret = String::new();
    assert_eq!(find_missing_credential(&incomplete, Flow::Authenticated), Some(Credential::AccessToken));
    assert_eq!(find_missing_credential(&incomplete, Flow::RequestToken), None);
    assert!(create_get_request_token_header(&incomplete, URL).is_ok());
    incomplete.access_token = "token".to_string();
    assert_eq!(
        build_authorization_header(&incomplete, "POST", URL, &[], false),
        Err(Error::MissingCredential(Credential::AccessSecret))
    );
}
