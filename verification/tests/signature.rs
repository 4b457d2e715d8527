use null::error::Error;
use null::oauth::signature::{
    create_oauth_signature, create_signature_data, create_signature_key, hmac_takes, sign,
    signature_text, to_ascii_upper, try_sign,
};

const URL: &str = "https://api.example.com/1.1/statuses/update.json";

#[test]
fn signature_key_joins_encoded_secrets() {
    assert_eq!(create_signature_key("secret", ""), "secret&");
    assert_eq!(create_signature_key("", "token"), "&token");
    assert_eq!(create_signature_key("a b", "c&d"), "a%20b&c%26d");
    assert_eq!(
        create_signature_key(
            "kAcSOqF21Fu85e7zjz7ZN2U4ZRhfV3WpwPAoE3Z7kBw",
            "LswwdoUaIvS8ltyTt5jkRh4J50vUPVVHtR2YPi5kE"
        ),
        "kAcSOqF21Fu85e7zjz7ZN2U4ZRhfV3WpwPAoE3Z7kBw&LswwdoUaIvS8ltyTt5jkRh4J50vUPVVHtR2YPi5kE"
    );
}

#[test]
fn signature_data_for_one_parameter() {
    assert_eq!(
        create_signature_data("POST", URL, &[("status", "hello")]),
        "POST&https%3A%2F%2Fapi.example.com%2F1.1%2Fstatuses%2Fupdate.json&status%3Dhello"
    );
}

#[test]
fn signature_data_has_the_method_in_upper_case() {
    assert_eq!(
        create_signature_data("post", URL, &[("status", "hello")]),
        create_signature_data("POST", URL, &[("status", "hello")])
    );
    assert_eq!(to_ascii_upper(b"get/{Zz}\xe9"), b"GET/{ZZ}\xe9".to_vec());
}

#[test]
fn signature_data_without_parameters_ends_in_an_ampersand() {
    assert_eq!(create_signature_data("GET", "http://a/b", &[]), "GET&http%3A%2F%2Fa%2Fb&");
}

#[test]
fn signature_data_of_a_full_request() {
    let params = [
        ("status", "Hello Ladies + Gentlemen, a signed OAuth request!"),
        ("include_entities", "true"),
        ("oauth_consumer_key", "xvz1evFS4wEEPTGEFPHBog"),
        ("oauth_nonce", "kYjzVBB8Y0ZFabxSWbWovY3uYSQ2pTgmZeNu2VS4cg"),
        ("oauth_signature_method", "HMAC-SHA1"),
        ("oauth_timestamp", "1318622958"),
        ("oauth_token", "370773112-GmHxMAgYyLbNEtIKZeRNFsMKPR9EyMZeS9weJAEb"),
        ("oauth_version", "1.0"),
    ];
    assert_eq!(
        create_signature_data("POST", "https://api.twitter.com/1.1/statuses/update.json", &params),
        "POST&https%3A%2F%2Fapi.twitter.com%2F1.1%2Fstatuses%2Fupdate.json&include_entities%3Dtrue%26oauth_consumer_key%3Dxvz1evFS4wEEPTGEFPHBog%26oauth_nonce%3DkYjzVBB8Y0ZFabxSWbWovY3uYSQ2pTgmZeNu2VS4cg%26oauth_signature_method%3DHMAC-SHA1%26oauth_timestamp%3D1318622958%26oauth_token%3D370773112-GmHxMAgYyLbNEtIKZeRNFsMKPR9EyMZeS9weJAEb%26oauth_version%3D1.0%26status%3DHello%2520Ladies%2520%252B%2520Gentlemen%252C%2520a%2520signed%2520OAuth%2520request%2521"
    );
    assert_eq!(
        create_oauth_signature(
            "POST",
            "https://api.twitter.com/1.1/statuses/update.json",
            "kAcSOqF21Fu85e7zjz7ZN2U4ZRhfV3WpwPAoE3Z7kBw",
            "LswwdoUaIvS8ltyTt5jkRh4J50vUPVVHtR2YPi5kE",
            &params
        ),
        Ok("hCtSmYh+iHYCEqBWrE7C7hYmtUk=".to_string())
    );
}

#[test]
fn known_signature_vector() {
    let signature = create_oauth_signature("POST", URL, "secret", "", &[("status", "hello")]);
    assert_eq!(signature, Ok("AyKgN7/VqR74XMszKxwbW80GyQA=".to_string()));
}

#[test]
fn known_signature_vector_with_pinned_nonce_and_timestamp() {
    let params = [
        ("status", "hello"),
        ("oauth_consumer_key", "key"),
        ("oauth_nonce", "1600000000"),
        ("oauth_signature_method", "HMAC-SHA1"),
        ("oauth_timestamp", "1600000000"),
        ("oauth_version", "1.0"),
        ("oauth_callback", ""),
    ];
    assert_eq!(
        create_signature_data("POST", URL, &params),
        "POST&https%3A%2F%2Fapi.example.com%2F1.1%2Fstatuses%2Fupdate.json&oauth_callback%3D%26oauth_consumer_key%3Dkey%26oauth_nonce%3D1600000000%26oauth_signature_method%3DHMAC-SHA1%26oauth_timestamp%3D1600000000%26oauth_version%3D1.0%26status%3Dhello"
    );
    let signature = create_oauth_signature("POST", URL, "secret", "", &params);
    assert_eq!(signature, Ok("NO5FNywK+gJWWlPzh9g6Y+hL2ps=".to_string()));
}

#[test]
fn signing_twice_gives_the_same_signature() {
    let first = create_oauth_signature("POST", URL, "secret", "", &[("status", "hello")]);
    let second = create_oauth_signature("POST", URL, "secret", "", &[("status", "hello")]);
    assert_eq!(first, second);
}

#[test]
fn a_changed_character_changes_the_signature() {
    let reference = create_oauth_signature("POST", URL, "secret", "", &[("status", "hello")]);
    let other_secret = create_oauth_signature("POST", URL, "secreu", "", &[("status", "hello")]);
    let other_token = create_oauth_signature("POST", URL, "secret", "x", &[("status", "hello")]);
    let other_url = format!("{}x", URL);
    let changed_url = create_oauth_signature("POST", &other_url, "secret", "", &[("status", "hello")]);
    let other_method = create_oauth_signature("GET", URL, "secret", "", &[("status", "hello")]);
    let other_value = create_oauth_signature("POST", URL, "secret", "", &[("status", "hellp")]);
    assert_eq!(other_secret, Ok("wsdt/SExJZmAw/png7MRVN/IwIg=".to_string()));
    assert_eq!(other_token, Ok("2c3YY+FaltYYrWoFcDr/ysC1iQU=".to_string()));
    assert_eq!(changed_url, Ok("UDqvxnivzYigt+Fc0c+ufPXFajE=".to_string()));
    assert_eq!(other_method, Ok("o86xUYIqZ57elPRV1ICmb62si48=".to_string()));
    assert_eq!(other_value, Ok("+rPh9UuQHf5enmvtdIqgZONiF68=".to_string()));
    for changed in [other_secret, other_token, changed_url, other_method, other_value] {
        assert_ne!(changed, reference);
    }
}

#[test]
fn sign_matches_the_reference_vectors() {
    assert_eq!(sign(&[0x0b; 20], b"Hi There"), "thcxhlUFcmTii8C2+zeMjvFGvgA=");
    assert_eq!(sign(b"Jefe", b"what do ya want for nothing?"), "7/zfauXrL6LSdBbV8YTfnCWafHk=");
    assert_eq!(
        sign(&[0xaa; 80], b"Test Using Larger Than Block-Size Key - Hash Key First"),
        "qkrl4VJy0A6VcFY3zoo7Ve1AIRI="
    );
    assert_eq!(
        try_sign(b"Jefe", b"what do ya want for nothing?"),
        Ok("7/zfauXrL6LSdBbV8YTfnCWafHk=".to_string())
    );
}

#[test]
fn signature_text_is_padded_base64() {
    let mut counting = [0u8; 20];
    for (i, b) in counting.iter_mut().enumerate() {
        *b = i as u8;
    }
    assert_eq!(signature_text(&counting), "AAECAwQFBgcICQoLDA0ODxAREhM=");
    assert_eq!(signature_text(&[0xff; 20]), "//////////////////////////8=");
    let mut mixed = [0u8; 20];
    for (i, b) in mixed.iter_mut().enumerate().take(18) {
        *b = [0xfb, 0xef, 0xbe][i % 3];
    }
    assert_eq!(signature_text(&mixed), "++++++++++++++++++++++++AAA=");
}

#[test]
fn hmac_takes_what_fits_into_memory() {
    assert!(hmac_takes(0, 0));
    assert!(hmac_takes(64, 1 << 20));
    if usize::BITS == 64 {
        let limit: usize = 1 << 61;
        assert!(hmac_takes(limit - 1, limit - 65));
        assert!(!hmac_takes(limit, 0));
        assert!(!hmac_takes(0, limit - 64));
    }
    assert_eq!(Error::InputTooLong.message(), "The input is too long to be signed.");
}
