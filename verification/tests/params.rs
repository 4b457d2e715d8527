use null::oauth::order::le_bytes;
use null::oauth::params::{canonical_params, join_params, normalize_params};

fn normalized(params: &[(&str, &str)]) -> String {
    String::from_utf8(normalize_params(params)).unwrap()
}

#[test]
fn parameter_order_does_not_depend_on_insertion_order() {
    assert_eq!(normalized(&[("b", "2"), ("a", "1")]), "a=1&b=2");
    assert_eq!(normalized(&[("a", "1"), ("b", "2")]), "a=1&b=2");
}

#[test]
fn parameters_are_sorted_by_their_encoded_names() {
    let params = [("a b", "1"), ("a-b", "2"), ("a", "3"), ("A", "4"), ("a%", "5")];
    assert_eq!(normalized(&params), "A=4&a=3&a%20b=1&a%25=5&a-b=2");
}

#[test]
fn an_empty_value_stays_in_the_parameter_string() {
    assert_eq!(normalized(&[("z", "\u{e9}"), ("name", "")]), "name=&z=%C3%A9");
    assert_eq!(normalized(&[("oauth_callback", "")]), "oauth_callback=");
}

#[test]
fn the_last_value_of_a_name_counts() {
    assert_eq!(normalized(&[("a", "1"), ("b", "2"), ("a", "3")]), "a=3&b=2");
    assert_eq!(normalized(&[("a", "3"), ("a", "1")]), "a=1");
}

#[test]
fn no_parameters_give_an_empty_string() {
    assert_eq!(normalized(&[]), "");
    assert!(canonical_params(&[]).is_empty());
}

#[test]
fn canonical_parameters_are_encoded_pairs() {
    let pairs = canonical_params(&[("q", "a b"), ("k&", "v=")]);
    assert_eq!(
        pairs,
        vec![(b"k%26".to_vec(), b"v%3D".to_vec()), (b"q".to_vec(), b"a%20b".to_vec())]
    );
    assert_eq!(join_params(&pairs), b"k%26=v%3D&q=a%20b".to_vec());
}

#[test]
fn bytes_are_ordered_lexicographically() {
    assert!(le_bytes(b"", b""));
    assert!(le_bytes(b"", b"a"));
    assert!(!le_bytes(b"a", b""));
    assert!(le_bytes(b"a", b"a"));
    assert!(le_bytes(b"a", b"ab"));
    assert!(!le_bytes(b"ab", b"a"));
    assert!(le_bytes(b"ab", b"b"));
    assert!(le_bytes(b"A", b"a"));
    assert!(!le_bytes(b"a", b"A"));
    assert!(le_bytes(&[0x7f], &[0x80]));
    assert!(!le_bytes(&[0xff], &[0x00, 0xff]));
}
