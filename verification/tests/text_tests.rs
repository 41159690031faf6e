use openapi_gen::generate_js::{to_big_camel_case, word_first_letter_to_lowercase,
    word_first_letter_to_upper};
use openapi_gen::generate_js::fix_to_camel_case::fix_to_camel_case;
use openapi_gen::text::{parse_u16, str_eq, str_is_lt, split_str, join_str, u16_to_dec};
use openapi_gen::utils::get_file_name;

#[test]
fn test_word_first_letter_to_lowercase() {
    assert_eq!(word_first_letter_to_lowercase("Openapi"), "openapi");
    assert_eq!(word_first_letter_to_lowercase("O"), "o");
    assert_eq!(word_first_letter_to_lowercase(""), "");
}

#[test]
fn test_word_first_letter_to_upper() {
    assert_eq!(word_first_letter_to_upper("openapi"), "Openapi");
    assert_eq!(word_first_letter_to_upper("o"), "O");
    assert_eq!(word_first_letter_to_upper(""), "");
}

#[test]
fn test_to_big_camel_case() {
    assert_eq!(to_big_camel_case("openapi_socket_get_market"), "OpenapiSocketGetMarket");
}

#[test]
fn camel_case_of_dashed_name() {
    assert_eq!(fix_to_camel_case(&"session-id".to_string()), "sessionId");
    assert_eq!(fix_to_camel_case(&"a-b-c".to_string()), "aBC");
    assert_eq!(fix_to_camel_case(&"plain".to_string()), "plain");
}

#[test]
fn decimal_round_trip() {
    assert_eq!(u16_to_dec(0), "0");
    assert_eq!(u16_to_dec(404), "404");
    assert_eq!(u16_to_dec(65535), "65535");
    assert_eq!(parse_u16("200"), Some(200));
    assert_eq!(parse_u16("65535"), Some(65535));
    assert_eq!(parse_u16("65536"), None);
    assert_eq!(parse_u16(""), None);
    assert_eq!(parse_u16("12a"), None);
}

#[test]
fn string_order_and_equality() {
    assert!(str_is_lt("abc", "abd"));
    assert!(str_is_lt("ab", "abc"));
    assert!(!str_is_lt("abc", "abc"));
    assert!(str_eq("same", "same"));
    assert!(!str_eq("same", "sane"));
}

#[test]
fn split_and_join() {
    let parts = split_str("/a//b", '/');
    assert_eq!(parts, vec!["".to_string(), "a".to_string(), "".to_string(), "b".to_string()]);
    assert_eq!(join_str(&parts, "/"), "/a//b");
}

#[test]
fn file_name_of_path() {
    assert_eq!(get_file_name("rrr/dddd/ttrree.spec.json").unwrap(), "ttrree.spec.json");
    assert_eq!(get_file_name("plain.txt").unwrap(), "plain.txt");
    assert_eq!(get_file_name("a/b/").unwrap(), "b");
    assert_eq!(get_file_name("a/b///").unwrap(), "b");
    assert_eq!(get_file_name("a/.").unwrap(), "a");
    assert_eq!(get_file_name("a/./.").unwrap(), "a");
    assert!(get_file_name("a/..").is_err());
    assert!(get_file_name("..").is_err());
    assert!(get_file_name(".").is_err());
    assert!(get_file_name("/").is_err());
    assert!(get_file_name("").is_err());
}
