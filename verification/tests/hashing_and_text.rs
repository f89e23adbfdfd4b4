use mc_mod_updater::hashing::{hash_bytes, murmur2};
use mc_mod_updater::local_mods::is_jar_extension;
use mc_mod_updater::text::{
    chars_lt, chars_of, decimal_text, ends_with, parse_unsigned, stable_order, text_equal,
    to_lowercase,
};

#[test]
fn hash_bytes_of_empty_input() {
    assert_eq!(
        hash_bytes(b""),
        "cf83e1357eefb8bdf1542850d66d8007d620e4050b5715dc83f4a921d36ce9ce47d0d13c5d85f2b0ff8318d2877eec2f63b931bd47417a81a538327af927da3e"
    );
}

#[test]
fn hash_bytes_of_abc() {
    let h = hash_bytes(b"abc");
    assert_eq!(
        h,
        "ddaf35a193617abacc417349ae20413112e6fa4e89a97ea20a9eeee64b55d39a2192992a274fc1a836ba3c23a3feebbd454d4423643ce80e2a9ac94fa54ca49f"
    );
    assert_eq!(h.len(), 128);
}

#[test]
fn murmur2_known_values() {
    assert_eq!(murmur2(b""), 1540447798);
    assert_eq!(murmur2(b"a"), 626045324);
    assert_eq!(murmur2(b"ab"), 1692487918);
    assert_eq!(murmur2(b"abc"), 1621425345);
    assert_eq!(murmur2(b"abcd"), 3376380438);
    assert_eq!(murmur2(b"hello world"), 2824650221);
}

#[test]
fn murmur2_ignores_whitespace() {
    assert_eq!(murmur2(b"hello world"), murmur2(b"helloworld"));
    assert_eq!(murmur2(b" a\tb\r\nc "), murmur2(b"abc"));
    assert_eq!(murmur2(b"\n\n\t "), murmur2(b""));
}

#[test]
fn murmur2_differs_for_other_bytes() {
    assert_ne!(murmur2(b"abc"), murmur2(b"abd"));
}

#[test]
fn decimal_numerals() {
    assert_eq!(decimal_text(0), "0");
    assert_eq!(decimal_text(7), "7");
    assert_eq!(decimal_text(1234), "1234");
    assert_eq!(decimal_text(u64::MAX), "18446744073709551615");
}

#[test]
fn parse_unsigned_accepts_and_rejects() {
    assert_eq!(parse_unsigned("42", 100), Some(42));
    assert_eq!(parse_unsigned("+42", 100), Some(42));
    assert_eq!(parse_unsigned("007", 100), Some(7));
    assert_eq!(parse_unsigned("", 100), None);
    assert_eq!(parse_unsigned("+", 100), None);
    assert_eq!(parse_unsigned("-1", 100), None);
    assert_eq!(parse_unsigned("12a", 100), None);
    assert_eq!(parse_unsigned(" 1", 100), None);
    assert_eq!(parse_unsigned("101", 100), None);
    assert_eq!(parse_unsigned("4294967295", 0xffff_ffff), Some(4294967295));
    assert_eq!(parse_unsigned("4294967296", 0xffff_ffff), None);
    assert_eq!(parse_unsigned("99999999999999999999x", u64::MAX), None);
}

#[test]
fn text_order_and_equality() {
    assert!(chars_lt(&chars_of("abc"), &chars_of("abd")));
    assert!(chars_lt(&chars_of("ab"), &chars_of("abc")));
    assert!(!chars_lt(&chars_of("abc"), &chars_of("abc")));
    assert!(chars_lt(&chars_of("Z"), &chars_of("a")));
    assert!(text_equal("mod", "mod"));
    assert!(!text_equal("mod", "mods"));
    assert!(ends_with("sodium.jar", ".jar"));
    assert!(!ends_with("sodium.jar.disabled", ".jar"));
    assert!(!ends_with("jar", ".jar"));
}

#[test]
fn lowercase_is_unicode_aware() {
    assert_eq!(to_lowercase("Sodium EXTRA"), "sodium extra");
    assert_eq!(to_lowercase("ÀÉÎ"), "àéî");
}

#[test]
fn stable_order_keeps_equal_keys_in_place() {
    let keys = vec![chars_of("b"), chars_of("a"), chars_of("b"), chars_of("a")];
    assert_eq!(stable_order(&keys), vec![1, 3, 0, 2]);
    let empty: Vec<Vec<char>> = Vec::new();
    assert_eq!(stable_order(&empty), Vec::<usize>::new());
}

#[test]
fn jar_extension_ignores_ascii_case() {
    assert!(is_jar_extension("jar"));
    assert!(is_jar_extension("JAR"));
    assert!(is_jar_extension("Jar"));
    assert!(!is_jar_extension("zip"));
    assert!(!is_jar_extension("jar "));
    assert!(!is_jar_extension("ja"));
}
