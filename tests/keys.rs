use lease_runtime::key::{Key, MAX_KEY_LEN};
use lease_runtime::text::{decimal_string, format_elapsed};

#[test]
fn key_is_slugified() {
    assert_eq!(Key::new("Hello World!").as_str(), "hello-world-");
    assert_eq!(Key::new("v1/mdc-A_b").to_string(), "v1/mdc-a-b");
    assert_eq!(Key::new("test1").as_str(), "test1");
    assert_eq!(Key::new("").as_str(), "");
    assert_eq!(Key::new("\u{e9}t\u{e9}\u{2603}").as_str(), "-t--");
}

#[test]
fn key_length_is_bounded() {
    let long = "x".repeat(MAX_KEY_LEN + 10);
    assert_eq!(Key::new(&long).as_str().len(), MAX_KEY_LEN);
    let exact = "y".repeat(MAX_KEY_LEN);
    assert_eq!(Key::new(&exact).as_str(), exact);
}

#[test]
fn raw_key_is_kept() {
    let k = Key::from_raw("Not Slug!".to_string());
    assert_eq!(k.as_str(), "Not Slug!");
    assert!(k.clone() == k);
    assert!(Key::new("A") == Key::from_raw("a".to_string()));
}

#[test]
fn elapsed_formats() {
    assert_eq!(format_elapsed(0), "0s");
    assert_eq!(format_elapsed(5), "5s");
    assert_eq!(format_elapsed(125), "2min 5s");
    assert_eq!(format_elapsed(3600), "1hr 0min 0s");
    assert_eq!(format_elapsed(3725), "1hr 2min 5s");
    assert_eq!(format_elapsed(90061), "25hr 1min 1s");
}

#[test]
fn decimal_digits() {
    assert_eq!(decimal_string(0), "0");
    assert_eq!(decimal_string(10), "10");
    assert_eq!(decimal_string(u64::MAX), "18446744073709551615");
}

#[test]
fn key_from_str_slugifies() {
    let k: Key = "Test 1".into();
    assert_eq!(k.as_str(), "test-1");
}
