use bookforge::text::{decimal_string, from_chars, str_contains, to_chars, trim_end_matches};

#[test]
fn contains_finds_a_part_anywhere() {
    assert!(str_contains("Into the Woods", "the"));
    assert!(str_contains("Into the Woods", "Into"));
    assert!(str_contains("Into the Woods", "Woods"));
    assert!(str_contains("Into the Woods", "Into the Woods"));
    assert!(!str_contains("Into the Woods", "Into the Woods!"));
    assert!(!str_contains("Into the Woods", "woodland"));
}

#[test]
fn contains_compares_characters_as_they_are() {
    assert!(!str_contains("The Hobbit", "the"));
    assert!(str_contains("The Hobbit", "The"));
    assert!(!str_contains("dune", "Dune"));
}

#[test]
fn contains_the_empty_text_always() {
    assert!(str_contains("Dune", ""));
    assert!(str_contains("", ""));
    assert!(!str_contains("", "a"));
}

#[test]
fn contains_works_on_characters_not_bytes() {
    assert!(str_contains("Les Misérables", "éra"));
    assert!(str_contains("戦争と平和", "と平"));
    assert!(!str_contains("戦争と平和", "平と"));
}

#[test]
fn decimal_of_small_and_large_numbers() {
    assert_eq!(decimal_string(0), "0");
    assert_eq!(decimal_string(7), "7");
    assert_eq!(decimal_string(10), "10");
    assert_eq!(decimal_string(1005), "1005");
    assert_eq!(decimal_string(-1), "-1");
    assert_eq!(decimal_string(-120), "-120");
    assert_eq!(decimal_string(i64::MAX), "9223372036854775807");
    assert_eq!(decimal_string(i64::MIN), "-9223372036854775808");
    assert_eq!(decimal_string(i32::MIN as i64), "-2147483648");
    assert_eq!(decimal_string(u32::MAX as i64), "4294967295");
}

#[test]
fn decimal_agrees_with_the_standard_rendering() {
    let mut n: i64 = -5000;
    while n <= 5000 {
        assert_eq!(decimal_string(n), format!("{}", n));
        n += 37;
    }
}

#[test]
fn trim_end_drops_the_whole_run() {
    assert_eq!(trim_end_matches("/library///", '/'), "/library");
    assert_eq!(trim_end_matches("/library", '/'), "/library");
    assert_eq!(trim_end_matches("///", '/'), "");
    assert_eq!(trim_end_matches("", '/'), "");
    assert_eq!(trim_end_matches("/a/b/", '/'), "/a/b");
}

#[test]
fn chars_round_trip() {
    let v = to_chars("héllo");
    assert_eq!(v, vec!['h', 'é', 'l', 'l', 'o']);
    assert_eq!(from_chars(&v, 5), "héllo");
    assert_eq!(from_chars(&v, 2), "hé");
    assert_eq!(from_chars(&v, 0), "");
}
