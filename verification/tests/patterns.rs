use doppler_keygen::pattern::VanityPattern;

fn key_with(prefix: &[u8]) -> [u8; 32] {
    let mut key = [0u8; 32];
    key[..prefix.len()].copy_from_slice(prefix);
    key
}

#[test]
fn prefix_matches_leading_bytes() {
    let p = VanityPattern::Prefix("AB".to_string());
    assert!(p.matches(&[0x41, 0x42, 0x43]));
    assert!(p.matches(&[0x41, 0x42]));
    assert!(!p.matches(&[0x42, 0x41, 0x43]));
    assert!(!p.matches(&[0x43, 0x41, 0x42]));
}

#[test]
fn prefix_longer_than_key_is_false() {
    let p = VanityPattern::Prefix("ABC".to_string());
    assert!(!p.matches(&[0x41, 0x42]));
    assert!(!p.matches(&[]));
}

#[test]
fn empty_prefix_matches_every_key() {
    let p = VanityPattern::Prefix(String::new());
    assert!(p.matches(&[]));
    assert!(p.matches(&key_with(&[9, 9])));
}

#[test]
fn suffix_matches_trailing_bytes() {
    let p = VanityPattern::Suffix("yz".to_string());
    assert!(p.matches(&[1, 2, b'y', b'z']));
    assert!(p.matches(&[b'y', b'z']));
    assert!(!p.matches(&[b'y', b'z', 1]));
    assert!(!p.matches(&[b'z']));
}

#[test]
fn suffix_on_a_key_image() {
    let mut key = [7u8; 32];
    key[30] = b'O';
    key[31] = b'K';
    assert!(VanityPattern::Suffix("OK".to_string()).matches(&key));
    assert!(!VanityPattern::Suffix("KO".to_string()).matches(&key));
}

#[test]
fn contains_slides_over_the_key() {
    let p = VanityPattern::Contains("abc".to_string());
    assert!(p.matches(b"abc"));
    assert!(p.matches(b"xxabc"));
    assert!(p.matches(b"abcxx"));
    assert!(p.matches(b"xabcx"));
    assert!(p.matches(b"ababc"));
    assert!(!p.matches(b"abxc"));
    assert!(!p.matches(b"ab"));
    assert!(!p.matches(b""));
}

#[test]
fn contains_with_empty_pattern_is_total() {
    let p = VanityPattern::Contains(String::new());
    assert!(p.matches(b""));
    assert!(p.matches(b"anything"));
}

#[test]
fn at_position_compares_the_window() {
    let p = VanityPattern::AtPosition("AB".to_string(), 2);
    assert!(p.matches(&[0, 0, 0x41, 0x42]));
    assert!(p.matches(&[0, 0, 0x41, 0x42, 9]));
    assert!(!p.matches(&[0x41, 0x42, 0, 0]));
    assert!(!p.matches(&[0, 0x41, 0x42, 0]));
}

#[test]
fn at_position_beyond_the_key_is_false() {
    let key = key_with(&[0x41, 0x42]);
    assert!(!VanityPattern::AtPosition("AB".to_string(), 31).matches(&key));
    assert!(!VanityPattern::AtPosition("AB".to_string(), 32).matches(&key));
    assert!(!VanityPattern::AtPosition("AB".to_string(), 33).matches(&key));
    assert!(!VanityPattern::AtPosition("AB".to_string(), usize::MAX).matches(&key));
    assert!(!VanityPattern::AtPosition(String::new(), usize::MAX).matches(&key));
}

#[test]
fn at_position_at_the_end_of_the_key() {
    let mut key = [0u8; 32];
    key[30] = 0x41;
    key[31] = 0x42;
    assert!(VanityPattern::AtPosition("AB".to_string(), 30).matches(&key));
    assert!(VanityPattern::AtPosition(String::new(), 32).matches(&key));
}

#[test]
fn patterns_compare_utf8_bytes() {
    let p = VanityPattern::Prefix("\u{e9}".to_string());
    assert!(p.matches(&[0xC3, 0xA9, 0x00]));
    assert!(!p.matches(&[0xE9, 0x00]));
}
