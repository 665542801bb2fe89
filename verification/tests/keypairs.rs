use doppler_keygen::keys::KeyMaterial;
use doppler_keygen::report::{address_from_keypair, address_report, batch_match_line,
    batch_summary, immediate_match_report, keypair_file_name, keypair_json, read_public_key,
    storage_of, ConvertError, ConvertFault};
use doppler_keygen::batch::BatchPattern;

fn counting_key() -> [u8; 32] {
    let mut key = [0u8; 32];
    for (i, b) in key.iter_mut().enumerate() {
        *b = i as u8;
    }
    key
}

#[test]
fn generated_key_holds_its_public_key() {
    let key = KeyMaterial::generate();
    assert_eq!(&key.secret[32..], &key.public[..]);
    let other = KeyMaterial::generate();
    assert_ne!(key.secret, other.secret);
}

#[test]
fn address_is_base58_of_the_public_key() {
    let zero = KeyMaterial { secret: [0u8; 64], public: [0u8; 32] };
    assert_eq!(zero.address(), "11111111111111111111111111111111");
    let mut one = [0u8; 32];
    one[31] = 1;
    let key = KeyMaterial { secret: [0u8; 64], public: one };
    assert_eq!(key.address(), "11111111111111111111111111111112");
    let key = KeyMaterial { secret: [0u8; 64], public: [0xFF; 32] };
    assert_eq!(key.address(), "JEKNVnkbo3jma5nREBBJCDoXFVeKkD56V3xKrvRmWxFG");
}

#[test]
fn stored_form_is_a_plain_array() {
    assert_eq!(keypair_json(&[]), "[]");
    assert_eq!(keypair_json(&[7]), "[7]");
    assert_eq!(keypair_json(&[0, 1, 10, 100, 255]), "[0,1,10,100,255]");
    let bytes: Vec<u8> = (0..64).collect();
    let expected = format!(
        "[{}]",
        bytes.iter().map(|b| b.to_string()).collect::<Vec<_>>().join(",")
    );
    assert_eq!(keypair_json(&bytes), expected);
}

#[test]
fn file_is_named_after_the_address() {
    assert_eq!(keypair_file_name("abc"), "abc.json");
    assert_eq!(keypair_file_name(""), ".json");
}

#[test]
fn storage_of_a_generated_key() {
    let key = KeyMaterial::generate();
    let file = storage_of(&key);
    assert_eq!(file.file_name, format!("{}.json", key.address()));
    assert_eq!(file.contents, keypair_json(&key.secret));
    assert!(file.contents.starts_with('['));
    assert!(file.contents.ends_with(']'));
    assert_eq!(file.contents.matches(',').count(), 63);
    assert!(!file.contents.contains(' '));
}

#[test]
fn stored_key_reads_back() {
    let key = KeyMaterial::generate();
    let file = storage_of(&key);
    assert_eq!(read_public_key(&file.contents), Ok(key.public));
    let report = address_from_keypair(&file.contents).unwrap();
    assert_eq!(report, address_report(&key.public, &key.address()));
    assert!(report.starts_with(&format!("Public Key: {}\n", key.address())));
}

fn fault_of<T: std::fmt::Debug>(r: Result<T, ConvertError>) -> ConvertFault {
    r.unwrap_err().fault
}

#[test]
fn text_that_is_no_byte_array_is_refused() {
    for text in ["", "not json", "{}", "[1,2,", "[1,2,256]", "[-1]", "[1.5]", "\"abc\"", "[1] x"] {
        assert_eq!(fault_of(read_public_key(text)), ConvertFault::MalformedJson);
        assert_eq!(fault_of(address_from_keypair(text)), ConvertFault::MalformedJson);
    }
}

#[test]
fn json_error_text_is_handed_on() {
    let e = read_public_key("[1,2,").unwrap_err();
    assert_eq!(e.fault, ConvertFault::MalformedJson);
    assert_eq!(e.detail, "EOF while parsing a value at line 1 column 5");
    assert_eq!(e.message(), e.detail);
    let e = address_from_keypair("[1,\n 2x]").unwrap_err();
    assert_eq!(e.detail, "expected `,` or `]` at line 2 column 3");
    for text in ["", "{}", "[256]", "[1] x"] {
        let expected = serde_json::from_str::<Vec<u8>>(text).unwrap_err().to_string();
        assert_eq!(read_public_key(text).unwrap_err().detail, expected);
        assert_ne!(expected, text);
    }
}

#[test]
fn bytes_that_are_no_keypair_are_refused() {
    assert_eq!(fault_of(read_public_key("[]")), ConvertFault::InvalidKeypair);
    assert_eq!(fault_of(read_public_key("[1,2,3]")), ConvertFault::InvalidKeypair);
    let zeros = keypair_json(&[0u8; 64]);
    assert_eq!(fault_of(read_public_key(&zeros)), ConvertFault::InvalidKeypair);
    let key = KeyMaterial::generate();
    let mut bytes = key.secret;
    bytes[40] ^= 1;
    assert_eq!(
        fault_of(address_from_keypair(&keypair_json(&bytes))),
        ConvertFault::InvalidKeypair
    );
    let long = keypair_json(&[key.secret.as_slice(), &[0u8]].concat());
    assert_eq!(fault_of(read_public_key(&long)), ConvertFault::InvalidKeypair);
    assert_eq!(
        fault_of(read_public_key(&keypair_json(&key.secret[..63]))),
        ConvertFault::InvalidKeypair
    );
}

#[test]
fn keypair_error_text_is_handed_on() {
    let e = read_public_key("[1,2,3]").unwrap_err();
    assert_eq!(
        e,
        ConvertError { fault: ConvertFault::InvalidKeypair, detail: "signature error".to_string() }
    );
    let e = address_from_keypair(&keypair_json(&[0u8; 64])).unwrap_err();
    assert_eq!(e.detail, "signature error");
    assert_eq!(e.message(), "signature error");
}

#[test]
fn generated_key_is_a_keypair() {
    for _ in 0..8 {
        let key = KeyMaterial::generate();
        assert_eq!(read_public_key(&keypair_json(&key.secret)), Ok(key.public));
    }
}

#[test]
fn white_space_in_the_file_is_accepted() {
    let key = KeyMaterial::generate();
    let spaced = storage_of(&key).contents.replace(',', " ,\n ");
    assert_eq!(read_public_key(&format!("  {}\n", spaced)), Ok(key.public));
}

#[test]
fn address_report_of_a_known_key() {
    let mut key = [0u8; 32];
    key[8..16].copy_from_slice(&[0xFF; 8]);
    key[16..24].copy_from_slice(&[0x01, 0x00, 0x00, 0x80, 0x00, 0x00, 0x00, 0x01]);
    key[24..32].copy_from_slice(&[0x78, 0x56, 0x34, 0x12, 0, 0, 0, 0]);
    let report = address_report(&key, "ADDRESS");
    let expected = "Public Key: ADDRESS\n\
\n\
Public Key (hex): 0000000000000000ffffffffffffffff01000080000000017856341200000000\n\
\n\
=== Assembly Constants ===\n\
.equ EXPECTED_ADMIN_KEY_0, 0x00000000\n\
.equ EXPECTED_ADMIN_KEY_1, 0xffffffff\n\
.equ EXPECTED_ADMIN_KEY_2, 0x0100000080000001\n\
.equ EXPECTED_ADMIN_KEY_3, 0x12345678\n\
\n\
=== Assembly Comparison Code ===\n\
\x20 ldxdw r2, [r1+0]\n\
\x20 jne r2, EXPECTED_ADMIN_KEY_0, abort\n\
\n\
\x20 ldxdw r2, [r1+8]\n\
\x20 jne r2, EXPECTED_ADMIN_KEY_1, abort\n\
\n\
\x20 ldxdw r2, [r1+16]\n\
\x20 lddw r3, EXPECTED_ADMIN_KEY_2\n\
\x20 jne r2, r3, abort\n\
\n\
\x20 ldxdw r2, [r1+24]\n\
\x20 jne r2, EXPECTED_ADMIN_KEY_3, abort\n\
\n";
    assert_eq!(report, expected);
}

#[test]
fn hex_dump_has_two_lower_case_digits_for_each_byte() {
    let report = address_report(&counting_key(), "x");
    let line = report.lines().nth(2).unwrap();
    assert_eq!(
        line,
        "Public Key (hex): 000102030405060708090a0b0c0d0e0f101112131415161718191a1b1c1d1e1f"
    );
    let mut key = [0u8; 32];
    key[0] = 0xAB;
    key[31] = 0xF0;
    let report = address_report(&key, "x");
    let line = report.lines().nth(2).unwrap();
    assert_eq!(
        line,
        "Public Key (hex): ab000000000000000000000000000000000000000000000000000000000000f0"
    );
}

#[test]
fn report_on_a_key_of_the_immediate_search() {
    let mut key = counting_key();
    key[8..16].copy_from_slice(&[0xFE, 0xFF, 0xFF, 0xFF, 0xFF, 0xFF, 0xFF, 0xFF]);
    let report = immediate_match_report(2, 5, 11, &key, "ADDR", 1);
    let expected = "\n\u{2705} FOUND MATCHING KEYPAIR #2/5\n\
Thread: 11\n\
Public Key: 0001020304050607feffffffffffffff101112131415161718191a1b1c1d1e1f\n\
Public Key (base58): ADDR\n\
Matched Segment: 1 (bytes 8-15)\n\
Segment 1 bytes (hex): fe ff ff ff | ff ff ff ff\n\
\x20 i32 value: -2 (0xfffffffe)\n\
\x20 i64 value: -2 (0xfffffffffffffffe)\n\
\n";
    assert_eq!(report, expected);
}

#[test]
fn report_on_a_positive_immediate() {
    let mut key = [0x55u8; 32];
    key[24..32].copy_from_slice(&[0x10, 0x20, 0x30, 0x40, 0, 0, 0, 0]);
    let report = immediate_match_report(1, 1, 0, &key, "A", 3);
    assert!(report.contains("Matched Segment: 3 (bytes 24-31)\n"));
    assert!(report.contains("Segment 3 bytes (hex): 10 20 30 40 | 00 00 00 00\n"));
    assert!(report.contains("  i32 value: 1076895760 (0x40302010)\n"));
    assert!(report.contains("  i64 value: 1076895760 (0x0000000040302010)\n"));
    let report = immediate_match_report(1, 1, 0, &[0u8; 32], "A", 0);
    assert!(report.contains("Matched Segment: 0 (bytes 0-7)\n"));
    assert!(report.contains("  i32 value: 0 (0x00000000)\n"));
}

#[test]
fn line_for_a_key_of_a_batch() {
    assert_eq!(batch_match_line("prefix:AB", "ADDR"), "Found key for 'prefix:AB': ADDR\n");
}

#[test]
fn summary_of_a_batch() {
    let mut targets = vec![
        BatchPattern::new("prefix:AB", None, 2).unwrap(),
        BatchPattern::new("at:3:x", None, 10).unwrap(),
    ];
    targets[1].current_count = 4;
    assert_eq!(
        batch_summary(&targets).unwrap(),
        "Batch processing 2 patterns (4/12 keys found)\n  prefix:AB: 0/2\n  at:3:x: 4/10\n"
    );
    assert_eq!(batch_summary(&[]).unwrap(), "Batch processing 0 patterns (0/0 keys found)\n");
    targets[0].target_count = usize::MAX;
    assert_eq!(batch_summary(&targets), None);
}
