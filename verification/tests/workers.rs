use doppler_keygen::batch::BatchPattern;
use doppler_keygen::keys::KeyMaterial;
use doppler_keygen::report::{immediate_match_report, keypair_json};
use doppler_keygen::worker::{claim_key, offer_key};

fn material(public: [u8; 32]) -> KeyMaterial {
    let mut secret = [9u8; 64];
    secret[32..].copy_from_slice(&public);
    KeyMaterial { secret, public }
}

fn key_with(prefix: &[u8]) -> KeyMaterial {
    let mut public = [0u8; 32];
    public[..prefix.len()].copy_from_slice(prefix);
    material(public)
}

#[test]
fn offered_key_is_credited_reported_and_stored() {
    let mut targets = vec![
        BatchPattern::new("prefix:zz", None, 1).unwrap(),
        BatchPattern::new("prefix:AB", None, 1).unwrap(),
    ];
    let key = key_with(&[0x41, 0x42]);
    let credit = offer_key(&mut targets, &key).unwrap();
    assert_eq!(credit.target, 1);
    assert_eq!(targets[0].current_count, 0);
    assert_eq!(targets[1].current_count, 1);
    let address = key.address();
    assert_eq!(credit.found.report, format!("Found key for 'prefix:AB': {}\n", address));
    assert_eq!(credit.found.file.file_name, format!("{}.json", address));
    assert_eq!(credit.found.file.contents, keypair_json(&key.secret));
}

#[test]
fn complete_target_stores_no_further_key() {
    let mut targets = vec![BatchPattern::new("prefix:AB", None, 1).unwrap()];
    let key = key_with(&[0x41, 0x42]);
    assert!(offer_key(&mut targets, &key).is_some());
    assert!(offer_key(&mut targets, &key).is_none());
    assert!(offer_key(&mut targets, &key).is_none());
    assert_eq!(targets[0].current_count, 1);
}

#[test]
fn key_that_no_target_wants_is_not_stored() {
    let mut targets = vec![BatchPattern::new("prefix:AB", None, 1).unwrap()];
    assert!(offer_key(&mut targets, &key_with(&[0x42])).is_none());
    assert_eq!(targets[0].current_count, 0);
}

#[test]
fn keys_within_the_count_are_kept() {
    let key = key_with(&[]);
    let first = claim_key(&key, 0, 1, 2, 3).unwrap();
    assert!(!first.last);
    assert_eq!(
        first.found.report,
        immediate_match_report(1, 2, 3, &key.public, &key.address(), 0)
    );
    assert_eq!(first.found.file.file_name, format!("{}.json", key.address()));
    assert_eq!(first.found.file.contents, keypair_json(&key.secret));
    let second = claim_key(&key, 2, 2, 2, 0).unwrap();
    assert!(second.last);
    assert!(second.found.report.contains("\n\u{2705} FOUND MATCHING KEYPAIR #2/2\n"));
    assert!(second.found.report.contains("Matched Segment: 2 (bytes 16-23)\n"));
}

#[test]
fn key_above_the_count_is_dropped() {
    let key = key_with(&[]);
    assert!(claim_key(&key, 0, 3, 2, 0).is_none());
    assert!(claim_key(&key, 0, usize::MAX, 1, 0).is_none());
    assert!(claim_key(&key, 0, 1, 0, 0).is_none());
}
