use rx_history::{HashError, ReplayVerifier, VerifyResult};

#[test]
fn hash_known_values() {
    assert_eq!(rx_history::replay::Hash::of(b""), rx_history::replay::Hash(0x811c9dc5));
    assert_eq!(rx_history::replay::Hash::of(b"a"), rx_history::replay::Hash(0xe40c292c));
    assert_eq!(rx_history::replay::Hash::of(b"foobar"), rx_history::replay::Hash(0xbf9cf968));
}

#[test]
fn hash_hex_round_trip() {
    let h = rx_history::replay::Hash(0x0a1b2c3d);
    assert_eq!(h.to_hex(), "0a1b2c3d");
    assert_eq!(rx_history::replay::Hash::from_hex("0a1b2c3d"), Ok(h));
    assert_eq!(rx_history::replay::Hash(0).to_hex(), "00000000");
    assert_eq!(rx_history::replay::Hash(0xffffffff).to_hex(), "ffffffff");
}

#[test]
fn hash_parse_errors() {
    assert_eq!(rx_history::replay::Hash::from_hex("abc"), Err(HashError::OddLength("abc".to_string())));
    assert_eq!(
        rx_history::replay::Hash::from_hex("zz000000"),
        Err(HashError::InvalidCharacter("zz000000".to_string(), 'z'))
    );
    assert_eq!(
        rx_history::replay::Hash::from_hex("0A000000"),
        Err(HashError::InvalidCharacter("0A000000".to_string(), 'A'))
    );
    assert_eq!(rx_history::replay::Hash::from_hex("abcd"), Err(HashError::WrongLength("abcd".to_string())));
    assert_eq!(rx_history::replay::Hash::from_hex(""), Err(HashError::WrongLength(String::new())));
}

#[test]
fn record_deduplicates_repeats() {
    let mut r = ReplayVerifier::new();
    assert!(r.record_frame(b"frame"));
    assert!(!r.record_frame(b"frame"));
    assert_eq!(r.expected(), vec![rx_history::replay::Hash::of(b"frame")]);
    assert!(r.record_frame(b"other"));
    assert!(r.record_frame(b"frame"));
    assert_eq!(r.expected().len(), 3);
}

#[test]
fn replay_matching_run() {
    let mut rec = ReplayVerifier::new();
    for f in [b"A", b"A", b"B", b"C"] {
        rec.record_frame(f);
    }
    let expected = rec.expected();
    assert_eq!(expected, vec![rx_history::replay::Hash::of(b"A"), rx_history::replay::Hash::of(b"B"), rx_history::replay::Hash::of(b"C")]);

    let mut rep = ReplayVerifier::from_hashes(expected);
    let results: Vec<VerifyResult> = [b"A", b"A", b"B", b"C"].iter().map(|f| rep.verify_frame(*f)).collect();
    assert_eq!(
        results,
        vec![VerifyResult::Okay, VerifyResult::Stale, VerifyResult::Okay, VerifyResult::Okay]
    );
    assert_eq!(rep.last_verified(), Some(rx_history::replay::Hash::of(b"C")));
}

#[test]
fn replay_mismatch_then_eof() {
    let mut rec = ReplayVerifier::new();
    for f in [b"A", b"A", b"B", b"C"] {
        rec.record_frame(f);
    }
    let mut rep = ReplayVerifier::from_hashes(rec.expected());
    assert_eq!(rep.verify_frame(b"A"), VerifyResult::Okay);
    assert_eq!(rep.verify_frame(b"A"), VerifyResult::Stale);
    assert_eq!(
        rep.verify_frame(b"X"),
        VerifyResult::Failure(rx_history::replay::Hash::of(b"X"), rx_history::replay::Hash::of(b"B"))
    );
    assert_eq!(rep.verify_frame(b"C"), VerifyResult::Okay);
    assert!(rep.expected().is_empty());
    assert_eq!(rep.verify_frame(b"D"), VerifyResult::EOF);
    assert_eq!(rep.verify_frame(b"D"), VerifyResult::Stale);
}

#[test]
fn verify_on_empty_queue_is_eof() {
    let mut rep = ReplayVerifier::new();
    assert_eq!(rep.verify_hash(rx_history::replay::Hash(1)), VerifyResult::EOF);
    assert_eq!(rep.last_verified(), Some(rx_history::replay::Hash(1)));
}
