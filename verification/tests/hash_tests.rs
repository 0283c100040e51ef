use g3_verify::envelope::ActionEnvelope;
use g3_verify::rulespec::{Claim, InvariantSource, Predicate, PredicateRule, Rulespec};
use g3_verify::siphash::{hash, to_le_bytes};
use g3_verify::token::{
    canonical_facts_yaml, canonical_rulespec_yaml, compute_keyed_hash, get_or_create_verification_key,
    mint_token, read_verification_key, same_text,
};
use g3_verify::value::{YamlNumber, YamlValue};
use std::hash::Hasher;

#[allow(deprecated)]
fn reference(k0: u64, k1: u64, message: &[u8]) -> u64 {
    let mut hasher = std::hash::SipHasher::new_with_keys(k0, k1);
    hasher.write(message);
    hasher.finish()
}

#[test]
fn siphash_matches_the_published_vector() {
    let k0 = 0x0706050403020100u64;
    let k1 = 0x0f0e0d0c0b0a0908u64;
    let message: Vec<u8> = (0u8..15).collect();
    assert_eq!(hash(k0, k1, &message), 0xa129ca6149be45e5u64);
}

#[test]
fn siphash_matches_the_standard_library_on_every_length() {
    let message: Vec<u8> = (0u8..=255).cycle().take(600).map(|b| b.wrapping_mul(37).wrapping_add(11)).collect();
    for len in 0..message.len() {
        assert_eq!(
            hash(0x0123456789abcdef, 0xfedcba9876543210, &message[..len]),
            reference(0x0123456789abcdef, 0xfedcba9876543210, &message[..len]),
            "length {}",
            len
        );
    }
    assert_eq!(hash(0, 0, &[]), reference(0, 0, &[]));
}

#[test]
fn bytes_come_lowest_first() {
    assert_eq!(to_le_bytes(0x0102030405060708), vec![8, 7, 6, 5, 4, 3, 2, 1]);
    assert_eq!(to_le_bytes(u64::MAX), vec![255; 8]);
    assert_eq!(to_le_bytes(0), vec![0; 8]);
}

#[test]
fn keyed_hash_takes_the_first_sixteen_bytes_of_the_key() {
    let key: Vec<u8> = (1u8..=32).collect();
    let k0 = u64::from_le_bytes([1, 2, 3, 4, 5, 6, 7, 8]);
    let k1 = u64::from_le_bytes([9, 10, 11, 12, 13, 14, 15, 16]);
    let mut message = b"facts".to_vec();
    message.push(0);
    message.extend_from_slice(b"rules");
    assert_eq!(compute_keyed_hash(&key, "facts", "rules"), reference(k0, k1, &message));
    // bytes past the sixteenth play no part
    let mut longer = key.clone();
    longer[20] = 99;
    assert_eq!(compute_keyed_hash(&longer, "facts", "rules"), compute_keyed_hash(&key, "facts", "rules"));
    // a key that is too short counts as zero
    assert_eq!(compute_keyed_hash(&key[..7], "a", "b"), reference(0, 0, b"a\0b"));
    assert_eq!(compute_keyed_hash(&key[..12], "a", "b"), reference(k0, 0, b"a\0b"));
}

fn sample() -> (ActionEnvelope, Rulespec) {
    let mut envelope = ActionEnvelope::new();
    envelope.add_fact("count", YamlValue::Number(YamlNumber::PosInt(3)));
    envelope.add_fact("name", YamlValue::String("csv".to_string()));
    let mut rulespec = Rulespec::new();
    rulespec.add_claim(Claim::new("count", "count"));
    rulespec.add_predicate(
        Predicate::new("count", PredicateRule::GreaterThan, InvariantSource::Memory)
            .with_value(YamlValue::Number(YamlNumber::PosInt(1)))
            .with_notes("more than one"),
    );
    (envelope, rulespec)
}

#[test]
fn canonical_texts_are_as_the_emitter_writes_them() {
    let (envelope, rulespec) = sample();
    assert_eq!(canonical_facts_yaml(&envelope), "count: 3\nname: csv\n");
    assert_eq!(
        canonical_rulespec_yaml(&rulespec),
        "claims:\n- name: count\n  selector: count\npredicates:\n- claim: count\n  rule: greater_than\n  value: 1\n  source: memory\n  notes: more than one\n"
    );
    assert_eq!(canonical_rulespec_yaml(&Rulespec::new()), "{}\n");
    assert_eq!(canonical_facts_yaml(&ActionEnvelope::new()), "{}\n");
}

#[test]
fn token_is_the_encoded_hash_of_the_canonical_texts() {
    let (envelope, rulespec) = sample();
    let key: Vec<u8> = (100u8..132).collect();
    let k0 = u64::from_le_bytes([100, 101, 102, 103, 104, 105, 106, 107]);
    let k1 = u64::from_le_bytes([108, 109, 110, 111, 112, 113, 114, 115]);
    let mut message = canonical_facts_yaml(&envelope).into_bytes();
    message.push(0);
    message.extend_from_slice(canonical_rulespec_yaml(&rulespec).as_bytes());
    let h = reference(k0, k1, &message);
    let expected = format!(
        "g3v1:{}",
        base64::Engine::encode(&base64::engine::general_purpose::URL_SAFE_NO_PAD, h.to_le_bytes())
    );
    let token = mint_token(&key, &envelope, &rulespec);
    assert_eq!(token, expected);
    assert_eq!(token.len(), 16);
}

#[test]
fn texts_are_compared_in_full() {
    assert!(same_text("g3v1:abc", "g3v1:abc"));
    assert!(!same_text("g3v1:abc", "g3v1:abd"));
    assert!(!same_text("g3v1:abc", "x3v1:abc"));
    assert!(!same_text("g3v1:abc", "g3v1:ab"));
    assert!(same_text("", ""));
}

#[test]
fn only_thirty_two_bytes_are_a_key() {
    assert_eq!(read_verification_key(Some(vec![7; 32])), Some(vec![7; 32]));
    assert_eq!(read_verification_key(Some(vec![7; 31])), None);
    assert_eq!(read_verification_key(Some(vec![7; 33])), None);
    assert_eq!(read_verification_key(None), None);
}

#[test]
fn a_key_is_made_where_none_is_stored() {
    let (kept, created) = get_or_create_verification_key(Some(vec![9; 32]));
    assert_eq!(kept, vec![9; 32]);
    assert!(!created);
    let (fresh, created) = get_or_create_verification_key(None);
    assert_eq!(fresh.len(), 32);
    assert!(created);
    let (again, created) = get_or_create_verification_key(Some(vec![1, 2, 3]));
    assert_eq!(again.len(), 32);
    assert!(created);
    assert_ne!(fresh, again);
}
