use g3_verify::envelope::ActionEnvelope;
use g3_verify::rulespec::{Claim, InvariantSource, Predicate, PredicateRule, Rulespec};
use g3_verify::token::{canonical_facts_yaml, mint_token, VERIFICATION_KEY_LEN};
use g3_verify::value::{YamlNumber, YamlValue};

const TOKEN_PREFIX: &str = "g3v1:";

fn from_serde(v: &serde_yaml::Value) -> YamlValue {
    match v {
        serde_yaml::Value::Null => YamlValue::Null,
        serde_yaml::Value::Bool(b) => YamlValue::Bool(*b),
        serde_yaml::Value::Number(n) => {
            if let Some(u) = n.as_u64() {
                YamlValue::Number(YamlNumber::PosInt(u))
            } else if let Some(i) = n.as_i64() {
                YamlValue::Number(YamlNumber::NegInt(i))
            } else {
                YamlValue::Number(YamlNumber::Float(n.to_string()))
            }
        }
        serde_yaml::Value::String(s) => YamlValue::String(s.clone()),
        serde_yaml::Value::Sequence(items) => {
            YamlValue::Sequence(items.iter().map(from_serde).collect())
        }
        serde_yaml::Value::Mapping(m) => {
            YamlValue::Mapping(m.iter().map(|(k, v)| (from_serde(k), from_serde(v))).collect())
        }
        serde_yaml::Value::Tagged(t) => from_serde(&t.value),
    }
}

fn parse_yaml(text: &str) -> YamlValue {
    from_serde(&serde_yaml::from_str::<serde_yaml::Value>(text).unwrap())
}

fn to_serde(v: &YamlValue) -> serde_yaml::Value {
    match v {
        YamlValue::Null => serde_yaml::Value::Null,
        YamlValue::Bool(b) => serde_yaml::Value::Bool(*b),
        YamlValue::Number(YamlNumber::PosInt(u)) => serde_yaml::Value::Number((*u).into()),
        YamlValue::Number(YamlNumber::NegInt(i)) => serde_yaml::Value::Number((*i).into()),
        YamlValue::Number(YamlNumber::Float(t)) => {
            serde_yaml::Value::Number(t.parse::<serde_yaml::Number>().unwrap())
        }
        YamlValue::String(s) => serde_yaml::Value::String(s.clone()),
        YamlValue::Sequence(items) => serde_yaml::Value::Sequence(items.iter().map(to_serde).collect()),
        YamlValue::Mapping(entries) => serde_yaml::Value::Mapping(
            entries.iter().map(|e| (to_serde(&e.0), to_serde(&e.1))).collect(),
        ),
    }
}

fn make_test_key() -> Vec<u8> {
    vec![1u8; VERIFICATION_KEY_LEN]
}

fn make_different_key() -> Vec<u8> {
    vec![2u8; VERIFICATION_KEY_LEN]
}

fn make_test_envelope() -> ActionEnvelope {
    let mut envelope = ActionEnvelope::new();
    envelope.add_fact("feature", parse_yaml("capabilities: [a, b]\nfile: src/foo.rs"));
    envelope
}

fn make_test_rulespec() -> Rulespec {
    let mut rulespec = Rulespec::new();
    rulespec.add_claim(Claim::new("caps", "feature.capabilities"));
    rulespec.add_predicate(Predicate::new("caps", PredicateRule::Exists, InvariantSource::TaskPrompt));
    rulespec
}


#[test]
fn test_mint_token_deterministic() {
        let key = make_test_key();
        let envelope = make_test_envelope();
        let rulespec = make_test_rulespec();

        let token1 = mint_token(&key, &envelope, &rulespec);
        let token2 = mint_token(&key, &envelope, &rulespec);

        assert_eq!(token1, token2, "Same inputs must produce same token");
        assert!(token1.starts_with(TOKEN_PREFIX), "Token must start with g3v1:");
    }

#[test]
fn test_mint_token_different_key() {
        let envelope = make_test_envelope();
        let rulespec = make_test_rulespec();

        let token1 = mint_token(&make_test_key(), &envelope, &rulespec);
        let token2 = mint_token(&make_different_key(), &envelope, &rulespec);

        assert_ne!(token1, token2, "Different keys must produce different tokens");
    }

#[test]
fn test_mint_token_different_facts() {
        let key = make_test_key();
        let rulespec = make_test_rulespec();

        let envelope1 = make_test_envelope();
        let mut envelope2 = make_test_envelope();
        envelope2.add_fact("extra", YamlValue::String("tampered".to_string()));

        let token1 = mint_token(&key, &envelope1, &rulespec);
        let token2 = mint_token(&key, &envelope2, &rulespec);

        assert_ne!(token1, token2, "Different facts must produce different tokens");
    }

#[test]
fn test_mint_token_different_rulespec() {
        let key = make_test_key();
        let envelope = make_test_envelope();

        let rulespec1 = make_test_rulespec();
        let mut rulespec2 = Rulespec::new();
        rulespec2.add_claim(Claim::new("caps", "feature.capabilities"));
        rulespec2.add_predicate(
            Predicate::new("caps", PredicateRule::MinLength, InvariantSource::TaskPrompt)
                .with_value(YamlValue::Number(YamlNumber::PosInt(5))),
        );

        let token1 = mint_token(&key, &envelope, &rulespec1);
        let token2 = mint_token(&key, &envelope, &rulespec2);

        assert_ne!(token1, token2, "Different rulespec must produce different tokens");
    }

#[test]
fn test_mint_token_format() {
        let key = make_test_key();
        let envelope = make_test_envelope();
        let rulespec = make_test_rulespec();

        let token = mint_token(&key, &envelope, &rulespec);

        assert!(token.starts_with("g3v1:"));
        let b64_part = &token[5..];
        // base64 URL-safe no-pad should decode to 8 bytes (u64)
        let decoded = base64::Engine::decode(&base64::engine::general_purpose::URL_SAFE_NO_PAD, b64_part)
            .expect("Token should be valid base64");
        assert_eq!(decoded.len(), 8, "SipHash produces 8 bytes");
    }

#[test]
fn test_fabricated_token_fails() {
        let key = make_test_key();
        let envelope = make_test_envelope();
        let rulespec = make_test_rulespec();

        let real_token = mint_token(&key, &envelope, &rulespec);
        let fake_token = "g3v1:AAAAAAAAAA".to_string();

        assert_ne!(real_token, fake_token, "Fabricated token should not match");
    }

#[test]
fn test_envelope_verified_field_serialization() {
        let mut envelope = make_test_envelope();
        envelope.verified = Some("g3v1:test123".to_string());

        let yaml = envelope.to_yaml();
        assert!(yaml.contains("verified:"), "YAML should contain verified field");
        assert!(yaml.contains("g3v1:test123"), "YAML should contain token value");
    }

#[test]
fn test_envelope_without_verified_field_backward_compat() {
        // Simulate an old envelope YAML without verified field
        let yaml = r#"
            facts:
              feature:
                capabilities: [a, b]
        "#;

        let envelope: ActionEnvelope = ActionEnvelope::from_yaml(yaml).unwrap();
        assert!(envelope.verified.is_none(), "Old envelopes should parse with verified=None");
        assert!(!envelope.facts.is_empty());
    }

#[test]
fn test_envelope_verified_not_in_to_yaml_value() {
        let mut envelope = make_test_envelope();
        envelope.verified = Some("g3v1:test123".to_string());

        let yaml_value = envelope.to_yaml_value();
        let yaml_str = serde_yaml::to_string(&to_serde(&yaml_value)).unwrap();

        assert!(!yaml_str.contains("verified"),
            "to_yaml_value() must not include verified field");
        assert!(!yaml_str.contains("g3v1"),
            "to_yaml_value() must not include token");
    }

#[test]
fn test_envelope_verified_none_not_serialized() {
        let envelope = make_test_envelope();
        assert!(envelope.verified.is_none());

        let yaml = envelope.to_yaml();
        assert!(!yaml.contains("verified"),
            "None verified should not appear in YAML");
    }

#[test]
fn test_canonical_facts_yaml_deterministic() {
        let envelope = make_test_envelope();

        let yaml1 = canonical_facts_yaml(&envelope);
        let yaml2 = canonical_facts_yaml(&envelope);

        assert_eq!(yaml1, yaml2, "Canonical YAML must be deterministic");
    }

#[test]
fn test_canonical_facts_yaml_sorted_keys() {
        let mut envelope = ActionEnvelope::new();
        envelope.add_fact("zebra", YamlValue::String("z".to_string()));
        envelope.add_fact("alpha", YamlValue::String("a".to_string()));
        envelope.add_fact("middle", YamlValue::String("m".to_string()));

        let yaml = canonical_facts_yaml(&envelope);

        let alpha_pos = yaml.find("alpha").unwrap();
        let middle_pos = yaml.find("middle").unwrap();
        let zebra_pos = yaml.find("zebra").unwrap();

        assert!(alpha_pos < middle_pos, "Keys should be sorted");
        assert!(middle_pos < zebra_pos, "Keys should be sorted");
    }
