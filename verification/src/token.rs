//! The verification stamp: a keyed hash over the canonical facts and the canonical
//! rulespec, minted where every predicate passed and checked again by whoever holds the key.

use vstd::prelude::*;
use vstd::string::StrSliceExecFns;
use vstd::utf8::encode_utf8;
use crate::base64url::{base64url, encode};
use crate::canonical::{canonical_facts, rulespec_document};
use crate::envelope::{ActionEnvelope, EnvelopeView};
use crate::rulespec::{Rulespec, RulespecView};
use crate::siphash::{hash, le_bytes, le_word, read_word, siphash24, to_le_bytes};
use crate::text::{chars_of, push_str, string_of};
use crate::yaml::{emit_yaml, yaml_text};

verus! {

/// Length of a verification key in bytes.
pub const VERIFICATION_KEY_LEN: usize = 32;

/// The word of the key that starts at byte `at`; zero where the key is too short for it.
pub open spec fn key_word(key: Seq<u8>, at: int) -> u64 {
    if key.len() >= at + 8 {
        le_word(key, at, 8)
    } else {
        0
    }
}

/// The bytes that are hashed: the YAML text of the canonical facts, a zero byte, and the
/// YAML text of the rulespec. The stamp of the envelope is no part of them.
pub open spec fn mac_input(e: EnvelopeView, r: RulespecView) -> Seq<u8> {
    encode_utf8(yaml_text(canonical_facts(e.facts))) + seq![0u8] + encode_utf8(
        yaml_text(rulespec_document(r)),
    )
}

/// The keyed hash of an envelope and a rulespec: SipHash-2-4 under the first sixteen bytes
/// of the key.
pub open spec fn mac(key: Seq<u8>, e: EnvelopeView, r: RulespecView) -> u64 {
    siphash24(key_word(key, 0), key_word(key, 8), mac_input(e, r))
}

/// The token for an envelope and a rulespec under a key: `g3v1:` and the eight bytes of
/// the keyed hash, lowest first, in URL-safe base64 without padding.
pub open spec fn token_text(key: Seq<u8>, e: EnvelopeView, r: RulespecView) -> Seq<char> {
    "g3v1:"@ + base64url(le_bytes(mac(key, e, r)))
}

/// The YAML text of the canonical facts of an envelope: the same for the same facts,
/// whatever the order in which they came, and without the stamp.
pub fn canonical_facts_yaml(envelope: &ActionEnvelope) -> (r: String)
    ensures
        r@ == yaml_text(canonical_facts(envelope@.facts)),
{
    emit_yaml(&envelope.canonical_document())
}

/// The YAML text of a rulespec.
pub fn canonical_rulespec_yaml(rulespec: &Rulespec) -> (r: String)
    ensures
        r@ == yaml_text(rulespec_document(rulespec@)),
{
    emit_yaml(&rulespec.to_yaml_value())
}

/// Reads one word of the key.
fn read_key_word(key: &[u8], at: usize) -> (w: u64)
    requires
        at <= 8,
    ensures
        w == key_word(key@, at as int),
{
    if key.len() >= at + 8 {
        read_word(key, at, 8)
    } else {
        0
    }
}

/// The keyed hash of two texts: SipHash-2-4, under the first sixteen bytes of the key, of
/// the first text, a zero byte, and the second text.
pub fn compute_keyed_hash(key: &[u8], facts_yaml: &str, rulespec_yaml: &str) -> (h: u64)
    ensures
        h == siphash24(
            key_word(key@, 0),
            key_word(key@, 8),
            encode_utf8(facts_yaml@) + seq![0u8] + encode_utf8(rulespec_yaml@),
        ),
{
    let mut message = facts_yaml.as_bytes_vec();
    message.push(0u8);
    let mut tail = rulespec_yaml.as_bytes_vec();
    message.append(&mut tail);
    assert(message@ =~= encode_utf8(facts_yaml@) + seq![0u8] + encode_utf8(rulespec_yaml@));
    let k0 = read_key_word(key, 0);
    let k1 = read_key_word(key, 8);
    hash(k0, k1, message.as_slice())
}

/// Mints the verification token for an envelope and a rulespec under a key.
///
/// The token is [`token_text`]: it depends on the key, the facts and the rulespec alone,
/// and not on the stamp that the envelope may carry.
pub fn mint_token(key: &[u8], envelope: &ActionEnvelope, rulespec: &Rulespec) -> (token: String)
    ensures
        token@ == token_text(key@, envelope@, rulespec@),
{
    let facts_yaml = canonical_facts_yaml(envelope);
    let rulespec_yaml = canonical_rulespec_yaml(rulespec);
    let h = compute_keyed_hash(key, facts_yaml.as_str(), rulespec_yaml.as_str());
    let bytes = to_le_bytes(h);
    let encoded = encode(bytes.as_slice());
    let mut out: Vec<char> = Vec::new();
    push_str(&mut out, "g3v1:");
    push_str(&mut out, encoded.as_str());
    assert(out@ =~= token_text(key@, envelope@, rulespec@));
    string_of(&out)
}

/// Minting is repeatable: the same key, the same facts and the same rulespec give the same
/// token, whatever the order in which the facts came.
pub proof fn lemma_token_deterministic(
    key: Seq<u8>,
    e1: EnvelopeView,
    e2: EnvelopeView,
    r: RulespecView,
)
    requires
        crate::assoc::keys_distinct(e1.facts),
        crate::assoc::keys_distinct(e2.facts),
        forall|p: (Seq<char>, crate::value::ValueView)| e1.facts.contains(p) <==> e2.facts.contains(p),
    ensures
        token_text(key, e1, r) == token_text(key, e2, r),
{
    crate::canonical::lemma_canonical_facts_order_free(e1.facts, e2.facts);
}

/// Tokens tell keyed hashes apart: two tokens are the same exactly where the keyed hashes
/// behind them are the same. So a change to key, facts or rulespec changes the token
/// wherever it changes the keyed hash.
pub proof fn lemma_token_follows_mac(
    key1: Seq<u8>,
    e1: EnvelopeView,
    r1: RulespecView,
    key2: Seq<u8>,
    e2: EnvelopeView,
    r2: RulespecView,
)
    ensures
        token_text(key1, e1, r1) == token_text(key2, e2, r2) <==> mac(key1, e1, r1) == mac(
            key2,
            e2,
            r2,
        ),
{
    let a = base64url(le_bytes(mac(key1, e1, r1)));
    let b = base64url(le_bytes(mac(key2, e2, r2)));
    let p = "g3v1:"@;
    if token_text(key1, e1, r1) == token_text(key2, e2, r2) {
        assert((p + a).skip(p.len() as int) =~= a);
        assert((p + b).skip(p.len() as int) =~= b);
        crate::base64url::lemma_base64url_tells_apart(
            le_bytes(mac(key1, e1, r1)),
            le_bytes(mac(key2, e2, r2)),
        );
        crate::siphash::lemma_le_bytes_tell_apart(mac(key1, e1, r1), mac(key2, e2, r2));
    }
}

/// The token does not see the stamp: an envelope gives the same token whatever stands in
/// its `verified` field.
pub proof fn lemma_token_blind_to_stamp(
    key: Seq<u8>,
    e: EnvelopeView,
    r: RulespecView,
    stamp: Option<Seq<char>>,
)
    ensures
        token_text(key, e, r) == token_text(key, EnvelopeView { verified: stamp, ..e }, r),
{
}

/// Why a token cannot be checked.
#[derive(Clone, Copy, Debug, PartialEq, Eq, Structural)]
pub enum VerifyError {
    /// There is no verification key.
    KeyMissing,
    /// The session has no envelope.
    EnvelopeMissing,
    /// The working directory has no rulespec.
    RulespecMissing,
}

/// The text of the message that goes with a verify error.
pub open spec fn verify_error_text(e: VerifyError) -> Seq<char> {
    match e {
        VerifyError::KeyMissing => "Verification key not found at ~/.g3/verification.key"@,
        VerifyError::EnvelopeMissing => "Envelope not found for session"@,
        VerifyError::RulespecMissing => "Rulespec not found at analysis/rulespec.yaml"@,
    }
}

impl VerifyError {
    /// The message that goes with this error.
    pub fn to_string(&self) -> (s: String)
        ensures
            s@ == verify_error_text(*self),
    {
        match self {
            VerifyError::KeyMissing => "Verification key not found at ~/.g3/verification.key".to_string(),
            VerifyError::EnvelopeMissing => "Envelope not found for session".to_string(),
            VerifyError::RulespecMissing => "Rulespec not found at analysis/rulespec.yaml".to_string(),
        }
    }
}

/// What checking a token gives, from what was found of key, envelope and rulespec.
///
/// A missing key is an error, then a missing envelope. An envelope without stamp is not
/// verified. Then a missing rulespec is an error. Else the stamp must be the token of the
/// envelope and the rulespec under the key.
pub open spec fn verify_spec(
    key: Option<Seq<u8>>,
    envelope: Option<EnvelopeView>,
    rulespec: Option<RulespecView>,
) -> Result<bool, VerifyError> {
    if key is None {
        Err(VerifyError::KeyMissing)
    } else if envelope is None {
        Err(VerifyError::EnvelopeMissing)
    } else if envelope->0.verified is None {
        Ok(false)
    } else if rulespec is None {
        Err(VerifyError::RulespecMissing)
    } else {
        Ok(envelope->0.verified->0 == token_text(key->0, envelope->0, rulespec->0))
    }
}

/// Whether two texts are the same. Texts of one length are compared to their end, whatever
/// the first difference.
pub fn same_text(a: &str, b: &str) -> (r: bool)
    ensures
        r == (a@ == b@),
{
    let x = chars_of(a);
    let y = chars_of(b);
    if x.len() != y.len() {
        return false;
    }
    let mut same = true;
    let mut i: usize = 0;
    assert(x@.take(0) =~= y@.take(0));
    while i < x.len()
        invariant
            i <= x.len(),
            x.len() == y.len(),
            same == (x@.take(i as int) == y@.take(i as int)),
        decreases x.len() - i,
    {
        let ghost before = same;
        if x[i] != y[i] {
            same = false;
        }
        proof {
            let xa = x@.take(i + 1);
            let ya = y@.take(i + 1);
            assert(xa.drop_last() =~= x@.take(i as int));
            assert(ya.drop_last() =~= y@.take(i as int));
            if xa == ya {
                assert(xa.last() == ya.last());
                assert(xa.drop_last() == ya.drop_last());
            }
            if before && x@[i as int] == y@[i as int] {
                assert(xa =~= ya);
            }
        }
        i += 1;
    }
    assert(x@.take(i as int) =~= x@);
    assert(y@.take(i as int) =~= y@);
    same
}

/// The view of a key that may be missing.
pub open spec fn key_view(key: Option<Vec<u8>>) -> Option<Seq<u8>> {
    match key {
        Some(k) => Some(k@),
        None => None,
    }
}

/// The view of an envelope that may be missing.
pub open spec fn envelope_view(e: Option<ActionEnvelope>) -> Option<EnvelopeView> {
    match e {
        Some(x) => Some(x@),
        None => None,
    }
}

/// The view of a rulespec that may be missing.
pub open spec fn rulespec_view(r: Option<Rulespec>) -> Option<RulespecView> {
    match r {
        Some(x) => Some(x@),
        None => None,
    }
}

/// Checks the stamp of an envelope against the key and the rulespec, as found by whoever
/// read them.
///
/// Returns what [`verify_spec`] gives: `Ok(true)` exactly where the stamp is the token of
/// the envelope's facts and the rulespec under the key.
pub fn verify_token(
    key: &Option<Vec<u8>>,
    envelope: &Option<ActionEnvelope>,
    rulespec: &Option<Rulespec>,
) -> (r: Result<bool, VerifyError>)
    ensures
        r == verify_spec(key_view(*key), envelope_view(*envelope), rulespec_view(*rulespec)),
{
    let key = match key {
        Some(k) => k,
        None => {
            return Err(VerifyError::KeyMissing);
        },
    };
    let envelope = match envelope {
        Some(e) => e,
        None => {
            return Err(VerifyError::EnvelopeMissing);
        },
    };
    let stored = match &envelope.verified {
        Some(t) => t,
        None => {
            return Ok(false);
        },
    };
    let rulespec = match rulespec {
        Some(r) => r,
        None => {
            return Err(VerifyError::RulespecMissing);
        },
    };
    let expected = mint_token(key.as_slice(), envelope, rulespec);
    Ok(same_text(stored.as_str(), expected.as_str()))
}

/// The envelope with its stamp set to the token of its facts and the rulespec.
pub open spec fn stamped(key: Seq<u8>, e: EnvelopeView, r: RulespecView) -> EnvelopeView {
    EnvelopeView { verified: Some(token_text(key, e, r)), ..e }
}

/// A stamp that was set with a key is found good with the same key, the same facts and the
/// same rulespec, wherever it is checked.
pub proof fn lemma_stamp_verifies(key: Seq<u8>, e: EnvelopeView, r: RulespecView)
    ensures
        verify_spec(Some(key), Some(stamped(key, e, r)), Some(r)) == Ok::<bool, VerifyError>(true),
{
}

/// A stamp is found good only where it is the token of what it is checked against: after
/// an edit to key, facts or rulespec that changes the token, the check fails.
pub proof fn lemma_edit_fails(
    key: Seq<u8>,
    e: EnvelopeView,
    r: RulespecView,
    key2: Seq<u8>,
    e2: EnvelopeView,
    r2: RulespecView,
)
    requires
        e2.verified == Some(token_text(key, e, r)),
        token_text(key2, e2, r2) != token_text(key, e, r),
    ensures
        verify_spec(Some(key2), Some(e2), Some(r2)) == Ok::<bool, VerifyError>(false),
{
}

/// A copy of the envelope with its stamp set to the token of its facts and the rulespec
/// under the key. A stamp that the envelope carried is replaced.
pub fn stamp_envelope(key: &[u8], envelope: &ActionEnvelope, rulespec: &Rulespec) -> (r:
    ActionEnvelope)
    ensures
        r@ == stamped(key@, envelope@, rulespec@),
{
    let token = mint_token(key, envelope, rulespec);
    let mut r = envelope.unstamped();
    r.verified = Some(token);
    r
}

/// Random bytes from the thread-local generator of the `rand` crate, `len` of them.
///
/// Trusted for the length alone: nothing is known of the bytes.
#[verifier::external_body]
fn random_bytes(len: usize) -> (r: Vec<u8>)
    ensures
        r@.len() == len,
{
    let mut bytes = vec![0u8; len];
    rand::Rng::fill(&mut rand::thread_rng(), &mut bytes[..]);
    bytes
}

/// The key that was read, where it is one: a key has exactly 32 bytes.
pub fn read_verification_key(stored: Option<Vec<u8>>) -> (r: Option<Vec<u8>>)
    ensures
        r == match stored {
            Some(k) => if k@.len() == VERIFICATION_KEY_LEN {
                Some(k)
            } else {
                None
            },
            None => None,
        },
{
    match stored {
        Some(k) => if k.len() == VERIFICATION_KEY_LEN {
            Some(k)
        } else {
            None
        },
        None => None,
    }
}

/// The key to use, and whether it is new and has to be stored: the stored bytes where they
/// are a key, else 32 fresh random bytes.
pub fn get_or_create_verification_key(stored: Option<Vec<u8>>) -> (r: (Vec<u8>, bool))
    ensures
        r.0@.len() == VERIFICATION_KEY_LEN,
        r.1 == !(stored is Some && stored->0@.len() == VERIFICATION_KEY_LEN),
        !r.1 ==> r.0 == stored->0,
{
    match read_verification_key(stored) {
        Some(k) => (k, false),
        None => (random_bytes(VERIFICATION_KEY_LEN), true),
    }
}

} // verus!
