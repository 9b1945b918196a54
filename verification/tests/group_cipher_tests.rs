use sender_keys::error::SignalProtocolError;
use sender_keys::group_cipher::{
    create_sender_key_distribution_message, group_decrypt, group_encrypt,
    process_sender_key_distribution_message,
};
use sender_keys::protocol::{SenderKeyDistributionMessage, SenderKeyMessage};
use sender_keys::sender_keys::SenderKeyRecord;
use sender_keys::storage::{InMemSenderKeyStore, SenderKeyName, SenderKeyStore};
use rand::Rng;

fn alice_name() -> SenderKeyName {
    SenderKeyName::new(b"distant stars".to_vec(), b"alice".to_vec())
}

const CHAIN_SEED: [u8; 32] = [7u8; 32];
const SIGNING_SEED: [u8; 32] = [9u8; 32];
const KEY_ID_ENTROPY: u32 = 0x5566_7788;

/// Alice bootstraps a sender key; Bob processes the distribution message.
fn setup() -> (InMemSenderKeyStore, InMemSenderKeyStore, SenderKeyDistributionMessage) {
    let mut alice = InMemSenderKeyStore::new();
    let mut bob = InMemSenderKeyStore::new();
    let skdm = create_sender_key_distribution_message(
        &alice_name(),
        &mut alice,
        KEY_ID_ENTROPY,
        CHAIN_SEED.to_vec(),
        SIGNING_SEED.to_vec(),
    )
    .unwrap();
    process_sender_key_distribution_message(&alice_name(), &skdm, &mut bob).unwrap();
    (alice, bob, skdm)
}

#[test]
fn round_trip_nonempty_plaintext() {
    let (mut alice, mut bob, _) = setup();
    let msg = group_encrypt(&mut alice, &alice_name(), b"space probe alpha").unwrap();
    let pt = group_decrypt(&msg, &mut bob, &alice_name()).unwrap();
    assert_eq!(pt, b"space probe alpha".to_vec());
}

#[test]
fn round_trip_empty_plaintext() {
    let (mut alice, mut bob, _) = setup();
    let msg = group_encrypt(&mut alice, &alice_name(), b"").unwrap();
    let pt = group_decrypt(&msg, &mut bob, &alice_name()).unwrap();
    assert_eq!(pt, Vec::<u8>::new());
}

#[test]
fn round_trip_with_random_seeds() {
    let mut rng = rand::thread_rng();
    let chain: [u8; 32] = rng.gen();
    let signing: [u8; 32] = rng.gen();
    let entropy: u32 = rng.gen();
    let mut alice = InMemSenderKeyStore::new();
    let mut bob = InMemSenderKeyStore::new();
    let skdm = create_sender_key_distribution_message(
        &alice_name(),
        &mut alice,
        entropy,
        chain.to_vec(),
        signing.to_vec(),
    )
    .unwrap();
    process_sender_key_distribution_message(&alice_name(), &skdm, &mut bob).unwrap();
    let msg = group_encrypt(&mut alice, &alice_name(), b"randomly seeded").unwrap();
    assert_eq!(
        group_decrypt(&msg, &mut bob, &alice_name()).unwrap(),
        b"randomly seeded".to_vec()
    );
}

#[test]
fn encryption_is_deterministic_in_the_state() {
    let (mut alice1, _, _) = setup();
    let (mut alice2, _, _) = setup();
    let m1 = group_encrypt(&mut alice1, &alice_name(), b"same message").unwrap();
    let m2 = group_encrypt(&mut alice2, &alice_name(), b"same message").unwrap();
    assert_eq!(m1, m2);
}

#[test]
fn ratchet_advances_every_encryption() {
    let (mut alice, _, _) = setup();
    let m1 = group_encrypt(&mut alice, &alice_name(), b"same message").unwrap();
    let m2 = group_encrypt(&mut alice, &alice_name(), b"same message").unwrap();
    assert_ne!(m1, m2);
    let p1 = SenderKeyMessage::parse(&m1).unwrap();
    let p2 = SenderKeyMessage::parse(&m2).unwrap();
    assert_eq!(p1.iteration, 0);
    assert_eq!(p2.iteration, 1);
    assert_ne!(p1.ciphertext, p2.ciphertext);
}

#[test]
fn ciphertext_is_not_the_plaintext() {
    let (mut alice, _, _) = setup();
    let msg = group_encrypt(&mut alice, &alice_name(), b"not echoed back").unwrap();
    let parsed = SenderKeyMessage::parse(&msg).unwrap();
    assert_ne!(parsed.ciphertext, b"not echoed back".to_vec());
    assert!(parsed.ciphertext.len() % 16 == 0);
    assert!(parsed.ciphertext.len() > b"not echoed back".len());
    assert_eq!(parsed.signature.len(), 64);
}

#[test]
fn out_of_order_delivery() {
    let (mut alice, mut bob, _) = setup();
    let m0 = group_encrypt(&mut alice, &alice_name(), b"iteration zero").unwrap();
    let m1 = group_encrypt(&mut alice, &alice_name(), b"iteration one").unwrap();
    let m2 = group_encrypt(&mut alice, &alice_name(), b"iteration two").unwrap();
    assert_eq!(
        group_decrypt(&m2, &mut bob, &alice_name()).unwrap(),
        b"iteration two".to_vec()
    );
    assert_eq!(
        group_decrypt(&m0, &mut bob, &alice_name()).unwrap(),
        b"iteration zero".to_vec()
    );
    assert_eq!(
        group_decrypt(&m1, &mut bob, &alice_name()).unwrap(),
        b"iteration one".to_vec()
    );
}

#[test]
fn replay_of_a_cached_iteration_fails() {
    let (mut alice, mut bob, _) = setup();
    let m0 = group_encrypt(&mut alice, &alice_name(), b"first").unwrap();
    let m1 = group_encrypt(&mut alice, &alice_name(), b"second").unwrap();
    // Decrypting m1 first caches the key for iteration 0.
    group_decrypt(&m1, &mut bob, &alice_name()).unwrap();
    group_decrypt(&m0, &mut bob, &alice_name()).unwrap();
    let err = group_decrypt(&m0, &mut bob, &alice_name()).unwrap_err();
    assert!(matches!(err, SignalProtocolError::DuplicatedMessage(2, 0)));
}

#[test]
fn replay_of_the_current_iteration_fails() {
    let (mut alice, mut bob, _) = setup();
    let m0 = group_encrypt(&mut alice, &alice_name(), b"only once").unwrap();
    group_decrypt(&m0, &mut bob, &alice_name()).unwrap();
    // The advanced record was persisted.
    let record = bob.load_sender_key(&alice_name()).unwrap().unwrap();
    assert_eq!(record.states[0].chain_key.iteration, 1);
    let err = group_decrypt(&m0, &mut bob, &alice_name()).unwrap_err();
    assert!(matches!(err, SignalProtocolError::DuplicatedMessage(1, 0)));
}

#[test]
fn skipped_key_cache_evicts_oldest_beyond_capacity() {
    let (mut alice, mut bob, _) = setup();
    // 2006 messages; decrypting the last walks the chain across 2005
    // skipped iterations, of which only the newest 2000 stay cached.
    let mut msgs = Vec::new();
    for i in 0..2006u32 {
        msgs.push(group_encrypt(&mut alice, &alice_name(), format!("nr {i}").as_bytes()).unwrap());
    }
    assert_eq!(
        group_decrypt(&msgs[2005], &mut bob, &alice_name()).unwrap(),
        b"nr 2005".to_vec()
    );
    // Iteration 4 was evicted (oldest-first), iteration 5 is still cached.
    let err = group_decrypt(&msgs[4], &mut bob, &alice_name()).unwrap_err();
    assert!(matches!(err, SignalProtocolError::DuplicatedMessage(2006, 4)));
    assert_eq!(
        group_decrypt(&msgs[5], &mut bob, &alice_name()).unwrap(),
        b"nr 5".to_vec()
    );
}

#[test]
fn forward_jump_beyond_the_bound_fails_and_preserves_state() {
    let (mut alice, mut bob, skdm) = setup();
    // A validly signed message claiming an iteration beyond the bound.
    let future = SenderKeyMessage::new(skdm.id(), 25001, vec![0u8; 16], &SIGNING_SEED);
    let err = group_decrypt(&future.serialized(), &mut bob, &alice_name()).unwrap_err();
    assert!(matches!(
        err,
        SignalProtocolError::MessageFromTooFarInTheFuture
    ));
    // The chain key iteration is unchanged: the genuine message at
    // iteration 0 still decrypts directly.
    let m0 = group_encrypt(&mut alice, &alice_name(), b"still at zero").unwrap();
    assert_eq!(
        group_decrypt(&m0, &mut bob, &alice_name()).unwrap(),
        b"still at zero".to_vec()
    );
}

#[test]
fn forward_jump_within_the_bound_succeeds() {
    let (mut alice, mut bob, _) = setup();
    for _ in 0..5 {
        group_encrypt(&mut alice, &alice_name(), b"skipped").unwrap();
    }
    let m5 = group_encrypt(&mut alice, &alice_name(), b"the sixth").unwrap();
    assert_eq!(
        group_decrypt(&m5, &mut bob, &alice_name()).unwrap(),
        b"the sixth".to_vec()
    );
}

#[test]
fn tampering_with_any_bit_is_detected() {
    let (mut alice, mut bob, _) = setup();
    let msg = group_encrypt(&mut alice, &alice_name(), b"integrity").unwrap();
    for i in 0..msg.len() {
        for bit in 0..8 {
            let mut tampered = msg.clone();
            tampered[i] ^= 1u8 << bit;
            assert!(group_decrypt(&tampered, &mut bob, &alice_name()).is_err());
        }
    }
    // The untampered message still decrypts: no state was burned.
    assert_eq!(
        group_decrypt(&msg, &mut bob, &alice_name()).unwrap(),
        b"integrity".to_vec()
    );
}

#[test]
fn flipped_signature_fails_signature_validation() {
    let (mut alice, mut bob, _) = setup();
    let mut msg = group_encrypt(&mut alice, &alice_name(), b"signed").unwrap();
    let last = msg.len() - 1;
    msg[last] ^= 0x01;
    let err = group_decrypt(&msg, &mut bob, &alice_name()).unwrap_err();
    assert!(matches!(err, SignalProtocolError::SignatureValidationFailed));
}

#[test]
fn distribution_round_trip_matches_emitted_state() {
    let (_, bob, skdm) = setup();
    let record = bob.load_sender_key(&alice_name()).unwrap().unwrap();
    assert_eq!(record.states.len(), 1);
    let state = &record.states[0];
    assert_eq!(state.key_id, skdm.id());
    assert_eq!(state.key_id, KEY_ID_ENTROPY >> 1);
    assert_eq!(state.chain_key.iteration, skdm.iteration());
    assert_eq!(state.chain_key.iteration, 0);
    assert_eq!(state.chain_key.seed, skdm.chain_key());
    assert_eq!(state.signing_key_public, skdm.signing_key());
    assert!(state.signing_key_private.is_none());
}

#[test]
fn create_on_an_existing_record_reuses_the_state() {
    let (mut alice, _, skdm) = setup();
    group_encrypt(&mut alice, &alice_name(), b"advance once").unwrap();
    let skdm2 = create_sender_key_distribution_message(
        &alice_name(),
        &mut alice,
        0xdead_beef,
        [1u8; 32].to_vec(),
        [2u8; 32].to_vec(),
    )
    .unwrap();
    assert_eq!(skdm2.id(), skdm.id());
    assert_eq!(skdm2.iteration(), 1);
    assert_eq!(skdm2.signing_key(), skdm.signing_key());
    assert_ne!(skdm2.chain_key(), skdm.chain_key());
}

#[test]
fn rotation_keeps_the_prior_epoch_decryptable() {
    let (mut alice, mut bob, skdm) = setup();
    let m0 = group_encrypt(&mut alice, &alice_name(), b"under the old id").unwrap();
    // A rotation: a fresh distribution message with a new id and new keys.
    let mut scratch = InMemSenderKeyStore::new();
    let skdm2 = create_sender_key_distribution_message(
        &alice_name(),
        &mut scratch,
        0x0101_0101,
        [1u8; 32].to_vec(),
        [2u8; 32].to_vec(),
    )
    .unwrap();
    assert_ne!(skdm2.id(), skdm.id());
    process_sender_key_distribution_message(&alice_name(), &skdm2, &mut bob).unwrap();
    let record = bob.load_sender_key(&alice_name()).unwrap().unwrap();
    assert_eq!(record.states.len(), 2);
    assert_eq!(
        group_decrypt(&m0, &mut bob, &alice_name()).unwrap(),
        b"under the old id".to_vec()
    );
}

#[test]
fn signing_public_key_is_not_the_seed() {
    let (_, _, skdm) = setup();
    assert_eq!(skdm.signing_key().len(), 32);
    assert_ne!(skdm.signing_key(), SIGNING_SEED.to_vec());
}

#[test]
fn encrypt_without_a_record_fails() {
    let mut store = InMemSenderKeyStore::new();
    let err = group_encrypt(&mut store, &alice_name(), b"nobody home").unwrap_err();
    assert!(matches!(err, SignalProtocolError::InvalidSenderKeyId));
}

#[test]
fn encrypt_on_an_empty_record_fails() {
    let mut store = InMemSenderKeyStore::new();
    let empty = SenderKeyRecord::new_empty();
    store.store_sender_key(&alice_name(), &empty).unwrap();
    let err = group_encrypt(&mut store, &alice_name(), b"no states").unwrap_err();
    assert!(matches!(err, SignalProtocolError::NoSenderKeyState));
}

#[test]
fn encrypt_without_the_private_key_fails() {
    let (_, mut bob, _) = setup();
    // Bob only processed a distribution message: he can verify, not sign.
    let err = group_encrypt(&mut bob, &alice_name(), b"not the originator").unwrap_err();
    assert!(matches!(err, SignalProtocolError::SenderKeySigningKeyMissing));
}

#[test]
fn decrypt_without_a_record_fails() {
    let (mut alice, _, _) = setup();
    let msg = group_encrypt(&mut alice, &alice_name(), b"to nowhere").unwrap();
    let mut store = InMemSenderKeyStore::new();
    let err = group_decrypt(&msg, &mut store, &alice_name()).unwrap_err();
    assert!(matches!(err, SignalProtocolError::InvalidSenderKeyId));
}

#[test]
fn decrypt_with_an_unknown_key_id_fails() {
    let (_, mut bob, skdm) = setup();
    let other = SenderKeyMessage::new(skdm.id().wrapping_add(1), 0, vec![0u8; 16], &SIGNING_SEED);
    let err = group_decrypt(&other.serialized(), &mut bob, &alice_name()).unwrap_err();
    assert!(matches!(err, SignalProtocolError::InvalidSenderKeyId));
}

#[test]
fn decrypt_of_short_bytes_fails_to_parse() {
    let (_, mut bob, _) = setup();
    let err = group_decrypt(b"short", &mut bob, &alice_name()).unwrap_err();
    assert!(matches!(err, SignalProtocolError::InvalidSenderKeyMessage));
}

#[test]
fn decrypt_of_a_partial_block_ciphertext_fails() {
    let (_, mut bob, skdm) = setup();
    // Validly signed, but 15 bytes is no whole cipher block.
    let ragged = SenderKeyMessage::new(skdm.id(), 0, vec![0u8; 15], &SIGNING_SEED);
    let err = group_decrypt(&ragged.serialized(), &mut bob, &alice_name()).unwrap_err();
    assert!(matches!(err, SignalProtocolError::DecryptionFailed));
}

#[test]
fn decrypt_of_an_unpaddable_ciphertext_fails() {
    let (_, mut bob, skdm) = setup();
    // Validly signed, but the ciphertext is empty: the block cipher has
    // nothing to unpad.
    let hollow = SenderKeyMessage::new(skdm.id(), 0, vec![], &SIGNING_SEED);
    let err = group_decrypt(&hollow.serialized(), &mut bob, &alice_name()).unwrap_err();
    assert!(matches!(err, SignalProtocolError::DecryptionFailed));
}
