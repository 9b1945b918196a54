use sender_keys::protocol::{SenderKeyDistributionMessage, SenderKeyMessage};
use sender_keys::sender_keys::SenderChainKey;

#[test]
fn sender_key_message_wire_round_trip() {
    let m = SenderKeyMessage::new(0x0102_0304, 77, vec![0xaa, 0xbb, 0xcc], &[5u8; 32]);
    let bytes = m.serialized();
    assert_eq!(bytes.len(), 8 + 3 + 64);
    let p = SenderKeyMessage::parse(&bytes).unwrap();
    assert_eq!(p.key_id, 0x0102_0304);
    assert_eq!(p.iteration, 77);
    assert_eq!(p.ciphertext, vec![0xaa, 0xbb, 0xcc]);
    assert_eq!(p.signature, m.signature);
}

#[test]
fn sender_key_message_parse_rejects_short_input() {
    assert!(SenderKeyMessage::parse(&[0u8; 71]).is_err());
    assert!(SenderKeyMessage::parse(&[]).is_err());
    assert!(SenderKeyMessage::parse(&[0u8; 72]).is_ok());
}

#[test]
fn distribution_message_wire_round_trip() {
    let m = SenderKeyDistributionMessage::new(0x7fff_ffff, 42, [3u8; 32].to_vec(), [4u8; 32].to_vec());
    let bytes = m.serialized();
    assert_eq!(bytes.len(), 72);
    let p = SenderKeyDistributionMessage::parse(&bytes).unwrap();
    assert_eq!(p.id(), 0x7fff_ffff);
    assert_eq!(p.iteration(), 42);
    assert_eq!(p.chain_key(), [3u8; 32].to_vec());
    assert_eq!(p.signing_key(), [4u8; 32].to_vec());
}

#[test]
fn distribution_message_parse_rejects_wrong_length() {
    assert!(SenderKeyDistributionMessage::parse(&[0u8; 71]).is_err());
    assert!(SenderKeyDistributionMessage::parse(&[0u8; 73]).is_err());
    assert!(SenderKeyDistributionMessage::parse(&[0u8; 72]).is_ok());
}

#[test]
fn chain_step_replaces_the_seed() {
    let c0 = SenderChainKey::new(0, [11u8; 32].to_vec());
    let c1 = c0.next();
    assert_eq!(c1.iteration(), 1);
    assert_eq!(c1.seed().len(), 32);
    assert_ne!(c1.seed(), c0.seed());
}

#[test]
fn message_key_derivation_is_deterministic_and_does_not_advance() {
    let c = SenderChainKey::new(9, [13u8; 32].to_vec());
    let k1 = c.sender_message_key();
    let k2 = c.sender_message_key();
    assert_eq!(k1.iteration(), 9);
    assert_eq!(k2.iteration(), 9);
    assert_eq!(k1.cipher_key(), k2.cipher_key());
    assert_eq!(k1.iv(), k2.iv());
    assert_eq!(c.iteration(), 9);
    assert_ne!(k1.cipher_key(), c.seed());
    assert_eq!(k1.cipher_key().len(), 32);
    assert_eq!(k1.iv().len(), 16);
}
