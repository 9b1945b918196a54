//! The group cipher: encrypt and decrypt entry points over a pluggable
//! store, and the distribution protocol that bootstraps and rotates the
//! per-sender ratchet.

use crate::consts::MAX_FORWARD_JUMPS;
use crate::crypto::{aes_256_cbc_decrypt, aes_256_cbc_encrypt, cbc_dec, cbc_enc};
use crate::curve::{pub_of_seed, sign_of, signing_public_key, verifies};
use crate::error::SignalProtocolError;
use crate::protocol::{skm_parse, skm_prefix, SenderKeyDistributionMessage,
    SenderKeyDistributionMessageV, SenderKeyMessage};
use crate::sender_keys::{cache_after_walk, cache_push, chain_message_seed, chain_next,
    chain_next_seed, first_index_of_id, lemma_cache_push_lens, lemma_cache_remove_props,
    lemma_first_index_char,
    lemma_walk_cache_props, message_cipher_key, message_iv, resolve_model, seed_at,
    skipped_index_of, skipped_lens, state_wf, ChainKeyV, MessageKeyV, SenderKeyRecord,
    SenderKeyState, SenderKeyStateV, SenderMessageKey};
use crate::storage::{SenderKeyName, SenderKeyStore};
use vstd::prelude::*;

verus! {

/// Resolves the message key for `iteration` against a state, advancing or
/// rewinding the ratchet exactly as `resolve_model` says: derive directly
/// at the current iteration, consume the skipped-key cache below it, or
/// walk forward (within the forward-jump bound) caching the keys of every
/// iteration passed over.
#[verifier::loop_isolation(false)]
pub fn get_sender_key(state: &mut SenderKeyState, iteration: u32) -> (r: Result<
    SenderMessageKey,
    SignalProtocolError,
>)
    requires
        state_wf(old(state)@),
    ensures
        state_wf(final(state)@),
        final(state)@ == resolve_model(old(state)@, iteration).1,
        match r {
            Ok(k) => resolve_model(old(state)@, iteration).0 == Ok::<
                MessageKeyV,
                SignalProtocolError,
            >(k@) && k.wf() && k@.iteration == iteration,
            Err(e) => resolve_model(old(state)@, iteration).0 == Err::<
                MessageKeyV,
                SignalProtocolError,
            >(e),
        },
{
    let cur = state.chain_key.iteration;
    if cur > iteration {
        match state.remove_sender_message_key(iteration) {
            Some(k) => {
                proof {
                    let sk = old(state)@.skipped;
                    let idx = skipped_index_of(sk, iteration);
                    lemma_cache_remove_props(sk, idx, old(state)@.chain.iteration as int);
                    assert(k@.seed.len() == 32);
                }
                Ok(k)
            },
            None => Err(SignalProtocolError::DuplicatedMessage(cur, iteration)),
        }
    } else {
        let jump = (iteration - cur) as usize;
        if jump > MAX_FORWARD_JUMPS {
            return Err(SignalProtocolError::MessageFromTooFarInTheFuture);
        }
        if iteration == u32::MAX {
            return Err(SignalProtocolError::MessageFromTooFarInTheFuture);
        }
        let ghost seed0 = old(state)@.chain.seed;
        let ghost sk0 = old(state)@.skipped;
        let mut chain = state.sender_chain_key();
        while chain.iteration < iteration
            invariant
                chain.wf(),
                cur <= chain@.iteration <= iteration,
                chain@.seed == seed_at(seed0, (chain@.iteration - cur) as nat),
                state@ == (SenderKeyStateV {
                    skipped: cache_after_walk(sk0, seed0, cur, (chain@.iteration - cur) as nat),
                    ..old(state)@
                }),
                skipped_lens(state@.skipped),
            decreases iteration - chain@.iteration,
        {
            let mk = chain.sender_message_key();
            let ghost pre_sk = state@.skipped;
            let ghost n = (chain@.iteration - cur) as nat;
            state.add_sender_message_key(&mk);
            chain = chain.next();
            proof {
                assert(mk@ == (MessageKeyV {
                    iteration: (cur + n) as u32,
                    seed: chain_message_seed(seed_at(seed0, n)),
                }));
                assert(cache_after_walk(sk0, seed0, cur, n + 1) == cache_push(
                    cache_after_walk(sk0, seed0, cur, n),
                    MessageKeyV {
                        iteration: (cur + n) as u32,
                        seed: chain_message_seed(seed_at(seed0, n)),
                    },
                ));
                lemma_cache_push_lens(pre_sk, mk@);
                assert(state@ =~= (SenderKeyStateV {
                    skipped: cache_after_walk(sk0, seed0, cur, n + 1),
                    ..old(state)@
                }));
                assert(chain@.seed == seed_at(seed0, n + 1));
            }
        }
        let mk = chain.sender_message_key();
        state.set_sender_chain_key(chain.next());
        proof {
            let jmp = (iteration - cur) as nat;
            assert(seed_at(seed0, jmp + 1) == chain_next_seed(seed_at(seed0, jmp)));
            lemma_walk_cache_props(sk0, seed0, cur, jmp);
            assert(state@ =~= resolve_model(old(state)@, iteration).1);
            assert(state_wf(state@));
        }
        Ok(mk)
    }
}

/// The outcome of encrypting `plaintext` under the current state of a
/// record: the serialized sender key message and the record afterwards,
/// with the chain advanced by exactly one step.
pub open spec fn encrypt_model(states: Seq<SenderKeyStateV>, plaintext: Seq<u8>) -> Result<
    (Seq<u8>, Seq<SenderKeyStateV>),
    SignalProtocolError,
> {
    if states.len() == 0 {
        Err(SignalProtocolError::NoSenderKeyState)
    } else {
        let st = states[0];
        match st.signing_priv {
            None => Err(SignalProtocolError::SenderKeySigningKeyMissing),
            Some(p) => if st.chain.iteration == u32::MAX {
                Err(SignalProtocolError::MessageFromTooFarInTheFuture)
            } else {
                let mseed = chain_message_seed(st.chain.seed);
                let ct = cbc_enc(message_cipher_key(mseed), message_iv(mseed), plaintext);
                let sig = sign_of(p, skm_prefix(st.key_id, st.chain.iteration, ct));
                Ok(
                    (
                        skm_prefix(st.key_id, st.chain.iteration, ct) + sig,
                        states.update(0, SenderKeyStateV { chain: chain_next(st.chain), ..st }),
                    ),
                )
            },
        }
    }
}

/// Encrypts `plaintext` for the group: derives the message key at the
/// current iteration, signs the serialized message, advances the ratchet
/// one step and persists the record. Persists nothing on any error.
pub fn group_encrypt<S: SenderKeyStore>(
    sender_key_store: &mut S,
    sender_key_id: &SenderKeyName,
    plaintext: &[u8],
) -> (r: Result<Vec<u8>, SignalProtocolError>)
    requires
        old(sender_key_store).inv(),
    ensures
        final(sender_key_store).inv(),
        ({
            let m = old(sender_key_store).records();
            match r {
                Ok(msg) => m.contains_key(sender_key_id@) && (encrypt_model(
                    m[sender_key_id@],
                    plaintext@,
                ) matches Ok(p) && msg@ == p.0 && final(sender_key_store).records() == m.insert(
                    sender_key_id@,
                    p.1,
                )),
                Err(e) => final(sender_key_store).records() == m && (e
                    == SignalProtocolError::StoreFailure || (!m.contains_key(sender_key_id@) && e
                    == SignalProtocolError::InvalidSenderKeyId) || (m.contains_key(sender_key_id@)
                    && encrypt_model(m[sender_key_id@], plaintext@) == Err::<
                    (Seq<u8>, Seq<SenderKeyStateV>),
                    SignalProtocolError,
                >(e))),
            }
        }),
{
    let loaded = match sender_key_store.load_sender_key(sender_key_id) {
        Ok(o) => o,
        Err(e) => {
            return Err(e);
        },
    };
    let mut record = match loaded {
        Some(rec) => rec,
        None => {
            return Err(SignalProtocolError::InvalidSenderKeyId);
        },
    };
    if record.is_empty() {
        return Err(SignalProtocolError::NoSenderKeyState);
    }
    let mut state = record.take_state(0);
    proof {
        assert(state@ == old(sender_key_store).records()[sender_key_id@][0]);
        assert(state_wf(state@));
    }
    let signing_key = match state.signing_key_private() {
        Some(p) => p,
        None => {
            return Err(SignalProtocolError::SenderKeySigningKeyMissing);
        },
    };
    let chain = state.sender_chain_key();
    if chain.iteration() == u32::MAX {
        return Err(SignalProtocolError::MessageFromTooFarInTheFuture);
    }
    let mk = chain.sender_message_key();
    let cipher_key = mk.cipher_key();
    let iv = mk.iv();
    let ciphertext = aes_256_cbc_encrypt(plaintext, cipher_key.as_slice(), iv.as_slice());
    let skm = SenderKeyMessage::new(
        state.sender_key_id(),
        chain.iteration(),
        ciphertext,
        signing_key.as_slice(),
    );
    state.set_sender_chain_key(chain.next());
    let ghost old_rec = old(sender_key_store).records()[sender_key_id@];
    record.put_state(0, state);
    proof {
        assert(record@ =~= old_rec.update(
            0,
            SenderKeyStateV { chain: chain_next(old_rec[0].chain), ..old_rec[0] },
        ));
        assert forall|i: int| 0 <= i < record@.len() implies state_wf(#[trigger] record@[i]) by {
            if i != 0 {
                assert(record@[i] == old_rec[i]);
            }
        }
    }
    let out = skm.serialized();
    proof {
        let p = encrypt_model(old_rec, plaintext@);
        assert(out@ =~= p.unwrap().0);
    }
    match sender_key_store.store_sender_key(sender_key_id, &record) {
        Ok(_) => Ok(out),
        Err(e) => Err(e),
    }
}

/// The outcome of decrypting sender-key-message bytes against a record:
/// the plaintext and the record afterwards, or the error the bytes earn.
/// The signature is checked before any ratchet movement.
pub open spec fn decrypt_model(states: Seq<SenderKeyStateV>, bytes: Seq<u8>) -> Result<
    (Seq<u8>, Seq<SenderKeyStateV>),
    SignalProtocolError,
> {
    match skm_parse(bytes) {
        None => Err(SignalProtocolError::InvalidSenderKeyMessage),
        Some(m) => {
            let j = first_index_of_id(states, m.key_id);
            if j < 0 {
                Err(SignalProtocolError::InvalidSenderKeyId)
            } else {
                let st = states[j];
                if !verifies(
                    st.signing_pub,
                    skm_prefix(m.key_id, m.iteration, m.ciphertext),
                    m.signature,
                ) {
                    Err(SignalProtocolError::SignatureValidationFailed)
                } else {
                    let res = resolve_model(st, m.iteration);
                    match res.0 {
                        Err(e) => Err(e),
                        Ok(k) => match cbc_dec(
                            message_cipher_key(k.seed),
                            message_iv(k.seed),
                            m.ciphertext,
                        ) {
                            None => Err(SignalProtocolError::DecryptionFailed),
                            Some(pt) => Ok((pt, states.update(j, res.1))),
                        },
                    }
                }
            }
        },
    }
}

/// Decrypts sender-key-message bytes for the group: parses, locates the
/// state by key id, verifies the signature, resolves the message key (out
/// of order and within the forward-jump bound), decrypts, and persists the
/// advanced record. Persists nothing on any error.
pub fn group_decrypt<S: SenderKeyStore>(
    skm_bytes: &[u8],
    sender_key_store: &mut S,
    sender_key_id: &SenderKeyName,
) -> (r: Result<Vec<u8>, SignalProtocolError>)
    requires
        old(sender_key_store).inv(),
    ensures
        final(sender_key_store).inv(),
        ({
            let m = old(sender_key_store).records();
            match r {
                Ok(pt) => m.contains_key(sender_key_id@) && (decrypt_model(
                    m[sender_key_id@],
                    skm_bytes@,
                ) matches Ok(p) && pt@ == p.0 && final(sender_key_store).records() == m.insert(
                    sender_key_id@,
                    p.1,
                )),
                Err(e) => final(sender_key_store).records() == m && (e
                    == SignalProtocolError::StoreFailure || (!m.contains_key(sender_key_id@) && e
                    == SignalProtocolError::InvalidSenderKeyId) || (m.contains_key(sender_key_id@)
                    && decrypt_model(m[sender_key_id@], skm_bytes@) == Err::<
                    (Seq<u8>, Seq<SenderKeyStateV>),
                    SignalProtocolError,
                >(e))),
            }
        }),
{
    let loaded = match sender_key_store.load_sender_key(sender_key_id) {
        Ok(o) => o,
        Err(e) => {
            return Err(e);
        },
    };
    let mut record = match loaded {
        Some(rec) => rec,
        None => {
            return Err(SignalProtocolError::InvalidSenderKeyId);
        },
    };
    let skm = match SenderKeyMessage::parse(skm_bytes) {
        Ok(m) => m,
        Err(e) => {
            return Err(e);
        },
    };
    let idx = match record.index_for_key_id(skm.key_id) {
        Some(i) => i,
        None => {
            return Err(SignalProtocolError::InvalidSenderKeyId);
        },
    };
    let ghost old_rec = old(sender_key_store).records()[sender_key_id@];
    proof {
        lemma_first_index_char(old_rec, skm@.key_id);
        assert(0 <= idx < old_rec.len());
    }
    let mut state = record.take_state(idx);
    proof {
        assert(state@ == old_rec[idx as int]);
        assert(state_wf(state@));
    }
    let public_key = state.signing_key_public();
    if !skm.verify_signature(public_key.as_slice()) {
        return Err(SignalProtocolError::SignatureValidationFailed);
    }
    let mk = match get_sender_key(&mut state, skm.iteration) {
        Ok(k) => k,
        Err(e) => {
            return Err(e);
        },
    };
    let cipher_key = mk.cipher_key();
    let iv = mk.iv();
    let plaintext = match aes_256_cbc_decrypt(
        skm.ciphertext.as_slice(),
        cipher_key.as_slice(),
        iv.as_slice(),
    ) {
        Some(p) => p,
        None => {
            return Err(SignalProtocolError::DecryptionFailed);
        },
    };
    record.put_state(idx, state);
    proof {
        assert(record@ =~= old_rec.update(idx as int, resolve_model(old_rec[idx as int], skm@.iteration).1));
        assert forall|i: int| 0 <= i < record@.len() implies state_wf(#[trigger] record@[i]) by {
            if i != idx as int {
                assert(record@[i] == old_rec[i]);
            }
        }
    }
    match sender_key_store.store_sender_key(sender_key_id, &record) {
        Ok(_) => Ok(plaintext),
        Err(e) => Err(e),
    }
}

/// The record after a distribution message has been processed: a new state
/// with the message's id, iteration, chain seed and public key — and no
/// private key — prepended to whatever was there.
pub open spec fn process_model(
    prior: Seq<SenderKeyStateV>,
    m: SenderKeyDistributionMessageV,
) -> Seq<SenderKeyStateV> {
    prior.insert(
        0,
        SenderKeyStateV {
            key_id: m.id,
            chain: ChainKeyV { iteration: m.iteration, seed: m.chain_seed },
            signing_pub: m.signing_key,
            signing_priv: None,
            skipped: Seq::empty(),
        },
    )
}

/// The record a name maps to, or the empty record when the store has none.
pub open spec fn stored_or_empty(
    m: Map<(Seq<u8>, Seq<u8>), Seq<SenderKeyStateV>>,
    name: (Seq<u8>, Seq<u8>),
) -> Seq<SenderKeyStateV> {
    if m.contains_key(name) {
        m[name]
    } else {
        Seq::empty()
    }
}

/// Consumes a distribution message: bootstraps a brand-new sender key or
/// handles rotation (a new id becomes an additional state), and persists.
pub fn process_sender_key_distribution_message<S: SenderKeyStore>(
    sender_key_name: &SenderKeyName,
    skdm: &SenderKeyDistributionMessage,
    sender_key_store: &mut S,
) -> (r: Result<(), SignalProtocolError>)
    requires
        old(sender_key_store).inv(),
        skdm.wf(),
    ensures
        final(sender_key_store).inv(),
        ({
            let m = old(sender_key_store).records();
            match r {
                Ok(_) => final(sender_key_store).records() == m.insert(
                    sender_key_name@,
                    process_model(stored_or_empty(m, sender_key_name@), skdm@),
                ),
                Err(e) => e == SignalProtocolError::StoreFailure && final(sender_key_store).records() == m,
            }
        }),
{
    let loaded = match sender_key_store.load_sender_key(sender_key_name) {
        Ok(o) => o,
        Err(e) => {
            return Err(e);
        },
    };
    let mut record = match loaded {
        Some(rec) => rec,
        None => SenderKeyRecord::new_empty(),
    };
    let ghost prior = record@;
    record.add_sender_key_state(
        skdm.id,
        skdm.iteration,
        skdm.chain_seed.as_slice(),
        skdm.signing_key.as_slice(),
        None,
    );
    proof {
        assert(record@[0].skipped.len() == 0);
        assert(state_wf(record@[0]));
        assert forall|i: int| 0 <= i < record@.len() implies state_wf(#[trigger] record@[i]) by {
            if i != 0 {
                assert(record@[i] == prior[i - 1]);
            }
        }
        assert(record@ =~= process_model(
            stored_or_empty(old(sender_key_store).records(), sender_key_name@),
            skdm@,
        ));
    }
    sender_key_store.store_sender_key(sender_key_name, &record)
}

/// The state a fresh bootstrap creates from the drawn randomness: the id is
/// the entropy word with its top bit cleared (ids are 31-bit), the chain
/// starts at iteration 0, and the device keeps the private signing seed.
pub open spec fn fresh_state_model(
    key_id_entropy: u32,
    chain_seed: Seq<u8>,
    signing_key_seed: Seq<u8>,
) -> SenderKeyStateV {
    SenderKeyStateV {
        key_id: key_id_entropy >> 1,
        chain: ChainKeyV { iteration: 0, seed: chain_seed },
        signing_pub: pub_of_seed(signing_key_seed),
        signing_priv: Some(signing_key_seed),
        skipped: Seq::empty(),
    }
}

/// The distribution message a state emits: its id, its chain key's current
/// iteration and seed, and the public signing key only.
pub open spec fn skdm_of_state(st: SenderKeyStateV) -> SenderKeyDistributionMessageV {
    SenderKeyDistributionMessageV {
        id: st.key_id,
        iteration: st.chain.iteration,
        chain_seed: st.chain.seed,
        signing_key: st.signing_pub,
    }
}

/// Builds the distribution message for a name. On a fresh (or empty)
/// record it first creates and persists a state from the drawn randomness:
/// a 31-bit id, a 32-byte chain seed at iteration 0, and a signing key
/// pair whose private half stays on this device. Either way it emits the
/// current state's id, iteration, seed and public key.
pub fn create_sender_key_distribution_message<S: SenderKeyStore>(
    sender_key_name: &SenderKeyName,
    sender_key_store: &mut S,
    key_id_entropy: u32,
    chain_seed: Vec<u8>,
    signing_key_seed: Vec<u8>,
) -> (r: Result<SenderKeyDistributionMessage, SignalProtocolError>)
    requires
        old(sender_key_store).inv(),
        chain_seed@.len() == 32,
        signing_key_seed@.len() == 32,
    ensures
        final(sender_key_store).inv(),
        ({
            let m = old(sender_key_store).records();
            let prior = stored_or_empty(m, sender_key_name@);
            let fresh = fresh_state_model(key_id_entropy, chain_seed@, signing_key_seed@);
            match r {
                Ok(skdm) => skdm.wf() && (if prior.len() == 0 {
                    skdm@ == skdm_of_state(fresh) && final(sender_key_store).records() == m.insert(
                        sender_key_name@,
                        seq![fresh],
                    )
                } else {
                    skdm@ == skdm_of_state(prior[0]) && final(sender_key_store).records() == m
                }),
                Err(e) => e == SignalProtocolError::StoreFailure && final(sender_key_store).records() == m,
            }
        }),
{
    let loaded = match sender_key_store.load_sender_key(sender_key_name) {
        Ok(o) => o,
        Err(e) => {
            return Err(e);
        },
    };
    let mut record = match loaded {
        Some(rec) => rec,
        None => SenderKeyRecord::new_empty(),
    };
    if record.is_empty() {
        let key_id = key_id_entropy >> 1;
        let public_key = signing_public_key(signing_key_seed.as_slice());
        record.set_sender_key_state(
            key_id,
            0,
            chain_seed.as_slice(),
            public_key.as_slice(),
            Some(signing_key_seed),
        );
        proof {
            assert(record@[0].skipped.len() == 0);
            assert(state_wf(record@[0]));
            assert(record@[0] =~= fresh_state_model(
                key_id_entropy,
                chain_seed@,
                signing_key_seed@,
            ));
        }
        match sender_key_store.store_sender_key(sender_key_name, &record) {
            Ok(_) => {},
            Err(e) => {
                return Err(e);
            },
        }
    }
    proof {
        assert(record@.len() > 0);
        assert(record.states@.len() == record@.len());
    }
    let chain = record.states[0].sender_chain_key();
    let skdm = SenderKeyDistributionMessage::new(
        record.states[0].sender_key_id(),
        chain.iteration(),
        chain.seed(),
        record.states[0].signing_key_public(),
    );
    Ok(skdm)
}

} // verus!
