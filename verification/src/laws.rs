//! The laws the library states of itself, proved over the same models its
//! function contracts use.

use crate::consts::MAX_FORWARD_JUMPS;
use crate::crypto::{cbc_dec, cbc_enc};
use crate::curve::{pub_of_seed, sign_of, verifies};
use crate::error::SignalProtocolError;
use crate::group_cipher::{decrypt_model, encrypt_model, fresh_state_model, process_model,
    skdm_of_state};
use crate::protocol::{lemma_skm_round_trip, skm_bytes, skm_parse, skm_prefix,
    SenderKeyDistributionMessageV, SenderKeyMessageV};
use crate::sender_keys::{chain_message_key, chain_message_seed, chain_next,
    first_index_of_id, lemma_cache_remove_props, lemma_first_index_char, lemma_walk_cache_props,
    message_cipher_key, message_iv, resolve_model, seed_at, skipped_has, skipped_index_of,
    state_wf, ChainKeyV, MessageKeyV, SenderKeyStateV};
use vstd::prelude::*;

verus! {

/// Deriving is deterministic: chain keys with equal seed and iteration
/// derive equal message keys and step to equal next chain keys. (That the
/// step cannot be inverted is a property of the outside MAC, not stated
/// here.)
pub proof fn lemma_message_key_deterministic(c1: ChainKeyV, c2: ChainKeyV)
    requires
        c1.iteration == c2.iteration,
        c1.seed == c2.seed,
    ensures
        chain_message_key(c1) == chain_message_key(c2),
        chain_next(c1) == chain_next(c2),
{
    assert(chain_message_key(c1) =~= chain_message_key(c2));
    assert(chain_next(c1) =~= chain_next(c2));
}

/// A target iteration beyond the forward-jump bound is rejected as a
/// future message, and the state — its chain key iteration in particular —
/// is left unchanged.
pub proof fn lemma_forward_jump_bounded(s: SenderKeyStateV, target: u32)
    requires
        s.chain.iteration + MAX_FORWARD_JUMPS < target,
    ensures
        resolve_model(s, target).0 == Err::<MessageKeyV, SignalProtocolError>(
            SignalProtocolError::MessageFromTooFarInTheFuture,
        ),
        resolve_model(s, target).1 == s,
{
}

/// Replay is rejected: once resolving an iteration has succeeded, resolving
/// the same iteration against the resulting state fails as a duplicate.
pub proof fn lemma_replay_rejected(s: SenderKeyStateV, target: u32)
    requires
        state_wf(s),
        resolve_model(s, target).0 is Ok,
    ensures
        resolve_model(resolve_model(s, target).1, target).0 == Err::<
            MessageKeyV,
            SignalProtocolError,
        >(
            SignalProtocolError::DuplicatedMessage(
                resolve_model(s, target).1.chain.iteration,
                target,
            ),
        ),
{
    let s2 = resolve_model(s, target).1;
    let cur = s.chain.iteration;
    if target < cur {
        let i = skipped_index_of(s.skipped, target);
        lemma_cache_remove_props(s.skipped, i, cur as int);
        if skipped_has(s2.skipped, target) {
            let j = choose|j: int|
                0 <= j < s2.skipped.len() && (#[trigger] s2.skipped[j]).iteration == target;
            assert(s2.skipped[j].iteration != s.skipped[i].iteration);
            assert(false);
        }
    } else {
        let jump = (target - cur) as nat;
        lemma_walk_cache_props(s.skipped, s.chain.seed, cur, jump);
        if skipped_has(s2.skipped, target) {
            let j = choose|j: int|
                0 <= j < s2.skipped.len() && (#[trigger] s2.skipped[j]).iteration == target;
            assert(s2.skipped[j].iteration < cur + jump);
            assert(false);
        }
    }
}

/// Distribution round trip: processing the message a fresh bootstrap emits
/// on a fresh record yields a single state whose id, iteration and public
/// key match the message, and whose private key is absent.
pub proof fn lemma_distribution_round_trip(
    key_id_entropy: u32,
    chain_seed: Seq<u8>,
    signing_key_seed: Seq<u8>,
)
    ensures
        ({
            let fresh = fresh_state_model(key_id_entropy, chain_seed, signing_key_seed);
            let m = skdm_of_state(fresh);
            let states = process_model(Seq::empty(), m);
            &&& states.len() == 1
            &&& states[0].key_id == m.id
            &&& states[0].chain.iteration == m.iteration
            &&& states[0].chain.seed == m.chain_seed
            &&& states[0].signing_pub == m.signing_key
            &&& states[0].signing_priv is None
        }),
{
    let fresh = fresh_state_model(key_id_entropy, chain_seed, signing_key_seed);
    let m = skdm_of_state(fresh);
    let states = process_model(Seq::empty(), m);
    assert(states.len() == 1);
    assert(states[0] == (SenderKeyStateV {
        key_id: m.id,
        chain: ChainKeyV { iteration: m.iteration, seed: m.chain_seed },
        signing_pub: m.signing_key,
        signing_priv: None,
        skipped: Seq::empty(),
    }));
}

/// Rotation keeps old epochs decryptable: after a distribution message
/// with a new id is processed, any message bearing a different key id
/// decrypts exactly as it did before, against the same prior state.
pub proof fn lemma_rotation_preserves_old_states(
    states: Seq<SenderKeyStateV>,
    m: SenderKeyDistributionMessageV,
    bytes: Seq<u8>,
)
    requires
        skm_parse(bytes) matches Some(sm) && sm.key_id != m.id,
    ensures
        ({
            let states2 = process_model(states, m);
            &&& (decrypt_model(states, bytes) matches Ok(p) ==> decrypt_model(states2, bytes)
                matches Ok(p2) && p2.0 == p.0 && p2.1 == process_model(p.1, m))
            &&& (decrypt_model(states, bytes) matches Err(e) ==> decrypt_model(states2, bytes)
                == Err::<(Seq<u8>, Seq<SenderKeyStateV>), SignalProtocolError>(e))
        }),
{
    let sm = skm_parse(bytes)->0;
    let states2 = process_model(states, m);
    assert(states2[0].key_id == m.id);
    assert(states2.drop_first() =~= states);
    let f = first_index_of_id(states, sm.key_id);
    let f2 = first_index_of_id(states2, sm.key_id);
    assert(f2 == if f < 0 {
        -1int
    } else {
        f + 1
    });
    if f >= 0 {
        lemma_first_index_char(states, sm.key_id);
        assert(states2[f2] == states[f]);
        let res = resolve_model(states[f], sm.iteration);
        if res.0 is Ok {
            match cbc_dec(
                message_cipher_key(res.0->Ok_0.seed),
                message_iv(res.0->Ok_0.seed),
                sm.ciphertext,
            ) {
                Some(pt) => {
                    assert(states2.update(f2, res.1) =~= process_model(
                        states.update(f, res.1),
                        m,
                    ));
                },
                None => {},
            }
        }
    }
}

/// The collaborator guarantees the encrypt/decrypt round trip rests on,
/// for one message: the cipher recovers this plaintext from its own
/// ciphertext, and the signature this seed puts on this prefix is 64 bytes
/// and verifies under the seed's public key. The trusted wrappers
/// establish all three for every message the cipher actually produces.
pub open spec fn collaborators_ok(st: SenderKeyStateV, plaintext: Seq<u8>) -> bool {
    match st.signing_priv {
        None => false,
        Some(p) => {
            let mseed = chain_message_seed(st.chain.seed);
            let ct = cbc_enc(message_cipher_key(mseed), message_iv(mseed), plaintext);
            let prefix = skm_prefix(st.key_id, st.chain.iteration, ct);
            &&& cbc_dec(message_cipher_key(mseed), message_iv(mseed), ct) == Some(plaintext)
            &&& sign_of(p, prefix).len() == 64
            &&& verifies(pub_of_seed(p), prefix, sign_of(p, prefix))
        },
    }
}

/// Round trip: what the sender's current state encrypts, a recipient
/// record holding a matching state — same id, same chain key, and the
/// public key belonging to the sender's signing seed — decrypts back to
/// the original plaintext, for plaintexts of any length.
pub proof fn lemma_encrypt_decrypt_round_trip(
    sender: Seq<SenderKeyStateV>,
    recipient: Seq<SenderKeyStateV>,
    j: int,
    plaintext: Seq<u8>,
)
    requires
        sender.len() > 0,
        sender[0].chain.iteration < u32::MAX,
        0 <= j < recipient.len(),
        recipient[j].key_id == sender[0].key_id,
        forall|i: int| 0 <= i < j ==> (#[trigger] recipient[i]).key_id != sender[0].key_id,
        recipient[j].chain == sender[0].chain,
        sender[0].signing_priv matches Some(p) && recipient[j].signing_pub == pub_of_seed(p),
        collaborators_ok(sender[0], plaintext),
    ensures
        encrypt_model(sender, plaintext) is Ok,
        decrypt_model(recipient, encrypt_model(sender, plaintext)->Ok_0.0) is Ok,
        decrypt_model(recipient, encrypt_model(sender, plaintext)->Ok_0.0)->Ok_0.0 == plaintext,
{
    let st = sender[0];
    let p = st.signing_priv->0;
    let mseed = chain_message_seed(st.chain.seed);
    let ct = cbc_enc(message_cipher_key(mseed), message_iv(mseed), plaintext);
    let prefix = skm_prefix(st.key_id, st.chain.iteration, ct);
    let sig = sign_of(p, prefix);
    let out = encrypt_model(sender, plaintext)->Ok_0.0;
    assert(out == prefix + sig);
    let mv = SenderKeyMessageV {
        key_id: st.key_id,
        iteration: st.chain.iteration,
        ciphertext: ct,
        signature: sig,
    };
    assert(skm_bytes(mv) =~= out);
    lemma_skm_round_trip(mv);
    assert(skm_parse(out) == Some(mv));
    lemma_first_index_char(recipient, st.key_id);
    let f = first_index_of_id(recipient, st.key_id);
    assert(f >= 0);
    if f < j {
        assert(recipient[f].key_id != st.key_id);
    }
    if f > j {
        assert(recipient[j].key_id != st.key_id);
    }
    assert(f == j);
    assert(verifies(recipient[j].signing_pub, prefix, sig));
    let target = st.chain.iteration;
    let res = resolve_model(recipient[j], target);
    assert(seed_at(recipient[j].chain.seed, 0) == recipient[j].chain.seed);
    assert(res.0 == Ok::<MessageKeyV, SignalProtocolError>(
        MessageKeyV { iteration: target, seed: mseed },
    ));
    assert(cbc_dec(message_cipher_key(mseed), message_iv(mseed), ct) == Some(plaintext));
}

} // verus!

