//! The two wire artifacts: the signed sender key message and the
//! distribution message that seeds a ratchet on a recipient's device.
//! Both serialize to bytes and parse back, byte-exactly.

use crate::bytes::{append_bytes, be32, be32_val, copy_bytes, lemma_be32_round_trip, push_be32,
    read_be32, sub_bytes};
use crate::curve::{pub_of_seed, sign, sign_of, verifies, verify_signature};
use crate::error::SignalProtocolError;
use vstd::prelude::*;

verus! {

/// Model of a sender key message.
#[verifier::ext_equal]
pub struct SenderKeyMessageV {
    pub key_id: u32,
    pub iteration: u32,
    pub ciphertext: Seq<u8>,
    pub signature: Seq<u8>,
}

/// The signed portion: key id, iteration and ciphertext.
pub open spec fn skm_prefix(key_id: u32, iteration: u32, ciphertext: Seq<u8>) -> Seq<u8> {
    be32(key_id) + be32(iteration) + ciphertext
}

/// The full serialization: the signed prefix followed by the 64-byte
/// signature.
pub open spec fn skm_bytes(m: SenderKeyMessageV) -> Seq<u8> {
    skm_prefix(m.key_id, m.iteration, m.ciphertext) + m.signature
}

/// What a byte string parses to: `None` when it is too short to hold the
/// two counters and a signature.
pub open spec fn skm_parse(b: Seq<u8>) -> Option<SenderKeyMessageV> {
    if b.len() < 72 {
        None
    } else {
        Some(
            SenderKeyMessageV {
                key_id: be32_val(b.subrange(0, 4)),
                iteration: be32_val(b.subrange(4, 8)),
                ciphertext: b.subrange(8, b.len() - 64),
                signature: b.subrange(b.len() - 64, b.len() as int),
            },
        )
    }
}

/// Parsing inverts serialization for any message with a 64-byte signature.
pub proof fn lemma_skm_round_trip(m: SenderKeyMessageV)
    requires
        m.signature.len() == 64,
    ensures
        skm_parse(skm_bytes(m)) == Some(m),
{
    let b = skm_bytes(m);
    assert(b.len() == 8 + m.ciphertext.len() + 64);
    assert(b.subrange(0, 4) =~= be32(m.key_id));
    assert(b.subrange(4, 8) =~= be32(m.iteration));
    assert(b.subrange(8, b.len() - 64) =~= m.ciphertext);
    assert(b.subrange(b.len() - 64, b.len() as int) =~= m.signature);
    lemma_be32_round_trip(m.key_id);
    lemma_be32_round_trip(m.iteration);
    assert(skm_parse(b) matches Some(p) && p =~= m);
}

/// A sender key message: ciphertext under one iteration's message key,
/// authenticated by the sender's signature over the serialized prefix.
pub struct SenderKeyMessage {
    pub key_id: u32,
    pub iteration: u32,
    pub ciphertext: Vec<u8>,
    pub signature: Vec<u8>,
}

impl View for SenderKeyMessage {
    type V = SenderKeyMessageV;

    open spec fn view(&self) -> SenderKeyMessageV {
        SenderKeyMessageV {
            key_id: self.key_id,
            iteration: self.iteration,
            ciphertext: self.ciphertext@,
            signature: self.signature@,
        }
    }
}

/// The serialized prefix a signature covers.
pub fn serialize_prefix(key_id: u32, iteration: u32, ciphertext: &[u8]) -> (r: Vec<u8>)
    ensures
        r@ == skm_prefix(key_id, iteration, ciphertext@),
{
    let mut r: Vec<u8> = Vec::new();
    push_be32(&mut r, key_id);
    push_be32(&mut r, iteration);
    append_bytes(&mut r, ciphertext);
    proof {
        assert(r@ =~= skm_prefix(key_id, iteration, ciphertext@));
    }
    r
}

impl SenderKeyMessage {
    pub open spec fn wf(&self) -> bool {
        self.signature@.len() == 64
    }

    /// Builds and signs a message with the given signing seed.
    pub fn new(key_id: u32, iteration: u32, ciphertext: Vec<u8>, signing_key_seed: &[u8]) -> (r:
        Self)
        requires
            signing_key_seed@.len() == 32,
        ensures
            r@ == (SenderKeyMessageV {
                key_id,
                iteration,
                ciphertext: ciphertext@,
                signature: sign_of(
                    signing_key_seed@,
                    skm_prefix(key_id, iteration, ciphertext@),
                ),
            }),
            verifies(
                pub_of_seed(signing_key_seed@),
                skm_prefix(key_id, iteration, ciphertext@),
                r@.signature,
            ),
            r.wf(),
    {
        let prefix = serialize_prefix(key_id, iteration, ciphertext.as_slice());
        let signature = sign(signing_key_seed, prefix.as_slice());
        SenderKeyMessage { key_id, iteration, ciphertext, signature }
    }

    /// The full wire bytes.
    pub fn serialized(&self) -> (r: Vec<u8>)
        ensures
            r@ == skm_bytes(self@),
    {
        let mut r = serialize_prefix(self.key_id, self.iteration, self.ciphertext.as_slice());
        append_bytes(&mut r, self.signature.as_slice());
        r
    }

    /// Parses wire bytes; fails exactly where the bytes are too short.
    pub fn parse(bytes: &[u8]) -> (r: Result<Self, SignalProtocolError>)
        ensures
            match r {
                Ok(m) => skm_parse(bytes@) == Some(m@) && m.wf(),
                Err(e) => skm_parse(bytes@) is None
                    && e == SignalProtocolError::InvalidSenderKeyMessage,
            },
    {
        if bytes.len() < 72 {
            return Err(SignalProtocolError::InvalidSenderKeyMessage);
        }
        let key_id = read_be32(bytes, 0);
        let iteration = read_be32(bytes, 4);
        let ciphertext = sub_bytes(bytes, 8, bytes.len() - 64);
        let signature = sub_bytes(bytes, bytes.len() - 64, bytes.len());
        let m = SenderKeyMessage { key_id, iteration, ciphertext, signature };
        proof {
            assert(skm_parse(bytes@) matches Some(p) && p =~= m@);
        }
        Ok(m)
    }

    /// Whether the signature verifies over the serialized prefix under the
    /// given public key.
    pub fn verify_signature(&self, public_key: &[u8]) -> (r: bool)
        requires
            public_key@.len() == 32,
            self.wf(),
        ensures
            r == verifies(
                public_key@,
                skm_prefix(self@.key_id, self@.iteration, self@.ciphertext),
                self@.signature,
            ),
    {
        let prefix = serialize_prefix(self.key_id, self.iteration, self.ciphertext.as_slice());
        verify_signature(public_key, prefix.as_slice(), self.signature.as_slice())
    }
}

/// Model of a distribution message.
#[verifier::ext_equal]
pub struct SenderKeyDistributionMessageV {
    pub id: u32,
    pub iteration: u32,
    pub chain_seed: Seq<u8>,
    pub signing_key: Seq<u8>,
}

/// The full serialization: id, iteration, 32-byte chain seed, 32-byte
/// public signing key.
pub open spec fn skdm_bytes(m: SenderKeyDistributionMessageV) -> Seq<u8> {
    be32(m.id) + be32(m.iteration) + m.chain_seed + m.signing_key
}

/// What a byte string parses to: `None` unless it is exactly 72 bytes.
pub open spec fn skdm_parse(b: Seq<u8>) -> Option<SenderKeyDistributionMessageV> {
    if b.len() != 72 {
        None
    } else {
        Some(
            SenderKeyDistributionMessageV {
                id: be32_val(b.subrange(0, 4)),
                iteration: be32_val(b.subrange(4, 8)),
                chain_seed: b.subrange(8, 40),
                signing_key: b.subrange(40, 72),
            },
        )
    }
}

/// Parsing inverts serialization for any well-formed distribution message.
pub proof fn lemma_skdm_round_trip(m: SenderKeyDistributionMessageV)
    requires
        m.chain_seed.len() == 32,
        m.signing_key.len() == 32,
    ensures
        skdm_parse(skdm_bytes(m)) == Some(m),
{
    let b = skdm_bytes(m);
    assert(b.len() == 72);
    assert(b.subrange(0, 4) =~= be32(m.id));
    assert(b.subrange(4, 8) =~= be32(m.iteration));
    assert(b.subrange(8, 40) =~= m.chain_seed);
    assert(b.subrange(40, 72) =~= m.signing_key);
    lemma_be32_round_trip(m.id);
    lemma_be32_round_trip(m.iteration);
    assert(skdm_parse(b) matches Some(p) && p =~= m);
}

/// A distribution message: carries exactly enough to reconstruct a chain
/// key at the stated iteration and verify future signatures. Never carries
/// the private signing key.
pub struct SenderKeyDistributionMessage {
    pub id: u32,
    pub iteration: u32,
    pub chain_seed: Vec<u8>,
    pub signing_key: Vec<u8>,
}

impl View for SenderKeyDistributionMessage {
    type V = SenderKeyDistributionMessageV;

    open spec fn view(&self) -> SenderKeyDistributionMessageV {
        SenderKeyDistributionMessageV {
            id: self.id,
            iteration: self.iteration,
            chain_seed: self.chain_seed@,
            signing_key: self.signing_key@,
        }
    }
}

impl SenderKeyDistributionMessage {
    pub open spec fn wf(&self) -> bool {
        self.chain_seed@.len() == 32 && self.signing_key@.len() == 32
    }

    pub fn new(id: u32, iteration: u32, chain_seed: Vec<u8>, signing_key: Vec<u8>) -> (r: Self)
        requires
            chain_seed@.len() == 32,
            signing_key@.len() == 32,
        ensures
            r@ == (SenderKeyDistributionMessageV {
                id,
                iteration,
                chain_seed: chain_seed@,
                signing_key: signing_key@,
            }),
            r.wf(),
    {
        SenderKeyDistributionMessage { id, iteration, chain_seed, signing_key }
    }

    pub fn id(&self) -> (r: u32)
        ensures
            r == self@.id,
    {
        self.id
    }

    pub fn iteration(&self) -> (r: u32)
        ensures
            r == self@.iteration,
    {
        self.iteration
    }

    /// A copy of the chain seed.
    pub fn chain_key(&self) -> (r: Vec<u8>)
        ensures
            r@ == self@.chain_seed,
    {
        copy_bytes(self.chain_seed.as_slice())
    }

    /// A copy of the public signing key.
    pub fn signing_key(&self) -> (r: Vec<u8>)
        ensures
            r@ == self@.signing_key,
    {
        copy_bytes(self.signing_key.as_slice())
    }

    /// The full wire bytes.
    pub fn serialized(&self) -> (r: Vec<u8>)
        ensures
            r@ == skdm_bytes(self@),
    {
        let mut r: Vec<u8> = Vec::new();
        push_be32(&mut r, self.id);
        push_be32(&mut r, self.iteration);
        append_bytes(&mut r, self.chain_seed.as_slice());
        append_bytes(&mut r, self.signing_key.as_slice());
        proof {
            assert(r@ =~= skdm_bytes(self@));
        }
        r
    }

    /// Parses wire bytes; fails exactly where the length is not 72.
    pub fn parse(bytes: &[u8]) -> (r: Result<Self, SignalProtocolError>)
        ensures
            match r {
                Ok(m) => skdm_parse(bytes@) == Some(m@) && m.wf(),
                Err(e) => skdm_parse(bytes@) is None
                    && e == SignalProtocolError::InvalidSenderKeyMessage,
            },
    {
        if bytes.len() != 72 {
            return Err(SignalProtocolError::InvalidSenderKeyMessage);
        }
        let id = read_be32(bytes, 0);
        let iteration = read_be32(bytes, 4);
        let chain_seed = sub_bytes(bytes, 8, 40);
        let signing_key = sub_bytes(bytes, 40, 72);
        let m = SenderKeyDistributionMessage { id, iteration, chain_seed, signing_key };
        proof {
            assert(skdm_parse(bytes@) matches Some(p) && p =~= m@);
        }
        Ok(m)
    }
}

} // verus!
