//! The chain-key ratchet, per-iteration message keys, the per-epoch sender
//! key state with its bounded skipped-key cache, and the record that holds
//! one state per epoch.

use crate::bytes::copy_bytes;
use crate::consts::{MAX_FORWARD_JUMPS, MAX_MESSAGE_KEYS};
use crate::crypto::{hmac_of, hmac_sha256};
use crate::error::SignalProtocolError;
use vstd::prelude::*;

verus! {

// ------------------------------------------------------------------
// Mathematical model
// ------------------------------------------------------------------

/// Model of a chain key: an iteration counter and a 32-byte seed.
#[verifier::ext_equal]
pub struct ChainKeyV {
    pub iteration: u32,
    pub seed: Seq<u8>,
}

/// Model of a message key: the iteration it belongs to and the 32-byte
/// seed from which cipher key and IV are expanded.
#[verifier::ext_equal]
pub struct MessageKeyV {
    pub iteration: u32,
    pub seed: Seq<u8>,
}

/// Model of a sender key state.
#[verifier::ext_equal]
pub struct SenderKeyStateV {
    pub key_id: u32,
    pub chain: ChainKeyV,
    pub signing_pub: Seq<u8>,
    pub signing_priv: Option<Seq<u8>>,
    pub skipped: Seq<MessageKeyV>,
}

/// The seed of the next chain key: a one-way step keyed by the current seed.
pub open spec fn chain_next_seed(seed: Seq<u8>) -> Seq<u8> {
    hmac_of(seed, seq![2u8])
}

/// The message-key seed derived (without advancing) from a chain seed.
pub open spec fn chain_message_seed(seed: Seq<u8>) -> Seq<u8> {
    hmac_of(seed, seq![1u8])
}

/// The 32-byte cipher key expanded from a message-key seed.
pub open spec fn message_cipher_key(mseed: Seq<u8>) -> Seq<u8> {
    hmac_of(mseed, seq![1u8])
}

/// The 16-byte IV expanded from a message-key seed.
pub open spec fn message_iv(mseed: Seq<u8>) -> Seq<u8> {
    hmac_of(mseed, seq![2u8]).take(16)
}

/// The chain key one step further along.
pub open spec fn chain_next(c: ChainKeyV) -> ChainKeyV {
    ChainKeyV { iteration: (c.iteration + 1) as u32, seed: chain_next_seed(c.seed) }
}

/// The message key a chain key derives at its own iteration.
pub open spec fn chain_message_key(c: ChainKeyV) -> MessageKeyV {
    MessageKeyV { iteration: c.iteration, seed: chain_message_seed(c.seed) }
}

/// The chain seed `steps` one-way steps after `seed`.
pub open spec fn seed_at(seed: Seq<u8>, steps: nat) -> Seq<u8>
    decreases steps,
{
    if steps == 0 {
        seed
    } else {
        chain_next_seed(seed_at(seed, (steps - 1) as nat))
    }
}

/// Whether the cache holds a key for `iteration`.
pub open spec fn skipped_has(sk: Seq<MessageKeyV>, iteration: u32) -> bool {
    exists|i: int| 0 <= i < sk.len() && (#[trigger] sk[i]).iteration == iteration
}

/// The index of the cache entry for `iteration` (unique under
/// `skipped_distinct`).
pub open spec fn skipped_index_of(sk: Seq<MessageKeyV>, iteration: u32) -> int {
    choose|i: int| 0 <= i < sk.len() && (#[trigger] sk[i]).iteration == iteration
}

/// No two cache entries share an iteration.
pub open spec fn skipped_distinct(sk: Seq<MessageKeyV>) -> bool {
    forall|i: int, j: int|
        #![trigger sk[i].iteration, sk[j].iteration]
        0 <= i < j < sk.len() ==> sk[i].iteration != sk[j].iteration
}

/// Every cache entry's iteration lies below `bound`.
pub open spec fn skipped_below(sk: Seq<MessageKeyV>, bound: int) -> bool {
    forall|i: int| 0 <= i < sk.len() ==> (#[trigger] sk[i]).iteration < bound
}

/// Every cache entry's seed is 32 bytes.
pub open spec fn skipped_lens(sk: Seq<MessageKeyV>) -> bool {
    forall|i: int| 0 <= i < sk.len() ==> (#[trigger] sk[i]).seed.len() == 32
}

/// Bounded insertion: append the key, evicting the oldest entry when the
/// cache is full.
pub open spec fn cache_push(sk: Seq<MessageKeyV>, k: MessageKeyV) -> Seq<MessageKeyV> {
    if sk.len() < MAX_MESSAGE_KEYS {
        sk.push(k)
    } else {
        sk.remove(0).push(k)
    }
}

/// The cache after walking the chain forward `count` iterations starting at
/// `cur` with chain seed `seed`, caching the message key of each iteration
/// passed over.
pub open spec fn cache_after_walk(sk: Seq<MessageKeyV>, seed: Seq<u8>, cur: u32, count: nat) -> Seq<
    MessageKeyV,
>
    decreases count,
{
    if count == 0 {
        sk
    } else {
        cache_push(
            cache_after_walk(sk, seed, cur, (count - 1) as nat),
            MessageKeyV {
                iteration: (cur + count - 1) as u32,
                seed: chain_message_seed(seed_at(seed, (count - 1) as nat)),
            },
        )
    }
}

/// Structural well-formedness of the lengths inside a state.
pub open spec fn state_lens(s: SenderKeyStateV) -> bool {
    &&& s.chain.seed.len() == 32
    &&& s.signing_pub.len() == 32
    &&& (s.signing_priv matches Some(p) ==> p.len() == 32)
    &&& skipped_lens(s.skipped)
}

/// Well-formedness of the skipped-key cache relative to the chain.
pub open spec fn state_cache(s: SenderKeyStateV) -> bool {
    &&& skipped_distinct(s.skipped)
    &&& skipped_below(s.skipped, s.chain.iteration as int)
    &&& s.skipped.len() <= MAX_MESSAGE_KEYS
}

/// A valid sender key state.
pub open spec fn state_wf(s: SenderKeyStateV) -> bool {
    state_lens(s) && state_cache(s)
}

/// The outcome of resolving the message key for `target` against a state:
/// the resulting key or error, and the state afterwards.
pub open spec fn resolve_model(s: SenderKeyStateV, target: u32) -> (
    Result<MessageKeyV, SignalProtocolError>,
    SenderKeyStateV,
) {
    let cur = s.chain.iteration;
    if target < cur {
        if skipped_has(s.skipped, target) {
            let i = skipped_index_of(s.skipped, target);
            (Ok(s.skipped[i]), SenderKeyStateV { skipped: s.skipped.remove(i), ..s })
        } else {
            (Err(SignalProtocolError::DuplicatedMessage(cur, target)), s)
        }
    } else if target - cur > MAX_FORWARD_JUMPS {
        (Err(SignalProtocolError::MessageFromTooFarInTheFuture), s)
    } else if target == u32::MAX {
        (Err(SignalProtocolError::MessageFromTooFarInTheFuture), s)
    } else {
        let jump = (target - cur) as nat;
        (
            Ok(MessageKeyV { iteration: target, seed: chain_message_seed(seed_at(s.chain.seed, jump)) }),
            SenderKeyStateV {
                chain: ChainKeyV {
                    iteration: (target + 1) as u32,
                    seed: seed_at(s.chain.seed, jump + 1),
                },
                skipped: cache_after_walk(s.skipped, s.chain.seed, cur, jump),
                ..s
            },
        )
    }
}

// ------------------------------------------------------------------
// Lemmas about the cache walk
// ------------------------------------------------------------------

/// Pushing keeps every seed length at 32 bytes.
pub proof fn lemma_cache_push_lens(sk: Seq<MessageKeyV>, k: MessageKeyV)
    requires
        skipped_lens(sk),
        k.seed.len() == 32,
    ensures
        skipped_lens(cache_push(sk, k)),
{
    let w = cache_push(sk, k);
    assert forall|i: int| 0 <= i < w.len() implies (#[trigger] w[i]).seed.len() == 32 by {
        if sk.len() < MAX_MESSAGE_KEYS {
            if i < sk.len() {
                assert(w[i] == sk[i]);
            }
        } else {
            if i < w.len() - 1 {
                assert(w[i] == sk[i + 1]);
            }
        }
    }
}

/// The walk keeps the cache bounded and duplicate-free, and every entry's
/// iteration stays below `cur + count`.
pub proof fn lemma_walk_cache_props(sk: Seq<MessageKeyV>, seed: Seq<u8>, cur: u32, count: nat)
    requires
        sk.len() <= MAX_MESSAGE_KEYS,
        cur + count <= u32::MAX,
        skipped_below(sk, cur as int),
        skipped_distinct(sk),
    ensures
        cache_after_walk(sk, seed, cur, count).len() <= MAX_MESSAGE_KEYS,
        skipped_below(cache_after_walk(sk, seed, cur, count), cur + count),
        skipped_distinct(cache_after_walk(sk, seed, cur, count)),
    decreases count,
{
    if count == 0 {
        assert(skipped_below(sk, cur as int + 0));
    } else {
        lemma_walk_cache_props(sk, seed, cur, (count - 1) as nat);
        let prev = cache_after_walk(sk, seed, cur, (count - 1) as nat);
        let k = MessageKeyV {
            iteration: (cur + count - 1) as u32,
            seed: chain_message_seed(seed_at(seed, (count - 1) as nat)),
        };
        let w = cache_push(prev, k);
        if prev.len() < MAX_MESSAGE_KEYS {
            assert forall|i: int| 0 <= i < w.len() implies (#[trigger] w[i]).iteration < cur
                + count by {
                if i < prev.len() {
                    assert(w[i] == prev[i]);
                }
            }
            assert forall|i: int, j: int|
                #![trigger w[i], w[j]]
                0 <= i < j < w.len() implies w[i].iteration != w[j].iteration by {
                if j < prev.len() {
                    assert(w[i] == prev[i] && w[j] == prev[j]);
                } else {
                    assert(w[i] == prev[i] && w[j] == k);
                }
            }
        } else {
            assert forall|i: int| 0 <= i < w.len() implies (#[trigger] w[i]).iteration < cur
                + count by {
                if i < w.len() - 1 {
                    assert(w[i] == prev[i + 1]);
                }
            }
            assert forall|i: int, j: int|
                #![trigger w[i], w[j]]
                0 <= i < j < w.len() implies w[i].iteration != w[j].iteration by {
                if j < w.len() - 1 {
                    assert(w[i] == prev[i + 1] && w[j] == prev[j + 1]);
                } else {
                    assert(w[i] == prev[i + 1] && w[j] == k);
                }
            }
        }
    }
}

/// Removing one entry keeps the cache duplicate-free, bounded below the
/// same bound, and keeps its seed lengths.
pub proof fn lemma_cache_remove_props(sk: Seq<MessageKeyV>, i: int, bound: int)
    requires
        0 <= i < sk.len(),
        skipped_distinct(sk),
        skipped_below(sk, bound),
        skipped_lens(sk),
    ensures
        skipped_distinct(sk.remove(i)),
        skipped_below(sk.remove(i), bound),
        skipped_lens(sk.remove(i)),
        forall|j: int|
            0 <= j < sk.remove(i).len() ==> (#[trigger] sk.remove(i)[j]).iteration
                != sk[i].iteration,
{
    let w = sk.remove(i);
    assert forall|j: int| 0 <= j < w.len() implies (#[trigger] w[j]).iteration < bound
        && w[j].seed.len() == 32 && w[j].iteration != sk[i].iteration by {
        if j < i {
            assert(w[j] == sk[j]);
        } else {
            assert(w[j] == sk[j + 1]);
        }
    }
    assert forall|p: int, q: int|
        #![trigger w[p], w[q]]
        0 <= p < q < w.len() implies w[p].iteration != w[q].iteration by {
        let p2: int = if p < i {
            p
        } else {
            p + 1
        };
        let q2: int = if q < i {
            q
        } else {
            q + 1
        };
        assert(w[p] == sk[p2] && w[q] == sk[q2]);
    }
}

// ------------------------------------------------------------------
// Executable types
// ------------------------------------------------------------------

/// A chain key: the ratchet's position and its secret seed.
pub struct SenderChainKey {
    pub iteration: u32,
    pub seed: Vec<u8>,
}

impl View for SenderChainKey {
    type V = ChainKeyV;

    open spec fn view(&self) -> ChainKeyV {
        ChainKeyV { iteration: self.iteration, seed: self.seed@ }
    }
}

impl SenderChainKey {
    pub open spec fn wf(&self) -> bool {
        self.seed@.len() == 32
    }

    pub fn new(iteration: u32, seed: Vec<u8>) -> (r: Self)
        requires
            seed@.len() == 32,
        ensures
            r@ == (ChainKeyV { iteration, seed: seed@ }),
            r.wf(),
    {
        SenderChainKey { iteration, seed }
    }

    pub fn iteration(&self) -> (r: u32)
        ensures
            r == self@.iteration,
    {
        self.iteration
    }

    pub fn seed(&self) -> (r: Vec<u8>)
        ensures
            r@ == self@.seed,
    {
        copy_bytes(self.seed.as_slice())
    }

    /// The next chain key: one irreversible step of the ratchet.
    pub fn next(&self) -> (r: Self)
        requires
            self@.iteration < u32::MAX,
            self.wf(),
        ensures
            r@ == chain_next(self@),
            r.wf(),
    {
        let label = label_byte(2u8);
        let seed = hmac_sha256(self.seed.as_slice(), label.as_slice());
        SenderChainKey { iteration: self.iteration + 1, seed }
    }

    /// The message key at this chain key's own iteration; does not advance.
    pub fn sender_message_key(&self) -> (r: SenderMessageKey)
        requires
            self.wf(),
        ensures
            r@ == chain_message_key(self@),
            r.wf(),
    {
        let label = label_byte(1u8);
        let seed = hmac_sha256(self.seed.as_slice(), label.as_slice());
        SenderMessageKey { iteration: self.iteration, seed }
    }
}

/// A single-byte derivation label.
fn label_byte(b: u8) -> (r: Vec<u8>)
    ensures
        r@ == seq![b],
{
    let mut r: Vec<u8> = Vec::new();
    r.push(b);
    assert(r@ =~= seq![b]);
    r
}

/// A message key: single-use material for one iteration.
pub struct SenderMessageKey {
    pub iteration: u32,
    pub seed: Vec<u8>,
}

impl View for SenderMessageKey {
    type V = MessageKeyV;

    open spec fn view(&self) -> MessageKeyV {
        MessageKeyV { iteration: self.iteration, seed: self.seed@ }
    }
}

impl SenderMessageKey {
    pub open spec fn wf(&self) -> bool {
        self.seed@.len() == 32
    }

    pub fn iteration(&self) -> (r: u32)
        ensures
            r == self@.iteration,
    {
        self.iteration
    }

    /// The 32-byte cipher key expanded from this message key's seed.
    pub fn cipher_key(&self) -> (r: Vec<u8>)
        requires
            self.wf(),
        ensures
            r@ == message_cipher_key(self@.seed),
            r@.len() == 32,
    {
        let label = label_byte(1u8);
        hmac_sha256(self.seed.as_slice(), label.as_slice())
    }

    /// The 16-byte IV expanded from this message key's seed.
    pub fn iv(&self) -> (r: Vec<u8>)
        requires
            self.wf(),
        ensures
            r@ == message_iv(self@.seed),
            r@.len() == 16,
    {
        let label = label_byte(2u8);
        let full = hmac_sha256(self.seed.as_slice(), label.as_slice());
        let mut r: Vec<u8> = Vec::new();
        let mut i: usize = 0;
        while i < 16
            invariant
                i <= 16,
                full@.len() == 32,
                r@ == full@.subrange(0, i as int),
            decreases 16 - i,
        {
            r.push(full[i]);
            assert(r@ =~= full@.subrange(0, i as int + 1));
            i = i + 1;
        }
        proof {
            assert(r@ =~= full@.take(16));
        }
        r
    }

    /// An identical copy.
    #[verifier::loop_isolation(false)]
    pub fn duplicate(&self) -> (r: Self)
        ensures
            r@ == self@,
    {
        SenderMessageKey { iteration: self.iteration, seed: copy_bytes(self.seed.as_slice()) }
    }
}

/// The views of a cache of message keys.
pub open spec fn mk_views(s: Seq<SenderMessageKey>) -> Seq<MessageKeyV> {
    Seq::new(s.len(), |i: int| s[i]@)
}

/// One sender-key epoch: id, chain key, signing keys and skipped-key cache.
pub struct SenderKeyState {
    pub key_id: u32,
    pub chain_key: SenderChainKey,
    pub signing_key_public: Vec<u8>,
    pub signing_key_private: Option<Vec<u8>>,
    pub skipped: Vec<SenderMessageKey>,
}

impl View for SenderKeyState {
    type V = SenderKeyStateV;

    open spec fn view(&self) -> SenderKeyStateV {
        SenderKeyStateV {
            key_id: self.key_id,
            chain: self.chain_key@,
            signing_pub: self.signing_key_public@,
            signing_priv: match self.signing_key_private {
                Some(p) => Some(p@),
                None => None,
            },
            skipped: mk_views(self.skipped@),
        }
    }
}

impl SenderKeyState {
    /// A fresh state with an empty skipped-key cache.
    pub fn new(
        key_id: u32,
        iteration: u32,
        chain_seed: Vec<u8>,
        signing_key_public: Vec<u8>,
        signing_key_private: Option<Vec<u8>>,
    ) -> (r: Self)
        requires
            chain_seed@.len() == 32,
            signing_key_public@.len() == 32,
            (signing_key_private matches Some(p) ==> p@.len() == 32),
        ensures
            r@ == (SenderKeyStateV {
                key_id,
                chain: ChainKeyV { iteration, seed: chain_seed@ },
                signing_pub: signing_key_public@,
                signing_priv: match signing_key_private {
                    Some(p) => Some(p@),
                    None => None,
                },
                skipped: Seq::empty(),
            }),
            state_wf(r@),
    {
        let r = SenderKeyState {
            key_id,
            chain_key: SenderChainKey::new(iteration, chain_seed),
            signing_key_public,
            signing_key_private,
            skipped: Vec::new(),
        };
        proof {
            assert(mk_views(r.skipped@) =~= Seq::<MessageKeyV>::empty());
        }
        r
    }

    pub fn sender_key_id(&self) -> (r: u32)
        ensures
            r == self@.key_id,
    {
        self.key_id
    }

    /// A copy of the current chain key.
    pub fn sender_chain_key(&self) -> (r: SenderChainKey)
        ensures
            r@ == self@.chain,
    {
        SenderChainKey {
            iteration: self.chain_key.iteration,
            seed: copy_bytes(self.chain_key.seed.as_slice()),
        }
    }

    /// Replaces the chain key, leaving everything else as it was.
    pub fn set_sender_chain_key(&mut self, chain_key: SenderChainKey)
        ensures
            final(self)@ == (SenderKeyStateV { chain: chain_key@, ..old(self)@ }),
    {
        self.chain_key = chain_key;
        proof {
            assert(self@ =~= (SenderKeyStateV { chain: self.chain_key@, ..old(self)@ }));
        }
    }

    /// A copy of the public signing key.
    pub fn signing_key_public(&self) -> (r: Vec<u8>)
        ensures
            r@ == self@.signing_pub,
    {
        copy_bytes(self.signing_key_public.as_slice())
    }

    /// A copy of the private signing key, if this device originated the
    /// state.
    pub fn signing_key_private(&self) -> (r: Option<Vec<u8>>)
        ensures
            match r {
                Some(p) => self@.signing_priv == Some(p@),
                None => self@.signing_priv is None,
            },
    {
        match &self.signing_key_private {
            Some(p) => Some(copy_bytes(p.as_slice())),
            None => None,
        }
    }

    /// Caches a skipped message key, evicting the oldest entry when full.
    pub fn add_sender_message_key(&mut self, key: &SenderMessageKey)
        ensures
            final(self)@ == (SenderKeyStateV {
                skipped: cache_push(old(self)@.skipped, key@),
                ..old(self)@
            }),
    {
        if self.skipped.len() >= MAX_MESSAGE_KEYS {
            self.skipped.remove(0);
            proof {
                assert(mk_views(self.skipped@) =~= mk_views(old(self).skipped@).remove(0));
            }
        }
        let ghost mid = mk_views(self.skipped@);
        self.skipped.push(key.duplicate());
        proof {
            assert(mk_views(self.skipped@) =~= mid.push(key@));
            assert(self@ =~= (SenderKeyStateV {
                skipped: cache_push(old(self)@.skipped, key@),
                ..old(self)@
            }));
        }
    }

    /// Removes and returns the cached key for `iteration`, if present.
    #[verifier::loop_isolation(false)]
    pub fn remove_sender_message_key(&mut self, iteration: u32) -> (r: Option<SenderMessageKey>)
        requires
            skipped_distinct(old(self)@.skipped),
        ensures
            match r {
                Some(k) => {
                    &&& skipped_has(old(self)@.skipped, iteration)
                    &&& k@ == old(self)@.skipped[skipped_index_of(old(self)@.skipped, iteration)]
                    &&& k@.iteration == iteration
                    &&& final(self)@ == (SenderKeyStateV {
                        skipped: old(self)@.skipped.remove(
                            skipped_index_of(old(self)@.skipped, iteration),
                        ),
                        ..old(self)@
                    })
                },
                None => {
                    &&& !skipped_has(old(self)@.skipped, iteration)
                    &&& final(self)@ == old(self)@
                },
            },
    {
        let mut i: usize = 0;
        while i < self.skipped.len()
            invariant
                *self == *old(self),
                i <= self.skipped@.len(),
                forall|j: int| 0 <= j < i ==> mk_views(self.skipped@)[j].iteration != iteration,
            decreases self.skipped@.len() - i,
        {
            if self.skipped[i].iteration == iteration {
                proof {
                    let sk = old(self)@.skipped;
                    assert(sk[i as int].iteration == iteration);
                    let w = skipped_index_of(sk, iteration);
                    assert(0 <= w < sk.len() && sk[w].iteration == iteration);
                    if w != i as int {
                        assert(sk[w].iteration != sk[i as int].iteration);
                    }
                }
                let k = self.skipped.remove(i);
                proof {
                    assert(mk_views(self.skipped@) =~= old(self)@.skipped.remove(i as int));
                    assert(self@ =~= (SenderKeyStateV {
                        skipped: old(self)@.skipped.remove(i as int),
                        ..old(self)@
                    }));
                }
                return Some(k);
            }
            i = i + 1;
        }
        proof {
            if skipped_has(old(self)@.skipped, iteration) {
                let w = skipped_index_of(old(self)@.skipped, iteration);
                assert(0 <= w < old(self)@.skipped.len()
                    && old(self)@.skipped[w].iteration == iteration);
            }
        }
        None
    }

    /// An identical copy.
    #[verifier::loop_isolation(false)]
    pub fn duplicate(&self) -> (r: Self)
        ensures
            r@ == self@,
    {
        let mut skipped: Vec<SenderMessageKey> = Vec::new();
        let mut i: usize = 0;
        while i < self.skipped.len()
            invariant
                i <= self.skipped@.len(),
                mk_views(skipped@) == mk_views(self.skipped@).take(i as int),
            decreases self.skipped@.len() - i,
        {
            let elem = self.skipped[i].duplicate();
            let ghost pre = skipped@;
            skipped.push(elem);
            proof {
                assert forall|j: int| 0 <= j < skipped@.len() implies mk_views(skipped@)[j]
                    == mk_views(self.skipped@).take(i as int + 1)[j] by {
                    if j < i as int {
                        assert(skipped@[j] == pre[j]);
                        assert(mk_views(pre)[j] == mk_views(self.skipped@).take(i as int)[j]);
                    } else {
                        assert(skipped@[j] == elem);
                    }
                }
                assert(mk_views(skipped@) =~= mk_views(self.skipped@).take(i as int + 1));
            }
            i = i + 1;
        }
        let r = SenderKeyState {
            key_id: self.key_id,
            chain_key: SenderChainKey {
                iteration: self.chain_key.iteration,
                seed: copy_bytes(self.chain_key.seed.as_slice()),
            },
            signing_key_public: copy_bytes(self.signing_key_public.as_slice()),
            signing_key_private: match &self.signing_key_private {
                Some(p) => Some(copy_bytes(p.as_slice())),
                None => None,
            },
            skipped,
        };
        proof {
            assert(mk_views(r.skipped@) =~= mk_views(self.skipped@));
            assert(r@ =~= self@);
        }
        r
    }
}

/// The views of a record's states.
pub open spec fn state_views(s: Seq<SenderKeyState>) -> Seq<SenderKeyStateV> {
    Seq::new(s.len(), |i: int| s[i]@)
}

/// Every state of the record is well formed.
pub open spec fn record_wf(states: Seq<SenderKeyStateV>) -> bool {
    forall|i: int| 0 <= i < states.len() ==> state_wf(#[trigger] states[i])
}

/// The index of the first state with the given id, or -1 when none has it.
pub open spec fn first_index_of_id(states: Seq<SenderKeyStateV>, id: u32) -> int
    decreases states.len(),
{
    if states.len() == 0 {
        -1
    } else if states[0].key_id == id {
        0
    } else {
        let t = first_index_of_id(states.drop_first(), id);
        if t < 0 {
            -1
        } else {
            t + 1
        }
    }
}

/// `first_index_of_id` is what its name says: the least index carrying the
/// id, or -1 when the id is absent.
pub proof fn lemma_first_index_char(states: Seq<SenderKeyStateV>, id: u32)
    ensures
        first_index_of_id(states, id) >= 0 ==> {
            let f = first_index_of_id(states, id);
            &&& 0 <= f < states.len()
            &&& states[f].key_id == id
            &&& forall|j: int| 0 <= j < f ==> (#[trigger] states[j]).key_id != id
        },
        first_index_of_id(states, id) < 0 ==> forall|j: int|
            0 <= j < states.len() ==> (#[trigger] states[j]).key_id != id,
    decreases states.len(),
{
    if states.len() == 0 {
    } else if states[0].key_id == id {
    } else {
        let rest = states.drop_first();
        lemma_first_index_char(rest, id);
        let t = first_index_of_id(rest, id);
        if t >= 0 {
            let f = first_index_of_id(states, id);
            assert(f == t + 1);
            assert(states[f] == rest[t]);
            assert forall|j: int| 0 <= j < f implies (#[trigger] states[j]).key_id != id by {
                if j >= 1 {
                    assert(states[j] == rest[j - 1]);
                }
            }
        } else {
            assert forall|j: int| 0 <= j < states.len() implies (#[trigger] states[j]).key_id
                != id by {
                if j >= 1 {
                    assert(states[j] == rest[j - 1]);
                }
            }
        }
    }
}

/// A per-(group, sender) record: one state per epoch, most recent first.
pub struct SenderKeyRecord {
    pub states: Vec<SenderKeyState>,
}

impl View for SenderKeyRecord {
    type V = Seq<SenderKeyStateV>;

    open spec fn view(&self) -> Seq<SenderKeyStateV> {
        state_views(self.states@)
    }
}

impl SenderKeyRecord {
    /// A record with no states yet.
    pub fn new_empty() -> (r: Self)
        ensures
            r@ == Seq::<SenderKeyStateV>::empty(),
    {
        let r = SenderKeyRecord { states: Vec::new() };
        proof {
            assert(r@ =~= Seq::<SenderKeyStateV>::empty());
        }
        r
    }

    pub fn is_empty(&self) -> (r: bool)
        ensures
            r == (self@.len() == 0),
    {
        self.states.len() == 0
    }

    /// The index of the first state matching `key_id`.
    #[verifier::loop_isolation(false)]
    pub fn index_for_key_id(&self, key_id: u32) -> (r: Option<usize>)
        ensures
            match r {
                Some(i) => i == first_index_of_id(self@, key_id),
                None => first_index_of_id(self@, key_id) < 0,
            },
    {
        proof {
            lemma_first_index_char(self@, key_id);
        }
        let mut i: usize = 0;
        while i < self.states.len()
            invariant
                i <= self@.len(),
                forall|j: int| 0 <= j < i ==> (#[trigger] self@[j]).key_id != key_id,
                first_index_of_id(self@, key_id) >= 0 ==> {
                    let f = first_index_of_id(self@, key_id);
                    &&& 0 <= f < self@.len()
                    &&& self@[f].key_id == key_id
                    &&& forall|j: int| 0 <= j < f ==> (#[trigger] self@[j]).key_id != key_id
                },
                first_index_of_id(self@, key_id) < 0 ==> forall|j: int|
                    0 <= j < self@.len() ==> (#[trigger] self@[j]).key_id != key_id,
            decreases self@.len() - i,
        {
            if self.states[i].key_id == key_id {
                proof {
                    let f = first_index_of_id(self@, key_id);
                    if f < 0 {
                        assert(self@[i as int].key_id != key_id);
                    }
                    if f != i as int {
                        if f < i as int {
                            assert(self@[f].key_id != key_id);
                        } else {
                            assert(self@[i as int].key_id != key_id);
                        }
                    }
                }
                return Some(i);
            }
            i = i + 1;
        }
        proof {
            let f = first_index_of_id(self@, key_id);
            if f >= 0 {
                assert(self@[f].key_id != key_id);
            }
        }
        None
    }

    /// Takes the state at `i` out of the record.
    pub fn take_state(&mut self, i: usize) -> (r: SenderKeyState)
        requires
            i < old(self)@.len(),
        ensures
            r@ == old(self)@[i as int],
            final(self)@ == old(self)@.remove(i as int),
    {
        let r = self.states.remove(i);
        proof {
            assert(state_views(self.states@) =~= old(self)@.remove(i as int));
        }
        r
    }

    /// Puts a state back at `i`.
    pub fn put_state(&mut self, i: usize, st: SenderKeyState)
        requires
            i <= old(self)@.len(),
        ensures
            final(self)@ == old(self)@.insert(i as int, st@),
    {
        self.states.insert(i, st);
        proof {
            assert(state_views(self.states@) =~= old(self)@.insert(i as int, st@));
        }
    }

    /// Prepends a new state, which becomes the current one.
    pub fn add_sender_key_state(
        &mut self,
        key_id: u32,
        iteration: u32,
        chain_seed: &[u8],
        signing_key_public: &[u8],
        signing_key_private: Option<Vec<u8>>,
    )
        requires
            chain_seed@.len() == 32,
            signing_key_public@.len() == 32,
            (signing_key_private matches Some(p) ==> p@.len() == 32),
        ensures
            final(self)@ == old(self)@.insert(
                0,
                SenderKeyStateV {
                    key_id,
                    chain: ChainKeyV { iteration, seed: chain_seed@ },
                    signing_pub: signing_key_public@,
                    signing_priv: match signing_key_private {
                        Some(p) => Some(p@),
                        None => None,
                    },
                    skipped: Seq::empty(),
                },
            ),
    {
        let st = SenderKeyState::new(
            key_id,
            iteration,
            copy_bytes(chain_seed),
            copy_bytes(signing_key_public),
            signing_key_private,
        );
        self.put_state(0, st);
    }

    /// Replaces every state with a single fresh one (first bootstrap).
    pub fn set_sender_key_state(
        &mut self,
        key_id: u32,
        iteration: u32,
        chain_seed: &[u8],
        signing_key_public: &[u8],
        signing_key_private: Option<Vec<u8>>,
    )
        requires
            chain_seed@.len() == 32,
            signing_key_public@.len() == 32,
            (signing_key_private matches Some(p) ==> p@.len() == 32),
        ensures
            final(self)@ == seq![
                SenderKeyStateV {
                    key_id,
                    chain: ChainKeyV { iteration, seed: chain_seed@ },
                    signing_pub: signing_key_public@,
                    signing_priv: match signing_key_private {
                        Some(p) => Some(p@),
                        None => None,
                    },
                    skipped: Seq::empty(),
                },
            ],
    {
        self.states.clear();
        proof {
            assert(state_views(self.states@) =~= Seq::<SenderKeyStateV>::empty());
        }
        self.add_sender_key_state(
            key_id,
            iteration,
            chain_seed,
            signing_key_public,
            signing_key_private,
        );
        proof {
            assert(self@ =~= seq![self@[0]]);
        }
    }

    /// An identical copy.
    #[verifier::loop_isolation(false)]
    pub fn duplicate(&self) -> (r: Self)
        ensures
            r@ == self@,
    {
        let mut states: Vec<SenderKeyState> = Vec::new();
        let mut i: usize = 0;
        while i < self.states.len()
            invariant
                i <= self@.len(),
                state_views(states@) == self@.take(i as int),
            decreases self@.len() - i,
        {
            let elem = self.states[i].duplicate();
            let ghost pre = states@;
            states.push(elem);
            proof {
                assert forall|j: int| 0 <= j < states@.len() implies state_views(states@)[j]
                    == self@.take(i as int + 1)[j] by {
                    if j < i as int {
                        assert(states@[j] == pre[j]);
                        assert(state_views(pre)[j] == self@.take(i as int)[j]);
                    } else {
                        assert(states@[j] == elem);
                    }
                }
                assert(state_views(states@) =~= self@.take(i as int + 1));
            }
            i = i + 1;
        }
        let r = SenderKeyRecord { states };
        proof {
            assert(r@ =~= self@);
        }
        r
    }
}

} // verus!
