//! The store collaborator: the capability interface the group cipher loads
//! records from and persists them to, and a verified in-memory store.

use crate::bytes::{bytes_eq, copy_bytes};
use crate::error::SignalProtocolError;
use crate::sender_keys::{record_wf, SenderKeyRecord, SenderKeyStateV};
use vstd::prelude::*;

verus! {

/// The ratchet scope: a (group identifier, sender identifier) pair.
pub struct SenderKeyName {
    pub group_id: Vec<u8>,
    pub sender_id: Vec<u8>,
}

impl View for SenderKeyName {
    type V = (Seq<u8>, Seq<u8>);

    open spec fn view(&self) -> (Seq<u8>, Seq<u8>) {
        (self.group_id@, self.sender_id@)
    }
}

impl SenderKeyName {
    pub fn new(group_id: Vec<u8>, sender_id: Vec<u8>) -> (r: Self)
        ensures
            r@ == (group_id@, sender_id@),
    {
        SenderKeyName { group_id, sender_id }
    }

    /// An identical copy.
    pub fn duplicate(&self) -> (r: Self)
        ensures
            r@ == self@,
    {
        SenderKeyName {
            group_id: copy_bytes(self.group_id.as_slice()),
            sender_id: copy_bytes(self.sender_id.as_slice()),
        }
    }

    /// Whether two names denote the same (group, sender) pair.
    pub fn matches(&self, other: &SenderKeyName) -> (r: bool)
        ensures
            r == (self@ == other@),
    {
        let r = bytes_eq(self.group_id.as_slice(), other.group_id.as_slice()) && bytes_eq(
            self.sender_id.as_slice(),
            other.sender_id.as_slice(),
        );
        r
    }
}

/// The store the cipher works against. The store owns durable bytes; it is
/// expected to serialize access per name, so one load and one store per
/// operation suffice. Its failures pass through as `StoreFailure`.
pub trait SenderKeyStore {
    /// The store's own validity; an in-memory store's bookkeeping, a real
    /// store's connection state.
    spec fn inv(&self) -> bool;

    /// The records the store holds, by name.
    spec fn records(&self) -> Map<(Seq<u8>, Seq<u8>), Seq<SenderKeyStateV>>;

    /// Loads the record for a name, `None` when the store has none.
    fn load_sender_key(&self, sender_key_id: &SenderKeyName) -> (r: Result<
        Option<SenderKeyRecord>,
        SignalProtocolError,
    >)
        requires
            self.inv(),
        ensures
            match r {
                Ok(Some(rec)) => self.records().contains_key(sender_key_id@) && rec@
                    == self.records()[sender_key_id@] && record_wf(rec@),
                Ok(None) => !self.records().contains_key(sender_key_id@),
                Err(e) => e == SignalProtocolError::StoreFailure,
            },
    ;

    /// Persists the record under the name, replacing what was there.
    fn store_sender_key(&mut self, sender_key_id: &SenderKeyName, record: &SenderKeyRecord) -> (r:
        Result<(), SignalProtocolError>)
        requires
            old(self).inv(),
            record_wf(record@),
        ensures
            final(self).inv(),
            match r {
                Ok(_) => final(self).records() == old(self).records().insert(
                    sender_key_id@,
                    record@,
                ),
                Err(e) => e == SignalProtocolError::StoreFailure && final(self).records()
                    == old(self).records(),
            },
    ;
}

/// The views of a store's entries.
pub open spec fn entry_views(s: Seq<(SenderKeyName, SenderKeyRecord)>) -> Seq<
    ((Seq<u8>, Seq<u8>), Seq<SenderKeyStateV>),
> {
    Seq::new(s.len(), |i: int| (s[i].0@, s[i].1@))
}

/// No two entries share a name.
pub open spec fn distinct_names(s: Seq<((Seq<u8>, Seq<u8>), Seq<SenderKeyStateV>)>) -> bool {
    forall|i: int, j: int|
        #![trigger s[i].0, s[j].0]
        0 <= i < j < s.len() ==> s[i].0 != s[j].0
}

/// The map an entry list denotes; later entries win.
pub open spec fn records_of(s: Seq<((Seq<u8>, Seq<u8>), Seq<SenderKeyStateV>)>) -> Map<
    (Seq<u8>, Seq<u8>),
    Seq<SenderKeyStateV>,
>
    decreases s.len(),
{
    if s.len() == 0 {
        Map::empty()
    } else {
        records_of(s.drop_last()).insert(s.last().0, s.last().1)
    }
}

/// The map holds a name exactly when some entry carries it.
pub proof fn lemma_records_of_contains(
    s: Seq<((Seq<u8>, Seq<u8>), Seq<SenderKeyStateV>)>,
    n: (Seq<u8>, Seq<u8>),
)
    ensures
        records_of(s).contains_key(n) <==> exists|i: int|
            0 <= i < s.len() && (#[trigger] s[i]).0 == n,
    decreases s.len(),
{
    if s.len() == 0 {
    } else {
        lemma_records_of_contains(s.drop_last(), n);
        let d = s.drop_last();
        if records_of(s).contains_key(n) {
            if s.last().0 == n {
                assert(s[s.len() - 1].0 == n);
            } else {
                let i = choose|i: int| 0 <= i < d.len() && (#[trigger] d[i]).0 == n;
                assert(s[i].0 == n);
            }
        }
        if exists|i: int| 0 <= i < s.len() && (#[trigger] s[i]).0 == n {
            let i = choose|i: int| 0 <= i < s.len() && (#[trigger] s[i]).0 == n;
            if i == s.len() - 1 {
                assert(s.last().0 == n);
            } else {
                assert(d[i].0 == n);
            }
        }
    }
}

/// Under distinct names, each entry is what the map returns for its name.
pub proof fn lemma_records_of_index(s: Seq<((Seq<u8>, Seq<u8>), Seq<SenderKeyStateV>)>, i: int)
    requires
        distinct_names(s),
        0 <= i < s.len(),
    ensures
        records_of(s).contains_key(s[i].0),
        records_of(s)[s[i].0] == s[i].1,
    decreases s.len(),
{
    let d = s.drop_last();
    if i == s.len() - 1 {
        assert(s.last() == s[i]);
    } else {
        assert(forall|p: int, q: int|
            #![trigger d[p].0, d[q].0]
            0 <= p < q < d.len() ==> d[p].0 != d[q].0);
        lemma_records_of_index(d, i);
        assert(d[i] == s[i]);
        assert(s[i].0 != s.last().0);
    }
}

/// Replacing the record of the entry at `i` updates the map at its name.
pub proof fn lemma_records_of_update(
    s: Seq<((Seq<u8>, Seq<u8>), Seq<SenderKeyStateV>)>,
    i: int,
    v: Seq<SenderKeyStateV>,
)
    requires
        distinct_names(s),
        0 <= i < s.len(),
    ensures
        records_of(s.update(i, (s[i].0, v))) == records_of(s).insert(s[i].0, v),
    decreases s.len(),
{
    let s2 = s.update(i, (s[i].0, v));
    let d = s.drop_last();
    if i == s.len() - 1 {
        assert(s2.drop_last() =~= d);
        assert(s2.last() == (s[i].0, v));
        assert(records_of(s2) =~= records_of(s).insert(s[i].0, v));
    } else {
        assert(forall|p: int, q: int|
            #![trigger d[p].0, d[q].0]
            0 <= p < q < d.len() ==> d[p].0 != d[q].0);
        lemma_records_of_update(d, i, v);
        assert(d[i] == s[i]);
        assert(s2.drop_last() =~= d.update(i, (s[i].0, v)));
        assert(s2.last() == s.last());
        assert(s[i].0 != s.last().0);
        assert(records_of(s2) =~= records_of(s).insert(s[i].0, v));
    }
}

/// Appending a fresh entry inserts its record at its name.
pub proof fn lemma_records_of_push(
    s: Seq<((Seq<u8>, Seq<u8>), Seq<SenderKeyStateV>)>,
    n: (Seq<u8>, Seq<u8>),
    v: Seq<SenderKeyStateV>,
)
    ensures
        records_of(s.push((n, v))) == records_of(s).insert(n, v),
{
    let s2 = s.push((n, v));
    assert(s2.drop_last() =~= s);
    assert(s2.last() == (n, v));
}

/// A verified in-memory store: the simplest realization of the store
/// collaborator, also what the tests run against.
pub struct InMemSenderKeyStore {
    entries: Vec<(SenderKeyName, SenderKeyRecord)>,
}

impl InMemSenderKeyStore {
    /// An empty store.
    pub fn new() -> (r: Self)
        ensures
            r.inv(),
            r.records() == Map::<(Seq<u8>, Seq<u8>), Seq<SenderKeyStateV>>::empty(),
    {
        let r = InMemSenderKeyStore { entries: Vec::new() };
        proof {
            assert(entry_views(r.entries@) =~= Seq::<
                ((Seq<u8>, Seq<u8>), Seq<SenderKeyStateV>),
            >::empty());
        }
        r
    }
}

impl SenderKeyStore for InMemSenderKeyStore {
    closed spec fn inv(&self) -> bool {
        &&& distinct_names(entry_views(self.entries@))
        &&& forall|i: int|
            0 <= i < self.entries@.len() ==> record_wf(#[trigger] entry_views(self.entries@)[i].1)
    }

    closed spec fn records(&self) -> Map<(Seq<u8>, Seq<u8>), Seq<SenderKeyStateV>> {
        records_of(entry_views(self.entries@))
    }

    #[verifier::loop_isolation(false)]
    fn load_sender_key(&self, sender_key_id: &SenderKeyName) -> (r: Result<
        Option<SenderKeyRecord>,
        SignalProtocolError,
    >) {
        let ghost vs = entry_views(self.entries@);
        let mut i: usize = 0;
        while i < self.entries.len()
            invariant
                i <= self.entries@.len(),
                forall|j: int| 0 <= j < i ==> (#[trigger] entry_views(self.entries@)[j]).0
                    != sender_key_id@,
            decreases self.entries@.len() - i,
        {
            if self.entries[i].0.matches(sender_key_id) {
                let rec = self.entries[i].1.duplicate();
                proof {
                    assert(vs[i as int].0 == sender_key_id@);
                    lemma_records_of_index(vs, i as int);
                }
                return Ok(Some(rec));
            }
            i = i + 1;
        }
        proof {
            lemma_records_of_contains(vs, sender_key_id@);
            if records_of(vs).contains_key(sender_key_id@) {
                let j = choose|j: int| 0 <= j < vs.len() && (#[trigger] vs[j]).0 == sender_key_id@;
                assert(vs[j].0 != sender_key_id@);
            }
        }
        Ok(None)
    }

    #[verifier::loop_isolation(false)]
    fn store_sender_key(&mut self, sender_key_id: &SenderKeyName, record: &SenderKeyRecord) -> (r:
        Result<(), SignalProtocolError>) {
        let ghost vs = entry_views(old(self).entries@);
        let mut i: usize = 0;
        while i < self.entries.len()
            invariant
                *self == *old(self),
                i <= self.entries@.len(),
                forall|j: int| 0 <= j < i ==> (#[trigger] entry_views(self.entries@)[j]).0
                    != sender_key_id@,
            decreases self.entries@.len() - i,
        {
            if self.entries[i].0.matches(sender_key_id) {
                self.entries.remove(i);
                self.entries.insert(i, (sender_key_id.duplicate(), record.duplicate()));
                proof {
                    let vs2 = entry_views(self.entries@);
                    assert(vs2 =~= vs.update(i as int, (vs[i as int].0, record@)));
                    lemma_records_of_update(vs, i as int, record@);
                    assert forall|p: int, q: int|
                        #![trigger vs2[p].0, vs2[q].0]
                        0 <= p < q < vs2.len() implies vs2[p].0 != vs2[q].0 by {
                        assert(vs2[p].0 == vs[p].0 && vs2[q].0 == vs[q].0);
                    }
                    assert forall|j: int| 0 <= j < vs2.len() implies record_wf(
                        #[trigger] vs2[j].1,
                    ) by {
                        if j != i as int {
                            assert(vs2[j].1 == vs[j].1);
                        }
                    }
                }
                return Ok(());
            }
            i = i + 1;
        }
        proof {
            lemma_records_of_contains(vs, sender_key_id@);
        }
        self.entries.push((sender_key_id.duplicate(), record.duplicate()));
        proof {
            let vs2 = entry_views(self.entries@);
            assert(vs2 =~= vs.push((sender_key_id@, record@)));
            lemma_records_of_push(vs, sender_key_id@, record@);
            assert forall|p: int, q: int|
                #![trigger vs2[p].0, vs2[q].0]
                0 <= p < q < vs2.len() implies vs2[p].0 != vs2[q].0 by {
                if q < vs.len() {
                    assert(vs2[p].0 == vs[p].0 && vs2[q].0 == vs[q].0);
                } else {
                    assert(vs2[p].0 == vs[p].0);
                    assert(vs[p].0 != sender_key_id@);
                }
            }
            assert forall|j: int| 0 <= j < vs2.len() implies record_wf(#[trigger] vs2[j].1) by {
                if j < vs.len() {
                    assert(vs2[j].1 == vs[j].1);
                }
            }
        }
        Ok(())
    }
}

} // verus!
