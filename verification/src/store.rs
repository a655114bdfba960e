//! The table of recorded relics, keyed by relic UID.
use vstd::prelude::*;
use std::collections::HashMap;
use crate::models::{Relic, ReliquaryRelic, relic_exported, relic_rolls_fit, same_relic};

verus! {

broadcast use vstd::std_specs::hash::group_hash_axioms;

/// The relics recorded so far, one per UID; `initialized` is set once the
/// full relic list has been received, and individual relic updates count
/// only after that.
#[derive(Debug)]
pub struct RelicStore {
    relics: HashMap<u32, Relic>,
    initialized: bool,
}

impl RelicStore {
    /// The recorded relics by UID.
    pub closed spec fn relics(&self) -> Map<u32, Relic> {
        self.relics@
    }

    /// Whether the full relic list has been received.
    pub closed spec fn is_ready(&self) -> bool {
        self.initialized
    }

    /// Every recorded relic's roll counts add up within `i32`.
    pub closed spec fn wf(&self) -> bool {
        forall|uid: u32| #[trigger] self.relics@.contains_key(uid) ==> relic_rolls_fit(self.relics@[uid])
    }

    /// An empty store that has not yet received the full relic list.
    pub fn new() -> (r: RelicStore)
        ensures
            r.wf(),
            r.relics() == Map::<u32, Relic>::empty(),
            !r.is_ready(),
    {
        RelicStore { relics: HashMap::new(), initialized: false }
    }

    /// Whether the full relic list has been received.
    pub fn is_initialized(&self) -> (r: bool)
        ensures
            r == self.is_ready(),
    {
        self.initialized
    }

    /// Marks the full relic list as received; the relics stay as they are.
    pub fn mark_initialized(&mut self)
        ensures
            final(self).is_ready(),
            final(self).relics() == old(self).relics(),
            final(self).wf() == old(self).wf(),
    {
        self.initialized = true;
    }

    /// The number of recorded relics.
    pub fn len(&self) -> (r: usize)
        ensures
            r == self.relics().len(),
    {
        self.relics.len()
    }

    /// Records `relic` under `uid`, replacing the relic recorded there before.
    pub fn insert(&mut self, uid: u32, relic: Relic)
        requires
            old(self).wf(),
            relic_rolls_fit(relic),
        ensures
            final(self).wf(),
            final(self).is_ready() == old(self).is_ready(),
            final(self).relics() == old(self).relics().insert(uid, relic),
    {
        self.relics.insert(uid, relic);
    }

    /// A copy of the relic recorded under `uid`.
    pub fn get(&self, uid: u32) -> (r: Option<Relic>)
        requires
            self.wf(),
        ensures
            self.relics().contains_key(uid) ==> r is Some && same_relic(r->0, self.relics()[uid]),
            !self.relics().contains_key(uid) ==> r is None,
    {
        match self.relics.get(&uid) {
            Some(relic) => Some(relic.duplicate()),
            None => None,
        }
    }

    /// The export forms of all recorded relics, one per UID, in the order
    /// the table hands them out.
    pub fn export(&self) -> (r: Vec<ReliquaryRelic>)
        requires
            self.wf(),
        ensures
            r@.len() == self.relics().len(),
            exists|uids: Seq<u32>|
                {
                    &&& uids.len() == r@.len()
                    &&& uids.no_duplicates()
                    &&& forall|i: int|
                        0 <= i < uids.len() ==> self.relics().contains_key(#[trigger] uids[i])
                            && relic_exported(self.relics()[uids[i]], r@[i])
                },
    {
        let mut out: Vec<ReliquaryRelic> = Vec::new();
        let ghost mut uids: Seq<u32> = Seq::empty();
        for (uid, relic) in it: self.relics.iter()
            invariant
                self.wf(),
                out@.len() == it.index(),
                uids.len() == it.index(),
                it.seq().len() == self.relics@.dom().len(),
                it.seq().no_duplicates(),
                forall|i: int|
                    0 <= i < it.seq().len() ==> self.relics@.contains_key(
                        *(#[trigger] it.seq()[i]).0,
                    ) && self.relics@[*it.seq()[i].0] == *it.seq()[i].1,
                forall|i: int| 0 <= i < uids.len() ==> uids[i] == *(#[trigger] it.seq()[i]).0,
                uids.no_duplicates(),
                forall|i: int|
                    0 <= i < uids.len() ==> self.relics@.contains_key(#[trigger] uids[i])
                        && relic_exported(self.relics@[uids[i]], out@[i]),
        {
            proof {
                let n = uids.len() as int;
                assert(*it.seq()[n].0 == *uid);
                assert forall|i: int| 0 <= i < n implies uids[i] != *uid by {
                    if uids[i] == *uid {
                        assert(it.seq()[i] == it.seq()[n]);
                    }
                }
                assert(relic_rolls_fit(self.relics@[*uid]));
                uids = uids.push(*uid);
            }
            out.push(ReliquaryRelic::from(relic));
        }
        assert(uids.len() == out@.len());
        out
    }

    /// Copies of all recorded relics, one per UID, in the order the table
    /// hands them out.
    pub fn snapshot(&self) -> (r: Vec<Relic>)
        requires
            self.wf(),
        ensures
            r@.len() == self.relics().len(),
            forall|i: int| 0 <= i < r@.len() ==> relic_rolls_fit(#[trigger] r@[i]),
            exists|uids: Seq<u32>|
                {
                    &&& uids.len() == r@.len()
                    &&& uids.no_duplicates()
                    &&& forall|i: int|
                        0 <= i < uids.len() ==> self.relics().contains_key(#[trigger] uids[i])
                            && same_relic(r@[i], self.relics()[uids[i]])
                },
    {
        let mut out: Vec<Relic> = Vec::new();
        let ghost mut uids: Seq<u32> = Seq::empty();
        for (uid, relic) in it: self.relics.iter()
            invariant
                self.wf(),
                out@.len() == it.index(),
                uids.len() == it.index(),
                it.seq().len() == self.relics@.dom().len(),
                it.seq().no_duplicates(),
                forall|i: int|
                    0 <= i < it.seq().len() ==> self.relics@.contains_key(
                        *(#[trigger] it.seq()[i]).0,
                    ) && self.relics@[*it.seq()[i].0] == *it.seq()[i].1,
                forall|i: int| 0 <= i < uids.len() ==> uids[i] == *(#[trigger] it.seq()[i]).0,
                uids.no_duplicates(),
                forall|i: int| 0 <= i < out@.len() ==> relic_rolls_fit(#[trigger] out@[i]),
                forall|i: int|
                    0 <= i < uids.len() ==> self.relics@.contains_key(#[trigger] uids[i])
                        && same_relic(out@[i], self.relics@[uids[i]]),
        {
            proof {
                let n = uids.len() as int;
                assert(*it.seq()[n].0 == *uid);
                assert forall|i: int| 0 <= i < n implies uids[i] != *uid by {
                    if uids[i] == *uid {
                        assert(it.seq()[i] == it.seq()[n]);
                    }
                }
                assert(relic_rolls_fit(self.relics@[*uid]));
                uids = uids.push(*uid);
            }
            out.push(relic.duplicate());
        }
        assert(uids.len() == out@.len());
        out
    }
}

/// Copies of all recorded relics, one per UID.
pub fn get_relics_snapshot(store: &RelicStore) -> (r: Vec<Relic>)
    requires
        store.wf(),
    ensures
        r@.len() == store.relics().len(),
        forall|i: int| 0 <= i < r@.len() ==> relic_rolls_fit(#[trigger] r@[i]),
        exists|uids: Seq<u32>|
            {
                &&& uids.len() == r@.len()
                &&& uids.no_duplicates()
                &&& forall|i: int|
                    0 <= i < uids.len() ==> store.relics().contains_key(#[trigger] uids[i])
                        && same_relic(r@[i], store.relics()[uids[i]])
            },
{
    store.snapshot()
}

/// After recording a relic under a UID, reading that UID gives it back, and
/// every other UID reads as before.
pub proof fn lemma_insert_then_get(before: Map<u32, Relic>, uid: u32, relic: Relic, other: u32)
    ensures
        before.insert(uid, relic).contains_key(uid),
        before.insert(uid, relic)[uid] == relic,
        other != uid ==> before.insert(uid, relic).contains_key(other) == before.contains_key(other),
        other != uid && before.contains_key(other) ==> before.insert(uid, relic)[other]
            == before[other],
{
}

} // verus!
