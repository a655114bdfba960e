//! Character loadouts received from the companion app: the stored list, the
//! replies to apply requests, and the routing of incoming messages.
use vstd::prelude::*;
use crate::text::{append_str, push_char};

verus! {

/// A named set of relics for one character.
#[derive(Debug)]
pub struct CharacterLoadout {
    pub avatar_id: u32,
    pub name: String,
    pub relic_uids: Vec<u32>,
}

/// A relic preset plan of a character.
#[derive(Debug)]
pub struct RelicPresetPlan {
    pub plan_uid: u32,
    pub relic_uids: Vec<u32>,
    pub plan_name: String,
    pub plan_score: String,
}

/// The reply sent back for a request.
#[derive(Debug)]
pub enum OutgoingMessage {
    LoadoutsUpdated { count: usize },
    Error { message: String },
}

/// `e` is the loadout of character `avatar_id` called `name`.
pub open spec fn key_matches(e: CharacterLoadout, avatar_id: u32, name: Seq<char>) -> bool {
    e.avatar_id == avatar_id && e.name@ == name
}

/// The loadouts of `s` other than those of (`avatar_id`, `name`), in order.
pub open spec fn without_key(s: Seq<CharacterLoadout>, avatar_id: u32, name: Seq<char>) -> Seq<
    CharacterLoadout,
>
    decreases s.len(),
{
    if s.len() == 0 {
        Seq::empty()
    } else {
        let rest = without_key(s.drop_last(), avatar_id, name);
        if key_matches(s.last(), avatar_id, name) {
            rest
        } else {
            rest.push(s.last())
        }
    }
}

/// The loadouts of `s` that belong to (`avatar_id`, `name`), in order.
pub open spec fn with_key(s: Seq<CharacterLoadout>, avatar_id: u32, name: Seq<char>) -> Seq<
    CharacterLoadout,
>
    decreases s.len(),
{
    if s.len() == 0 {
        Seq::empty()
    } else {
        let rest = with_key(s.drop_last(), avatar_id, name);
        if key_matches(s.last(), avatar_id, name) {
            rest.push(s.last())
        } else {
            rest
        }
    }
}

/// The last loadout of `s` that belongs to (`avatar_id`, `name`).
pub open spec fn last_with_key(s: Seq<CharacterLoadout>, avatar_id: u32, name: Seq<char>) -> Option<
    CharacterLoadout,
>
    decreases s.len(),
{
    if s.len() == 0 {
        None
    } else if key_matches(s.last(), avatar_id, name) {
        Some(s.last())
    } else {
        last_with_key(s.drop_last(), avatar_id, name)
    }
}

/// `existing` after `l` replaces every loadout with its character and name.
pub open spec fn merge_loadout(existing: Seq<CharacterLoadout>, l: CharacterLoadout) -> Seq<
    CharacterLoadout,
> {
    without_key(existing, l.avatar_id, l.name@).push(l)
}

/// `existing` after merging the loadouts of `batch` one after another.
pub open spec fn merge_loadouts(existing: Seq<CharacterLoadout>, batch: Seq<CharacterLoadout>) -> Seq<
    CharacterLoadout,
>
    decreases batch.len(),
{
    if batch.len() == 0 {
        existing
    } else {
        merge_loadout(merge_loadouts(existing, batch.drop_last()), batch.last())
    }
}

/// The stored list after `set_loadouts(batch)`: the first batch is stored as
/// it is; later batches are merged in.
pub open spec fn stored_after_set(before: Option<Seq<CharacterLoadout>>, batch: Seq<CharacterLoadout>) -> Seq<
    CharacterLoadout,
> {
    match before {
        None => batch,
        Some(existing) => merge_loadouts(existing, batch),
    }
}

/// No two loadouts of `s` share a character and a name.
pub open spec fn keys_distinct(s: Seq<CharacterLoadout>) -> bool {
    forall|avatar_id: u32, name: Seq<char>| #[trigger] with_key(s, avatar_id, name).len() <= 1
}

/// The loadouts received so far; nothing is stored before the first batch.
#[derive(Debug)]
pub struct LoadoutStore {
    loadouts: Vec<CharacterLoadout>,
    initialized: bool,
}

impl LoadoutStore {
    /// The stored loadouts, or `None` before the first batch.
    pub closed spec fn stored(&self) -> Option<Seq<CharacterLoadout>> {
        if self.initialized {
            Some(self.loadouts@)
        } else {
            None
        }
    }

    /// A store that has received nothing.
    pub fn new() -> (r: LoadoutStore)
        ensures
            r.stored() is None,
    {
        LoadoutStore { loadouts: Vec::new(), initialized: false }
    }

    /// The stored loadouts, or `None` before the first batch.
    pub fn loadouts(&self) -> (r: Option<&Vec<CharacterLoadout>>)
        ensures
            match r {
                Some(v) => self.stored() == Some(v@),
                None => self.stored() is None,
            },
    {
        if self.initialized {
            Some(&self.loadouts)
        } else {
            None
        }
    }
}

fn merge_one(existing: &mut Vec<CharacterLoadout>, l: CharacterLoadout)
    ensures
        final(existing)@ == merge_loadout(old(existing)@, l),
{
    let ghost orig = existing@;
    let n0 = existing.len();
    let mut kept: Vec<CharacterLoadout> = Vec::new();
    let mut j: usize = 0;
    while existing.len() > 0
        invariant
            j <= orig.len(),
            orig.len() == n0,
            existing@ == orig.skip(j as int),
            kept@ == without_key(orig.take(j as int), l.avatar_id, l.name@),
        decreases existing@.len(),
    {
        let e = existing.remove(0);
        proof {
            assert(orig.take(j + 1).drop_last() =~= orig.take(j as int));
            assert(orig.take(j + 1).last() == e);
            assert(orig.skip(j + 1) =~= orig.skip(j as int).remove(0));
        }
        let same = e.avatar_id == l.avatar_id && e.name == l.name;
        if !same {
            kept.push(e);
        }
        j = j + 1;
    }
    proof {
        assert(orig.take(j as int) =~= orig);
    }
    kept.push(l);
    *existing = kept;
}

/// Stores a batch of loadouts. The first batch is stored as it is; each
/// loadout of a later batch replaces the stored ones of its character and
/// name and goes to the end.
pub fn set_loadouts(store: &mut LoadoutStore, loadouts: Vec<CharacterLoadout>)
    ensures
        final(store).stored() == Some(stored_after_set(old(store).stored(), loadouts@)),
{
    if !store.initialized {
        store.loadouts = loadouts;
        store.initialized = true;
        return;
    }
    let ghost batch = loadouts@;
    let ghost before = store.loadouts@;
    let mut rest = loadouts;
    let n0 = rest.len();
    let mut k: usize = 0;
    while rest.len() > 0
        invariant
            store.initialized,
            k <= batch.len(),
            batch.len() == n0,
            rest@ == batch.skip(k as int),
            store.loadouts@ == merge_loadouts(before, batch.take(k as int)),
        decreases rest@.len(),
    {
        let l = rest.remove(0);
        proof {
            assert(batch.take(k + 1).drop_last() =~= batch.take(k as int));
            assert(batch.take(k + 1).last() == l);
            assert(batch.skip(k + 1) =~= batch.skip(k as int).remove(0));
        }
        merge_one(&mut store.loadouts, l);
        k = k + 1;
    }
    proof {
        assert(batch.take(k as int) =~= batch);
    }
}

proof fn lemma_with_key_without_key(
    s: Seq<CharacterLoadout>,
    a1: u32,
    n1: Seq<char>,
    a2: u32,
    n2: Seq<char>,
)
    ensures
        with_key(without_key(s, a1, n1), a2, n2) == (if a1 == a2 && n1 == n2 {
            Seq::<CharacterLoadout>::empty()
        } else {
            with_key(s, a2, n2)
        }),
    decreases s.len(),
{
    if s.len() > 0 {
        lemma_with_key_without_key(s.drop_last(), a1, n1, a2, n2);
        let rest = without_key(s.drop_last(), a1, n1);
        if !key_matches(s.last(), a1, n1) {
            assert(rest.push(s.last()).drop_last() =~= rest);
        }
    }
}

/// After merging a batch, the loadouts of any character and name are the
/// batch's last loadout for them, alone, when the batch has one, and
/// otherwise exactly those stored before.
pub proof fn lemma_merge_per_key(
    existing: Seq<CharacterLoadout>,
    batch: Seq<CharacterLoadout>,
    avatar_id: u32,
    name: Seq<char>,
)
    ensures
        with_key(merge_loadouts(existing, batch), avatar_id, name) == (match last_with_key(
            batch,
            avatar_id,
            name,
        ) {
            Some(l) => seq![l],
            None => with_key(existing, avatar_id, name),
        }),
    decreases batch.len(),
{
    if batch.len() > 0 {
        let l = batch.last();
        let prev = merge_loadouts(existing, batch.drop_last());
        lemma_merge_per_key(existing, batch.drop_last(), avatar_id, name);
        lemma_with_key_without_key(prev, l.avatar_id, l.name@, avatar_id, name);
        let w = without_key(prev, l.avatar_id, l.name@);
        assert(w.push(l).drop_last() =~= w);
        if key_matches(l, avatar_id, name) {
            assert(with_key(w, avatar_id, name) =~= Seq::<CharacterLoadout>::empty());
            assert(with_key(w.push(l), avatar_id, name) =~= seq![l]);
        }
    }
}

/// Merging keeps the stored loadouts free of two entries for the same
/// character and name.
pub proof fn lemma_merge_keeps_keys_distinct(
    existing: Seq<CharacterLoadout>,
    batch: Seq<CharacterLoadout>,
)
    requires
        keys_distinct(existing),
    ensures
        keys_distinct(merge_loadouts(existing, batch)),
{
    assert forall|avatar_id: u32, name: Seq<char>|
        #[trigger] with_key(merge_loadouts(existing, batch), avatar_id, name).len() <= 1 by {
        lemma_merge_per_key(existing, batch, avatar_id, name);
        assert(with_key(existing, avatar_id, name).len() <= 1);
    }
}

/// Some loadout of `batch` has the character and name of `l`.
pub open spec fn key_in_batch(l: CharacterLoadout, batch: Seq<CharacterLoadout>) -> bool {
    exists|i: int|
        0 <= i < batch.len() && key_matches(l, (#[trigger] batch[i]).avatar_id, batch[i].name@)
}

/// The loadouts of `s` whose character and name no loadout of `batch` has,
/// in order.
pub open spec fn drop_batch_keys(s: Seq<CharacterLoadout>, batch: Seq<CharacterLoadout>) -> Seq<
    CharacterLoadout,
>
    decreases s.len(),
{
    if s.len() == 0 {
        Seq::empty()
    } else {
        let rest = drop_batch_keys(s.drop_last(), batch);
        if key_in_batch(s.last(), batch) {
            rest
        } else {
            rest.push(s.last())
        }
    }
}

proof fn lemma_drop_empty_batch(s: Seq<CharacterLoadout>)
    ensures
        drop_batch_keys(s, Seq::empty()) == s,
    decreases s.len(),
{
    if s.len() > 0 {
        lemma_drop_empty_batch(s.drop_last());
        assert(s.drop_last().push(s.last()) =~= s);
    }
}

proof fn lemma_without_key_concat(
    s1: Seq<CharacterLoadout>,
    s2: Seq<CharacterLoadout>,
    avatar_id: u32,
    name: Seq<char>,
)
    ensures
        without_key(s1 + s2, avatar_id, name) == without_key(s1, avatar_id, name) + without_key(
            s2,
            avatar_id,
            name,
        ),
    decreases s2.len(),
{
    if s2.len() == 0 {
        assert(s1 + s2 =~= s1);
        assert(without_key(s1, avatar_id, name) + Seq::<CharacterLoadout>::empty() =~= without_key(
            s1,
            avatar_id,
            name,
        ));
    } else {
        lemma_without_key_concat(s1, s2.drop_last(), avatar_id, name);
        assert((s1 + s2).drop_last() =~= s1 + s2.drop_last());
        assert((s1 + s2).last() == s2.last());
        let a = without_key(s1, avatar_id, name);
        let b = without_key(s2.drop_last(), avatar_id, name);
        assert((a + b).push(s2.last()) =~= a + b.push(s2.last()));
    }
}

proof fn lemma_drop_batch_keys_concat(
    s1: Seq<CharacterLoadout>,
    s2: Seq<CharacterLoadout>,
    batch: Seq<CharacterLoadout>,
)
    ensures
        drop_batch_keys(s1 + s2, batch) == drop_batch_keys(s1, batch) + drop_batch_keys(s2, batch),
    decreases s2.len(),
{
    if s2.len() == 0 {
        assert(s1 + s2 =~= s1);
        assert(drop_batch_keys(s1, batch) + Seq::<CharacterLoadout>::empty() =~= drop_batch_keys(
            s1,
            batch,
        ));
    } else {
        lemma_drop_batch_keys_concat(s1, s2.drop_last(), batch);
        assert((s1 + s2).drop_last() =~= s1 + s2.drop_last());
        assert((s1 + s2).last() == s2.last());
        let a = drop_batch_keys(s1, batch);
        let b = drop_batch_keys(s2.drop_last(), batch);
        assert((a + b).push(s2.last()) =~= a + b.push(s2.last()));
    }
}

proof fn lemma_drop_one_more_key(s: Seq<CharacterLoadout>, batch: Seq<CharacterLoadout>, l: CharacterLoadout)
    ensures
        without_key(drop_batch_keys(s, batch), l.avatar_id, l.name@) == drop_batch_keys(
            s,
            batch.push(l),
        ),
    decreases s.len(),
{
    if s.len() > 0 {
        lemma_drop_one_more_key(s.drop_last(), batch, l);
        let x = s.last();
        let nb = batch.push(l);
        let rest = drop_batch_keys(s.drop_last(), batch);
        if key_in_batch(x, batch) {
            let i = choose|i: int|
                0 <= i < batch.len() && key_matches(x, (#[trigger] batch[i]).avatar_id, batch[i].name@);
            assert(nb[i] == batch[i]);
            assert(key_in_batch(x, nb));
        } else {
            assert(rest.push(x).drop_last() =~= rest);
            if key_matches(x, l.avatar_id, l.name@) {
                assert(nb[batch.len() as int] == l);
                assert(key_in_batch(x, nb));
            } else {
                if key_in_batch(x, nb) {
                    let i = choose|i: int|
                        0 <= i < nb.len() && key_matches(x, (#[trigger] nb[i]).avatar_id, nb[i].name@);
                    assert(i < batch.len());
                    assert(batch[i] == nb[i]);
                }
            }
        }
    }
}

/// Merging a batch keeps the stored loadouts whose character and name the
/// batch does not have, in order, followed by the batch merged into nothing.
pub proof fn lemma_merge_splits(existing: Seq<CharacterLoadout>, batch: Seq<CharacterLoadout>)
    ensures
        merge_loadouts(existing, batch) == drop_batch_keys(existing, batch) + merge_loadouts(
            Seq::empty(),
            batch,
        ),
    decreases batch.len(),
{
    if batch.len() == 0 {
        lemma_drop_empty_batch(existing);
        assert(batch =~= Seq::<CharacterLoadout>::empty());
        assert(existing + Seq::<CharacterLoadout>::empty() =~= existing);
    } else {
        let l = batch.last();
        let prev = batch.drop_last();
        lemma_merge_splits(existing, prev);
        let d = drop_batch_keys(existing, prev);
        let m = merge_loadouts(Seq::empty(), prev);
        lemma_without_key_concat(d, m, l.avatar_id, l.name@);
        lemma_drop_one_more_key(existing, prev, l);
        assert(prev.push(l) =~= batch);
        let wd = without_key(d, l.avatar_id, l.name@);
        let wm = without_key(m, l.avatar_id, l.name@);
        assert(batch.drop_last() == prev);
        assert(merge_loadouts(existing, batch) == merge_loadout(merge_loadouts(existing, prev), l));
        assert(merge_loadouts(Seq::empty(), batch) == merge_loadout(m, l));
        assert(merge_loadout(m, l) == wm.push(l));
        assert(merge_loadout(d + m, l) == (wd + wm).push(l));
        assert(drop_batch_keys(existing, batch) == wd);
        assert((wd + wm).push(l) =~= wd + wm.push(l));
    }
}

proof fn lemma_without_key_subset(s: Seq<CharacterLoadout>, avatar_id: u32, name: Seq<char>, i: int)
    requires
        0 <= i < without_key(s, avatar_id, name).len(),
    ensures
        exists|j: int| 0 <= j < s.len() && s[j] == without_key(s, avatar_id, name)[i],
    decreases s.len(),
{
    let rest = without_key(s.drop_last(), avatar_id, name);
    if i < rest.len() {
        lemma_without_key_subset(s.drop_last(), avatar_id, name, i);
        let j = choose|j: int| 0 <= j < s.drop_last().len() && s.drop_last()[j] == rest[i];
        assert(s[j] == s.drop_last()[j]);
    } else {
        assert(s[s.len() - 1] == s.last());
    }
}

proof fn lemma_merged_keys_in_batch(batch: Seq<CharacterLoadout>, i: int)
    requires
        0 <= i < merge_loadouts(Seq::empty(), batch).len(),
    ensures
        key_in_batch(merge_loadouts(Seq::empty(), batch)[i], batch),
    decreases batch.len(),
{
    let l = batch.last();
    let prev = batch.drop_last();
    let m = merge_loadouts(Seq::empty(), prev);
    let w = without_key(m, l.avatar_id, l.name@);
    let x = merge_loadouts(Seq::empty(), batch)[i];
    if i < w.len() {
        lemma_without_key_subset(m, l.avatar_id, l.name@, i);
        let j = choose|j: int| 0 <= j < m.len() && m[j] == w[i];
        lemma_merged_keys_in_batch(prev, j);
        let k = choose|k: int|
            0 <= k < prev.len() && key_matches(m[j], (#[trigger] prev[k]).avatar_id, prev[k].name@);
        assert(batch[k] == prev[k]);
    } else {
        assert(batch[batch.len() - 1] == l);
    }
}

proof fn lemma_drop_all_in_batch(s: Seq<CharacterLoadout>, batch: Seq<CharacterLoadout>)
    requires
        forall|i: int| 0 <= i < s.len() ==> key_in_batch(#[trigger] s[i], batch),
    ensures
        drop_batch_keys(s, batch) == Seq::<CharacterLoadout>::empty(),
    decreases s.len(),
{
    if s.len() > 0 {
        assert forall|i: int| 0 <= i < s.drop_last().len() implies key_in_batch(
            #[trigger] s.drop_last()[i],
            batch,
        ) by {
            assert(s.drop_last()[i] == s[i]);
        }
        lemma_drop_all_in_batch(s.drop_last(), batch);
        assert(key_in_batch(s[s.len() - 1], batch));
    }
}

proof fn lemma_drop_batch_keys_twice(s: Seq<CharacterLoadout>, batch: Seq<CharacterLoadout>)
    ensures
        drop_batch_keys(drop_batch_keys(s, batch), batch) == drop_batch_keys(s, batch),
    decreases s.len(),
{
    if s.len() > 0 {
        lemma_drop_batch_keys_twice(s.drop_last(), batch);
        let rest = drop_batch_keys(s.drop_last(), batch);
        if !key_in_batch(s.last(), batch) {
            assert(rest.push(s.last()).drop_last() =~= rest);
        }
    }
}

/// Storing the same batch again, into a store that already holds loadouts,
/// changes nothing.
pub proof fn lemma_merge_idempotent(existing: Seq<CharacterLoadout>, batch: Seq<CharacterLoadout>)
    ensures
        merge_loadouts(merge_loadouts(existing, batch), batch) == merge_loadouts(existing, batch),
{
    let d = drop_batch_keys(existing, batch);
    let m = merge_loadouts(Seq::empty(), batch);
    lemma_merge_splits(existing, batch);
    lemma_merge_splits(d + m, batch);
    lemma_drop_batch_keys_concat(d, m, batch);
    lemma_drop_batch_keys_twice(existing, batch);
    assert forall|i: int| 0 <= i < m.len() implies key_in_batch(#[trigger] m[i], batch) by {
        lemma_merged_keys_in_batch(batch, i);
    }
    lemma_drop_all_in_batch(m, batch);
    assert(d + Seq::<CharacterLoadout>::empty() =~= d);
}

/// Once loadouts are stored, storing a batch twice leaves the same loadouts
/// as storing it once.
pub proof fn lemma_set_loadouts_twice(existing: Seq<CharacterLoadout>, batch: Seq<CharacterLoadout>)
    ensures
        stored_after_set(Some(stored_after_set(Some(existing), batch)), batch) == stored_after_set(
            Some(existing),
            batch,
        ),
{
    lemma_merge_idempotent(existing, batch);
}

/// The sum of the successful counts in `outcomes`.
pub open spec fn ok_total(outcomes: Seq<Result<usize, String>>) -> int
    decreases outcomes.len(),
{
    if outcomes.len() == 0 {
        0
    } else {
        ok_total(outcomes.drop_last()) + match outcomes.last() {
            Ok(n) => n as int,
            Err(_) => 0,
        }
    }
}

/// The two characters `": "`.
pub open spec fn colon_space() -> Seq<char> {
    seq![':', ' ']
}

/// The two characters `"; "`.
pub open spec fn semicolon_space() -> Seq<char> {
    seq![';', ' ']
}

/// One `"{name}: {error}"` line per failed loadout, in order.
pub open spec fn error_lines(loadouts: Seq<CharacterLoadout>, outcomes: Seq<Result<usize, String>>) -> Seq<
    Seq<char>,
>
    decreases outcomes.len(),
{
    if outcomes.len() == 0 || loadouts.len() == 0 {
        Seq::empty()
    } else {
        let rest = error_lines(loadouts.drop_last(), outcomes.drop_last());
        match outcomes.last() {
            Ok(_) => rest,
            Err(e) => rest.push(loadouts.last().name@ + colon_space() + e@),
        }
    }
}

/// `lines` joined with `sep` between consecutive lines.
pub open spec fn join_lines(lines: Seq<Seq<char>>, sep: Seq<char>) -> Seq<char>
    decreases lines.len(),
{
    if lines.len() == 0 {
        Seq::empty()
    } else if lines.len() == 1 {
        lines[0]
    } else {
        join_lines(lines.drop_last(), sep) + sep + lines.last()
    }
}

/// The reply to an apply request for one loadout: the number of relics
/// equipped, or the error.
pub open spec fn single_reply(outcome: Result<usize, String>, reply: OutgoingMessage) -> bool {
    match outcome {
        Ok(n) => reply == (OutgoingMessage::LoadoutsUpdated { count: n }),
        Err(e) => reply == (OutgoingMessage::Error { message: e }),
    }
}

/// A request to apply one loadout is answered with the number of relics
/// equipped whenever equipping succeeded, zero included, and with the
/// error's text otherwise.
pub proof fn lemma_single_reply_exact(outcome: Result<usize, String>, reply: OutgoingMessage)
    requires
        single_reply(outcome, reply),
    ensures
        outcome matches Ok(n) ==> reply matches OutgoingMessage::LoadoutsUpdated { count } && count
            == n,
        outcome matches Err(e) ==> reply matches OutgoingMessage::Error { message } && message@
            == e@,
{
}

/// Stores `loadout` and answers the request to apply it; `outcome` is what
/// equipping its relics on its character gave (the number of relics
/// equipped, or the error's text).
pub fn handle_apply_loadout(
    store: &mut LoadoutStore,
    loadout: CharacterLoadout,
    outcome: Result<usize, String>,
) -> (r: OutgoingMessage)
    ensures
        final(store).stored() == Some(stored_after_set(old(store).stored(), seq![loadout])),
        single_reply(outcome, r),
        outcome matches Ok(n) ==> r == (OutgoingMessage::LoadoutsUpdated { count: n }),
{
    let mut batch: Vec<CharacterLoadout> = Vec::new();
    batch.push(loadout);
    proof {
        assert(batch@ =~= seq![loadout]);
    }
    set_loadouts(store, batch);
    match outcome {
        Ok(n) => OutgoingMessage::LoadoutsUpdated { count: n },
        Err(e) => OutgoingMessage::Error { message: e },
    }
}

/// The reply to an apply request for several loadouts: the total number of
/// relics equipped when all succeeded, else the failures joined by `"; "`.
pub open spec fn batch_reply(
    loadouts: Seq<CharacterLoadout>,
    outcomes: Seq<Result<usize, String>>,
    reply: OutgoingMessage,
) -> bool {
    let lines = error_lines(loadouts, outcomes);
    if lines.len() == 0 {
        reply == (OutgoingMessage::LoadoutsUpdated { count: ok_total(outcomes) as usize })
    } else {
        reply matches OutgoingMessage::Error { message } && message@ == join_lines(
            lines,
            semicolon_space(),
        )
    }
}

/// Stores `loadouts` and answers the request to apply them; `outcomes[i]` is
/// what equipping the relics of `loadouts[i]` gave.
pub fn handle_apply_loadouts(
    store: &mut LoadoutStore,
    loadouts: Vec<CharacterLoadout>,
    outcomes: Vec<Result<usize, String>>,
) -> (r: OutgoingMessage)
    requires
        outcomes@.len() == loadouts@.len(),
        ok_total(outcomes@) <= usize::MAX,
    ensures
        final(store).stored() == Some(stored_after_set(old(store).stored(), loadouts@)),
        batch_reply(loadouts@, outcomes@, r),
        (forall|i: int| 0 <= i < outcomes@.len() ==> (#[trigger] outcomes@[i]) is Ok) ==> r
            == (OutgoingMessage::LoadoutsUpdated { count: ok_total(outcomes@) as usize }),
        (exists|i: int| 0 <= i < outcomes@.len() && (#[trigger] outcomes@[i]) is Err) ==> r is Error,
{
    let mut total: usize = 0;
    let mut message = String::new();
    let mut failures: usize = 0;
    let mut i: usize = 0;
    while i < outcomes.len()
        invariant
            outcomes@.len() == loadouts@.len(),
            ok_total(outcomes@) <= usize::MAX,
            i <= outcomes@.len(),
            failures <= i,
            total == ok_total(outcomes@.take(i as int)),
            failures == error_lines(loadouts@.take(i as int), outcomes@.take(i as int)).len(),
            message@ == join_lines(
                error_lines(loadouts@.take(i as int), outcomes@.take(i as int)),
                semicolon_space(),
            ),
        decreases outcomes@.len() - i,
    {
        proof {
            assert(outcomes@.take(i + 1).drop_last() =~= outcomes@.take(i as int));
            assert(loadouts@.take(i + 1).drop_last() =~= loadouts@.take(i as int));
            lemma_ok_total_prefix(outcomes@, i + 1);
        }
        match &outcomes[i] {
            Ok(n) => {
                total = total + *n;
            },
            Err(e) => {
                let ghost prev = message@;
                let mut line = loadouts[i].name.clone();
                push_char(&mut line, ':');
                push_char(&mut line, ' ');
                append_str(&mut line, e.as_str());
                if failures > 0 {
                    push_char(&mut message, ';');
                    push_char(&mut message, ' ');
                }
                append_str(&mut message, line.as_str());
                proof {
                    let lines = error_lines(loadouts@.take(i as int), outcomes@.take(i as int));
                    let l = loadouts@[i as int].name@ + colon_space() + e@;
                    assert(line@ =~= l);
                    if failures > 0 {
                        assert(message@ =~= join_lines(lines, semicolon_space())
                            + semicolon_space() + l);
                        assert(lines.push(l).drop_last() =~= lines);
                    } else {
                        assert(message@ =~= l);
                    }
                }
                failures = failures + 1;
            },
        }
        i = i + 1;
    }
    proof {
        assert(outcomes@.take(i as int) =~= outcomes@);
        assert(loadouts@.take(i as int) =~= loadouts@);
    }
    let ghost ls = loadouts@;
    set_loadouts(store, loadouts);
    let reply = if failures == 0 {
        OutgoingMessage::LoadoutsUpdated { count: total }
    } else {
        OutgoingMessage::Error { message }
    };
    proof {
        lemma_batch_reply_outcomes(ls, outcomes@, reply);
    }
    reply
}

proof fn lemma_no_error_lines_when_all_ok(
    loadouts: Seq<CharacterLoadout>,
    outcomes: Seq<Result<usize, String>>,
)
    requires
        forall|i: int| 0 <= i < outcomes.len() ==> (#[trigger] outcomes[i]) is Ok,
    ensures
        error_lines(loadouts, outcomes).len() == 0,
    decreases outcomes.len(),
{
    if outcomes.len() > 0 && loadouts.len() > 0 {
        assert forall|i: int| 0 <= i < outcomes.drop_last().len() implies (
        #[trigger] outcomes.drop_last()[i]) is Ok by {
            assert(outcomes.drop_last()[i] == outcomes[i]);
        }
        lemma_no_error_lines_when_all_ok(loadouts.drop_last(), outcomes.drop_last());
        assert(outcomes[outcomes.len() - 1] is Ok);
    }
}

proof fn lemma_error_lines_when_some_err(
    loadouts: Seq<CharacterLoadout>,
    outcomes: Seq<Result<usize, String>>,
    k: int,
)
    requires
        outcomes.len() == loadouts.len(),
        0 <= k < outcomes.len(),
        outcomes[k] is Err,
    ensures
        error_lines(loadouts, outcomes).len() > 0,
    decreases outcomes.len(),
{
    if k < outcomes.len() - 1 {
        assert(outcomes.drop_last()[k] == outcomes[k]);
        lemma_error_lines_when_some_err(loadouts.drop_last(), outcomes.drop_last(), k);
    }
}

/// A request to apply several loadouts is answered with the total number of
/// relics equipped when every one succeeded (zero included), and with an
/// error as soon as one failed.
pub proof fn lemma_batch_reply_outcomes(
    loadouts: Seq<CharacterLoadout>,
    outcomes: Seq<Result<usize, String>>,
    reply: OutgoingMessage,
)
    requires
        outcomes.len() == loadouts.len(),
        batch_reply(loadouts, outcomes, reply),
    ensures
        (forall|i: int| 0 <= i < outcomes.len() ==> (#[trigger] outcomes[i]) is Ok) ==> reply
            == (OutgoingMessage::LoadoutsUpdated { count: ok_total(outcomes) as usize }),
        (exists|i: int| 0 <= i < outcomes.len() && (#[trigger] outcomes[i]) is Err) ==> reply
            is Error,
{
    if forall|i: int| 0 <= i < outcomes.len() ==> (#[trigger] outcomes[i]) is Ok {
        lemma_no_error_lines_when_all_ok(loadouts, outcomes);
    }
    if exists|i: int| 0 <= i < outcomes.len() && (#[trigger] outcomes[i]) is Err {
        let k = choose|i: int| 0 <= i < outcomes.len() && (#[trigger] outcomes[i]) is Err;
        lemma_error_lines_when_some_err(loadouts, outcomes, k);
    }
}

/// Applying a single loadout as a batch of one gives the same answer as
/// applying it alone when it succeeds, and the error prefixed by the
/// loadout's name when it fails.
pub proof fn lemma_batch_of_one(
    loadout: CharacterLoadout,
    outcome: Result<usize, String>,
    single: OutgoingMessage,
    batch: OutgoingMessage,
)
    requires
        single_reply(outcome, single),
        batch_reply(seq![loadout], seq![outcome], batch),
    ensures
        outcome is Ok ==> batch == single,
        outcome matches Err(e) ==> batch matches OutgoingMessage::Error { message } && message@
            == loadout.name@ + colon_space() + e@,
{
    let ls = seq![loadout];
    let os = seq![outcome];
    assert(ls.drop_last() =~= Seq::<CharacterLoadout>::empty());
    assert(os.drop_last() =~= Seq::<Result<usize, String>>::empty());
    assert(error_lines(Seq::<CharacterLoadout>::empty(), Seq::<Result<usize, String>>::empty()).len() == 0);
    assert(ok_total(Seq::<Result<usize, String>>::empty()) == 0);
    assert(ok_total(os) == ok_total(os.drop_last()) + match outcome {
        Ok(n) => n as int,
        Err(_) => 0,
    });
}

/// Appending one more loadout to an apply request: a success adds its count
/// to an all-successful answer and leaves an error answer as it was; a
/// failure turns the answer into an error that ends with `"{name}: {error}"`,
/// after the earlier errors and `"; "` if there were any.
pub proof fn lemma_batch_reply_extend(
    loadouts: Seq<CharacterLoadout>,
    outcomes: Seq<Result<usize, String>>,
    loadout: CharacterLoadout,
    outcome: Result<usize, String>,
    before: OutgoingMessage,
    after: OutgoingMessage,
)
    requires
        outcomes.len() == loadouts.len(),
        batch_reply(loadouts, outcomes, before),
        batch_reply(loadouts.push(loadout), outcomes.push(outcome), after),
    ensures
        outcome matches Ok(n) ==> {
            &&& before matches OutgoingMessage::Error { message: m } ==> after matches OutgoingMessage::Error {
                message,
            } && message@ == m@
            &&& before is LoadoutsUpdated ==> after == (OutgoingMessage::LoadoutsUpdated {
                count: (ok_total(outcomes) + n) as usize,
            })
        },
        outcome matches Err(e) ==> after matches OutgoingMessage::Error { message } && {
            &&& before is LoadoutsUpdated ==> message@ == loadout.name@ + colon_space() + e@
            &&& before matches OutgoingMessage::Error { message: m } ==> message@ == m@
                + semicolon_space() + loadout.name@ + colon_space() + e@
        },
{
    let ls = loadouts.push(loadout);
    let os = outcomes.push(outcome);
    assert(ls.drop_last() =~= loadouts);
    assert(os.drop_last() =~= outcomes);
    let lines = error_lines(loadouts, outcomes);
    match outcome {
        Ok(n) => {
            assert(error_lines(ls, os) == lines);
            assert(ok_total(os) == ok_total(os.drop_last()) + n);
        },
        Err(e) => {
            let x = loadout.name@ + colon_space() + e@;
            assert(error_lines(ls, os) == lines.push(x));
            assert(lines.push(x).drop_last() =~= lines);
            if lines.len() > 0 {
                assert(join_lines(lines.push(x), semicolon_space()) == join_lines(
                    lines,
                    semicolon_space(),
                ) + semicolon_space() + x);
            } else {
                assert(lines.push(x)[0] == x);
            }
        },
    }
}

proof fn lemma_ok_total_prefix(outcomes: Seq<Result<usize, String>>, k: int)
    requires
        0 <= k <= outcomes.len(),
    ensures
        0 <= ok_total(outcomes.take(k)) <= ok_total(outcomes),
    decreases outcomes.len(),
{
    if outcomes.len() > 0 {
        if k == outcomes.len() {
            assert(outcomes.take(k) =~= outcomes);
            lemma_ok_total_prefix(outcomes.drop_last(), k - 1);
            assert(outcomes.drop_last().take(k - 1) =~= outcomes.drop_last());
        } else {
            lemma_ok_total_prefix(outcomes.drop_last(), k);
            assert(outcomes.drop_last().take(k) =~= outcomes.take(k));
        }
    } else {
        assert(outcomes.take(k) =~= outcomes);
    }
}

} // verus!
