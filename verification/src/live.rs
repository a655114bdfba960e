//! The live-import events pushed to connected clients: relic and light-cone
//! updates, and the initial scan with the characters that wear something.
use vstd::prelude::*;
use crate::loadouts::LoadoutStore;
use crate::models::{
    LightCone, Relic, ReliquaryLightCone, ReliquaryRelic, light_cone_exported, relic_exported,
    relic_rolls_fit,
};
use crate::text::{
    decimal, decimal_string, lemma_lex_lt_total, lemma_lex_lt_transitive, lex_lt, str_eq, str_lt,
};
use vstd::string::*;

verus! {

/// The player's account data in an initial scan.
#[derive(Debug)]
pub struct LiveMetadata {
    pub uid: Option<u32>,
    pub trailblazer: Option<String>,
}

/// The player's currencies in an initial scan.
#[derive(Clone, Copy, Debug, PartialEq, Eq, Structural)]
pub struct LiveGachaFunds {
    pub stellar_jade: u32,
    pub oneric_shards: u32,
}

/// A character listed in an initial scan.
#[derive(Debug)]
pub struct LiveCharacter {
    pub id: String,
    pub name: String,
    pub path: String,
    pub level: u32,
    pub ascension: u32,
    pub eidolon: u32,
    pub ability_version: u32,
}

/// The full export sent when a client connects (its materials list is
/// always empty and is left out here).
#[derive(Debug)]
pub struct LiveExport {
    pub source: String,
    pub build: String,
    pub version: u32,
    pub metadata: LiveMetadata,
    pub gacha: LiveGachaFunds,
    pub light_cones: Vec<ReliquaryLightCone>,
    pub relics: Vec<ReliquaryRelic>,
    pub characters: Vec<LiveCharacter>,
}

/// An event pushed to connected clients.
#[derive(Debug)]
pub enum LiveImportEvent {
    InitialScan(LiveExport),
    UpdateRelics(Vec<ReliquaryRelic>),
    UpdateLightCones(Vec<ReliquaryLightCone>),
}

/// The event announcing changed relics; none for an empty list.
pub fn send_live_relic_update(relics: Vec<ReliquaryRelic>) -> (r: Option<LiveImportEvent>)
    ensures
        relics@.len() == 0 ==> r is None,
        relics@.len() > 0 ==> r == Some(LiveImportEvent::UpdateRelics(relics)),
{
    if relics.len() == 0 {
        return None;
    }
    Some(LiveImportEvent::UpdateRelics(relics))
}

/// The event announcing changed light cones; none for an empty list.
pub fn send_live_light_cone_update(light_cones: Vec<ReliquaryLightCone>) -> (r: Option<
    LiveImportEvent,
>)
    ensures
        light_cones@.len() == 0 ==> r is None,
        light_cones@.len() > 0 ==> r == Some(LiveImportEvent::UpdateLightCones(light_cones)),
{
    if light_cones.len() == 0 {
        return None;
    }
    Some(LiveImportEvent::UpdateLightCones(light_cones))
}

/// The character views of `ids`.
pub open spec fn id_views(ids: Seq<String>) -> Seq<Seq<char>> {
    ids.map_values(|s: String| s@)
}

/// Each id sorts strictly before the next.
pub open spec fn strictly_sorted(ids: Seq<Seq<char>>) -> bool {
    forall|i: int, j: int| 0 <= i < j < ids.len() ==> lex_lt(#[trigger] ids[i], #[trigger] ids[j])
}

/// Adds `id` to the sorted, duplicate-free `ids`.
fn insert_sorted(ids: &mut Vec<String>, id: String)
    requires
        strictly_sorted(id_views(old(ids)@)),
    ensures
        strictly_sorted(id_views(final(ids)@)),
        id_views(final(ids)@).to_set() == id_views(old(ids)@).to_set().insert(id@),
{
    let ghost old_views = id_views(ids@);
    let mut p: usize = 0;
    while p < ids.len() && str_lt(ids[p].as_str(), id.as_str())
        invariant
            p <= ids@.len(),
            ids@ == old(ids)@,
            forall|i: int| 0 <= i < p ==> lex_lt(#[trigger] ids@[i]@, id@),
        decreases ids@.len() - p,
    {
        p = p + 1;
    }
    if p < ids.len() && str_eq(ids[p].as_str(), id.as_str()) {
        proof {
            assert(old_views[p as int] == id@);
            assert(old_views.to_set().insert(id@) =~= old_views.to_set());
        }
        return;
    }
    proof {
        if p < ids@.len() {
            assert(!lex_lt(ids@[p as int]@, id@));
            lemma_lex_lt_total(ids@[p as int]@, id@);
            assert(lex_lt(id@, ids@[p as int]@));
            assert forall|j: int| p <= j < old_views.len() implies lex_lt(id@, old_views[j]) by {
                if j > p {
                    assert(lex_lt(old_views[p as int], old_views[j]));
                    lemma_lex_lt_transitive(id@, old_views[p as int], old_views[j]);
                }
            }
        }
    }
    ids.insert(p, id);
    proof {
        let nv = id_views(ids@);
        assert(nv =~= old_views.insert(p as int, id@));
        assert forall|i: int, j: int| 0 <= i < j < nv.len() implies lex_lt(
            #[trigger] nv[i],
            #[trigger] nv[j],
        ) by {
            if j < p {
                assert(nv[i] == old_views[i] && nv[j] == old_views[j]);
            } else if j == p {
                assert(nv[i] == old_views[i]);
            } else if i == p {
                assert(nv[j] == old_views[j - 1]);
            } else if i < p {
                assert(nv[i] == old_views[i] && nv[j] == old_views[j - 1]);
                assert(lex_lt(old_views[i], id@));
                lemma_lex_lt_transitive(old_views[i], id@, old_views[j - 1]);
            } else {
                assert(nv[i] == old_views[i - 1] && nv[j] == old_views[j - 1]);
            }
        }
        assert forall|x: Seq<char>| nv.to_set().contains(x) <==> old_views.to_set().insert(
            id@,
        ).contains(x) by {
            if nv.to_set().contains(x) {
                let k = choose|k: int| 0 <= k < nv.len() && nv[k] == x;
                if k < p {
                    assert(old_views[k] == x);
                } else if k > p {
                    assert(old_views[k - 1] == x);
                }
            }
            if old_views.to_set().contains(x) {
                let k = choose|k: int| 0 <= k < old_views.len() && old_views[k] == x;
                if k < p {
                    assert(nv[k] == x);
                } else {
                    assert(nv[k + 1] == x);
                }
            }
            if x == id@ {
                assert(nv[p as int] == x);
            }
        }
        assert(nv.to_set() =~= old_views.to_set().insert(id@));
    }
}

/// The ids of the characters that wear an exported relic or light cone or
/// have a stored loadout: non-empty locations, and the decimal character id
/// of each stored loadout.
pub open spec fn character_id_set(
    relics: Seq<ReliquaryRelic>,
    light_cones: Seq<ReliquaryLightCone>,
    loadout_avatars: Seq<u32>,
) -> Set<Seq<char>> {
    Set::new(
        |s: Seq<char>|
            (s.len() > 0 && exists|i: int|
                0 <= i < relics.len() && (#[trigger] relics[i]).location@ == s) || (s.len() > 0
                && exists|i: int|
                0 <= i < light_cones.len() && (#[trigger] light_cones[i]).location@ == s) || (
            exists|i: int|
                0 <= i < loadout_avatars.len() && decimal((#[trigger] loadout_avatars[i]) as nat)
                    == s),
    )
}

/// The character ids of the stored loadouts, or none before the first batch.
pub open spec fn stored_avatars(store: LoadoutStore) -> Seq<u32> {
    match store.stored() {
        Some(ls) => ls.map_values(|l: crate::loadouts::CharacterLoadout| l.avatar_id),
        None => Seq::empty(),
    }
}

/// The sorted, duplicate-free ids of the characters that wear something or
/// have a stored loadout.
pub fn character_ids(
    relics: &Vec<ReliquaryRelic>,
    light_cones: &Vec<ReliquaryLightCone>,
    loadouts: &LoadoutStore,
) -> (r: Vec<String>)
    ensures
        strictly_sorted(id_views(r@)),
        id_views(r@).to_set() == character_id_set(relics@, light_cones@, stored_avatars(*loadouts)),
{
    let mut ids: Vec<String> = Vec::new();
    let ghost avatars = stored_avatars(*loadouts);
    proof {
        assert(id_views(ids@).to_set() =~= Set::empty());
    }
    let mut i: usize = 0;
    while i < relics.len()
        invariant
            i <= relics@.len(),
            strictly_sorted(id_views(ids@)),
            id_views(ids@).to_set() == character_id_set(
                relics@.take(i as int),
                Seq::empty(),
                Seq::empty(),
            ),
        decreases relics@.len() - i,
    {
        let ghost before = character_id_set(relics@.take(i as int), Seq::empty(), Seq::empty());
        let loc = &relics[i].location;
        if loc.as_str().unicode_len() > 0 {
            insert_sorted(&mut ids, loc.clone());
        }
        proof {
            let after = character_id_set(relics@.take(i + 1), Seq::empty(), Seq::empty());
            let l = relics@[i as int].location@;
            assert(relics@.take(i + 1)[i as int] == relics@[i as int]);
            assert forall|s: Seq<char>| after.contains(s) <==> (before.contains(s) || (s.len() > 0
                && s == l)) by {
                if after.contains(s) && !(s.len() > 0 && s == l) {
                    let k = choose|k: int|
                        0 <= k < i + 1 && (#[trigger] relics@.take(i + 1)[k]).location@ == s;
                    assert(relics@.take(i as int)[k] == relics@.take(i + 1)[k]);
                }
                if before.contains(s) {
                    let k = choose|k: int| 0 <= k < i && (#[trigger] relics@.take(i as int)[k]).location@ == s;
                    assert(relics@.take(i + 1)[k] == relics@.take(i as int)[k]);
                }
            }
            if l.len() > 0 {
                assert(after =~= before.insert(l));
            } else {
                assert(after =~= before);
            }
        }
        i = i + 1;
    }
    proof {
        assert(relics@.take(i as int) =~= relics@);
    }
    let mut j: usize = 0;
    while j < light_cones.len()
        invariant
            j <= light_cones@.len(),
            strictly_sorted(id_views(ids@)),
            id_views(ids@).to_set() == character_id_set(
                relics@,
                light_cones@.take(j as int),
                Seq::empty(),
            ),
        decreases light_cones@.len() - j,
    {
        let ghost before = character_id_set(relics@, light_cones@.take(j as int), Seq::empty());
        let loc = &light_cones[j].location;
        if loc.as_str().unicode_len() > 0 {
            insert_sorted(&mut ids, loc.clone());
        }
        proof {
            let after = character_id_set(relics@, light_cones@.take(j + 1), Seq::empty());
            let l = light_cones@[j as int].location@;
            assert(light_cones@.take(j + 1)[j as int] == light_cones@[j as int]);
            assert forall|s: Seq<char>| after.contains(s) <==> (before.contains(s) || (s.len() > 0
                && s == l)) by {
                if after.contains(s) && !(s.len() > 0 && s == l) && !(s.len() > 0 && exists|k: int|
                    0 <= k < relics@.len() && (#[trigger] relics@[k]).location@ == s) {
                    let k = choose|k: int|
                        0 <= k < j + 1 && (#[trigger] light_cones@.take(j + 1)[k]).location@ == s;
                    assert(light_cones@.take(j as int)[k] == light_cones@.take(j + 1)[k]);
                }
                if before.contains(s) && !(s.len() > 0 && exists|k: int|
                    0 <= k < relics@.len() && (#[trigger] relics@[k]).location@ == s) {
                    let k = choose|k: int|
                        0 <= k < j && (#[trigger] light_cones@.take(j as int)[k]).location@ == s;
                    assert(light_cones@.take(j + 1)[k] == light_cones@.take(j as int)[k]);
                }
            }
            if l.len() > 0 {
                assert(after =~= before.insert(l));
            } else {
                assert(after =~= before);
            }
        }
        j = j + 1;
    }
    proof {
        assert(light_cones@.take(j as int) =~= light_cones@);
    }
    match loadouts.loadouts() {
        Some(ls) => {
            let mut k: usize = 0;
            while k < ls.len()
                invariant
                    k <= ls@.len(),
                    avatars == ls@.map_values(|l: crate::loadouts::CharacterLoadout| l.avatar_id),
                    strictly_sorted(id_views(ids@)),
                    id_views(ids@).to_set() == character_id_set(
                        relics@,
                        light_cones@,
                        avatars.take(k as int),
                    ),
                decreases ls@.len() - k,
            {
                let ghost before = character_id_set(relics@, light_cones@, avatars.take(k as int));
                let s = decimal_string(ls[k].avatar_id);
                insert_sorted(&mut ids, s);
                proof {
                    let after = character_id_set(relics@, light_cones@, avatars.take(k + 1));
                    let d = decimal(ls@[k as int].avatar_id as nat);
                    assert(avatars.take(k + 1)[k as int] == ls@[k as int].avatar_id);
                    assert forall|x: Seq<char>| after.contains(x) <==> (before.contains(x) || x
                        == d) by {
                        if after.contains(x) && x != d {
                            if exists|m: int|
                                0 <= m < k + 1 && decimal((#[trigger] avatars.take(k + 1)[m]) as nat) == x {
                                let m = choose|m: int|
                                    0 <= m < k + 1 && decimal((#[trigger] avatars.take(k + 1)[m]) as nat) == x;
                                assert(avatars.take(k as int)[m] == avatars.take(k + 1)[m]);
                            }
                        }
                        if before.contains(x) {
                            if exists|m: int|
                                0 <= m < k && decimal((#[trigger] avatars.take(k as int)[m]) as nat) == x {
                                let m = choose|m: int|
                                    0 <= m < k && decimal((#[trigger] avatars.take(k as int)[m]) as nat) == x;
                                assert(avatars.take(k + 1)[m] == avatars.take(k as int)[m]);
                            }
                        }
                    }
                    assert(after =~= before.insert(d));
                }
                k = k + 1;
            }
            proof {
                assert(avatars.take(k as int) =~= avatars);
            }
        },
        None => {
            proof {
                assert(avatars =~= Seq::<u32>::empty());
                assert(avatars.take(0) =~= avatars);
            }
        },
    }
    ids
}

/// `c` is the scan entry of the character `id`, listed with placeholder
/// details.
pub open spec fn character_entry(id: Seq<char>, c: LiveCharacter) -> bool {
    &&& c.id@ == id
    &&& c.name@ == "Unknown"@
    &&& c.path@ == "Unknown"@
    &&& c.level == 80
    &&& c.ascension == 6
    &&& c.eidolon == 0
    &&& c.ability_version == 0
}

/// One scan entry per character id, in order.
pub fn build_characters_from_equipment(
    relics: &Vec<ReliquaryRelic>,
    light_cones: &Vec<ReliquaryLightCone>,
    loadouts: &LoadoutStore,
) -> (r: Vec<LiveCharacter>)
    ensures
        strictly_sorted(r@.map_values(|c: LiveCharacter| c.id@)),
        r@.map_values(|c: LiveCharacter| c.id@).to_set() == character_id_set(
            relics@,
            light_cones@,
            stored_avatars(*loadouts),
        ),
        forall|i: int| 0 <= i < r@.len() ==> character_entry(r@[i].id@, #[trigger] r@[i]),
{
    let ids = character_ids(relics, light_cones, loadouts);
    let mut out: Vec<LiveCharacter> = Vec::new();
    let mut i: usize = 0;
    while i < ids.len()
        invariant
            i <= ids@.len(),
            out@.len() == i,
            forall|j: int| 0 <= j < i ==> (#[trigger] out@[j]).id@ == ids@[j]@,
            forall|j: int| 0 <= j < i ==> character_entry(out@[j].id@, #[trigger] out@[j]),
        decreases ids@.len() - i,
    {
        out.push(
            LiveCharacter {
                id: ids[i].clone(),
                name: String::from_str("Unknown"),
                path: String::from_str("Unknown"),
                level: 80,
                ascension: 6,
                eidolon: 0,
                ability_version: 0,
            },
        );
        i = i + 1;
    }
    proof {
        assert(out@.map_values(|c: LiveCharacter| c.id@) =~= id_views(ids@));
    }
    out
}

/// `e` is the initial scan of the given records: their export forms, the
/// characters wearing them or holding loadouts, and fixed header fields.
pub open spec fn initial_scan_of(
    relics: Seq<Relic>,
    light_cones: Seq<LightCone>,
    loadouts: LoadoutStore,
    e: LiveImportEvent,
) -> bool {
    e matches LiveImportEvent::InitialScan(x) && {
        &&& x.source@ == "reliquary_archiver"@
        &&& x.build@ == "v0.8.0"@
        &&& x.version == 4
        &&& x.metadata.uid is None
        &&& x.metadata.trailblazer is None
        &&& x.gacha == LiveGachaFunds { stellar_jade: 0, oneric_shards: 0 }
        &&& x.relics@.len() == relics.len()
        &&& (forall|i: int| 0 <= i < relics.len() ==> relic_exported(relics[i], #[trigger] x.relics@[i]))
        &&& x.light_cones@.len() == light_cones.len()
        &&& (forall|i: int|
            0 <= i < light_cones.len() ==> light_cone_exported(light_cones[i], #[trigger] x.light_cones@[i]))
        &&& strictly_sorted(x.characters@.map_values(|c: LiveCharacter| c.id@))
        &&& x.characters@.map_values(|c: LiveCharacter| c.id@).to_set() == character_id_set(
            x.relics@,
            x.light_cones@,
            stored_avatars(loadouts),
        )
        &&& (forall|i: int|
            0 <= i < x.characters@.len() ==> character_entry(x.characters@[i].id@, #[trigger] x.characters@[i]))
    }
}

/// The initial scan sent to a client that connects.
pub fn build_initial_scan_event(
    relics: &Vec<Relic>,
    light_cones: &Vec<LightCone>,
    loadouts: &LoadoutStore,
) -> (r: LiveImportEvent)
    requires
        forall|i: int| 0 <= i < relics@.len() ==> relic_rolls_fit(#[trigger] relics@[i]),
    ensures
        initial_scan_of(relics@, light_cones@, *loadouts, r),
{
    let mut exported: Vec<ReliquaryRelic> = Vec::new();
    let mut i: usize = 0;
    while i < relics.len()
        invariant
            i <= relics@.len(),
            forall|j: int| 0 <= j < relics@.len() ==> relic_rolls_fit(#[trigger] relics@[j]),
            exported@.len() == i,
            forall|j: int| 0 <= j < i ==> relic_exported(relics@[j], #[trigger] exported@[j]),
        decreases relics@.len() - i,
    {
        exported.push(ReliquaryRelic::from(&relics[i]));
        i = i + 1;
    }
    let mut cones: Vec<ReliquaryLightCone> = Vec::new();
    let mut j: usize = 0;
    while j < light_cones.len()
        invariant
            j <= light_cones@.len(),
            cones@.len() == j,
            forall|k: int| 0 <= k < j ==> light_cone_exported(light_cones@[k], #[trigger] cones@[k]),
        decreases light_cones@.len() - j,
    {
        cones.push(ReliquaryLightCone::from(&light_cones[j]));
        j = j + 1;
    }
    let characters = build_characters_from_equipment(&exported, &cones, loadouts);
    LiveImportEvent::InitialScan(
        LiveExport {
            source: String::from_str("reliquary_archiver"),
            build: String::from_str("v0.8.0"),
            version: 4,
            metadata: LiveMetadata { uid: None, trailblazer: None },
            gacha: LiveGachaFunds { stellar_jade: 0, oneric_shards: 0 },
            light_cones: cones,
            relics: exported,
            characters,
        },
    )
}

} // verus!
