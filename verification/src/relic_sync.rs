//! Turning what the game reports about one relic into the recorded relic,
//! and recording it.
use vstd::prelude::*;
use crate::live::{LiveImportEvent, send_live_relic_update};
use crate::models::{
    RPG_GameCore_FixPoint, Relic, RelicMainStat, RelicRolls, RelicSubstat, ReliquaryRelic,
    StatValue, Substat, fixpoint_below_one, relic_exported, relic_rolls_fit, rolls_fit,
    substat_exported,
};
use crate::rolls::{
    all_splits, calc_initial_rolls, is_split, lemma_pick_is_max_high, lemma_pick_without_split,
    lemma_splits_sound, pick_low_mid_high, picked_split,
};
use crate::store::RelicStore;
use crate::text::{decimal, decimal_string, push_char};

verus! {

/// What the game reports about one substat of a relic.
#[derive(Debug)]
pub struct SubAffixReading {
    /// The display name of the substat's property.
    pub property_name: String,
    /// How many times the substat was rolled.
    pub count: i32,
    /// The summed tier of those rolls.
    pub step: i32,
    /// The substat's value.
    pub value: RPG_GameCore_FixPoint,
}

/// What the game reports about one relic.
#[derive(Debug)]
pub struct RelicReading {
    pub set_id: u32,
    /// The character wearing the relic; zero when nobody wears it.
    pub location: u32,
    pub lock: bool,
    pub discard: bool,
    pub uid: u32,
    pub rarity: u32,
    pub level: u32,
    pub set_name: String,
    pub main_stat_name: String,
    pub main_value: RPG_GameCore_FixPoint,
    pub slot_name: String,
    pub sub_affixes: Vec<SubAffixReading>,
}

/// `a + b`, clamped to the range of `i32`.
pub open spec fn saturating_add_i32(a: int, b: int) -> int {
    if a + b > i32::MAX {
        i32::MAX as int
    } else if a + b < i32::MIN {
        i32::MIN as int
    } else {
        a + b
    }
}

/// The roll counts of `subs` added up one after another, saturating at the
/// bounds of `i32`.
pub open spec fn total_count(subs: Seq<SubAffixReading>) -> int
    decreases subs.len(),
{
    if subs.len() == 0 {
        0
    } else {
        saturating_add_i32(total_count(subs.drop_last()), subs.last().count as int)
    }
}

/// The initial number of rolls recorded for a relic: none when its rolls
/// add up to nothing, else one less for every three levels.
pub open spec fn initial_rolls_of(reading: RelicReading) -> int {
    let total = total_count(reading.sub_affixes@);
    if total > 0 {
        total - reading.level / 3
    } else {
        0
    }
}

/// The game reading can be recorded: no roll count is the smallest `i32`,
/// and a relic with rolls lost no more rolls to levels than it has.
pub open spec fn reading_recordable(reading: RelicReading) -> bool {
    &&& forall|i: int|
        0 <= i < reading.sub_affixes@.len() ==> (#[trigger] reading.sub_affixes@[i]).count
            > i32::MIN
    &&& total_count(reading.sub_affixes@) > 0 ==> reading.level / 3 <= total_count(
        reading.sub_affixes@,
    )
}

/// Whether a game reading can be recorded.
pub fn is_recordable(reading: &RelicReading) -> (r: bool)
    ensures
        r == reading_recordable(*reading),
{
    let mut total: i32 = 0;
    let mut i: usize = 0;
    while i < reading.sub_affixes.len()
        invariant
            i <= reading.sub_affixes@.len(),
            total == total_count(reading.sub_affixes@.take(i as int)),
            forall|j: int| 0 <= j < i ==> (#[trigger] reading.sub_affixes@[j]).count > i32::MIN,
        decreases reading.sub_affixes@.len() - i,
    {
        proof {
            assert(reading.sub_affixes@.take(i + 1).drop_last() =~= reading.sub_affixes@.take(
                i as int,
            ));
        }
        let count = reading.sub_affixes[i].count;
        if count == i32::MIN {
            return false;
        }
        let sum: i64 = total as i64 + count as i64;
        total = if sum > 0x7fff_ffff {
            0x7fff_ffff
        } else if sum < -0x8000_0000 {
            -0x8000_0000
        } else {
            sum as i32
        };
        i = i + 1;
    }
    proof {
        assert(reading.sub_affixes@.take(i as int) =~= reading.sub_affixes@);
    }
    !(total > 0 && reading.level / 3 > total as u32)
}

/// `out` is the recorded form of the substat reading `sub`: a value below
/// one is shown as a percentage and marks the stat name with `%`; the rolls
/// are the split with the most high rolls; the added rolls are all but the
/// first.
pub open spec fn substat_recorded(sub: SubAffixReading, out: RelicSubstat) -> bool {
    let below = fixpoint_below_one(sub.value.m_rawValue);
    &&& out.stat@ == (if below {
        sub.property_name@.push('%')
    } else {
        sub.property_name@
    })
    &&& out.value == StatValue { fixed: sub.value, percent: below }
    &&& (out.rolls.low as int, out.rolls.mid as int, out.rolls.high as int) == picked_split(
        sub.step as int,
        sub.count as int,
    )
    &&& out.added_rolls == (if sub.count > 1 {
        sub.count - 1
    } else {
        0
    })
}

/// A recorded substat's low, mid and high rolls split the game's reading
/// whenever the reading can be split: they add up to the roll count, and
/// their tiers (mid 1, high 2) add up to the summed tier; no split of the
/// reading has more high rolls. A reading with no split is recorded with no
/// rolls. The added rolls are all rolls but the first.
pub proof fn lemma_recorded_rolls_split(sub: SubAffixReading, out: RelicSubstat, low: int, mid: int, high: int)
    requires
        substat_recorded(sub, out),
    ensures
        is_split(sub.step as int, sub.count as int, low, mid, high) ==> {
            &&& is_split(
                sub.step as int,
                sub.count as int,
                out.rolls.low as int,
                out.rolls.mid as int,
                out.rolls.high as int,
            )
            &&& out.rolls.low + out.rolls.mid + out.rolls.high == sub.count
            &&& out.rolls.mid + 2 * out.rolls.high == sub.step
            &&& high <= out.rolls.high
        },
        (forall|l: int, m: int, h: int| !is_split(sub.step as int, sub.count as int, l, m, h))
            ==> out.rolls == (RelicRolls { low: 0, mid: 0, high: 0 }),
        out.added_rolls == (if sub.count >= 1 { sub.count - 1 } else { 0 }),
{
    if is_split(sub.step as int, sub.count as int, low, mid, high) {
        lemma_pick_is_max_high(sub.step as int, sub.count as int, low, mid, high);
    }
    if forall|l: int, m: int, h: int| !is_split(sub.step as int, sub.count as int, l, m, h) {
        lemma_pick_without_split(sub.step as int, sub.count as int);
    }
}

/// A substat recorded from the game and then exported reports the game's
/// own roll count and summed tier whenever the reading can be split.
pub proof fn lemma_exported_counts_match_game(
    sub: SubAffixReading,
    rec: RelicSubstat,
    out: Substat,
    low: int,
    mid: int,
    high: int,
)
    requires
        substat_recorded(sub, rec),
        substat_exported(rec, out),
        is_split(sub.step as int, sub.count as int, low, mid, high),
    ensures
        out.count == sub.count,
        out.step == sub.step,
{
    lemma_recorded_rolls_split(sub, rec, low, mid, high);
}

/// Every substat of a recorded relic splits its reading whenever the reading
/// can be split.
pub proof fn lemma_relic_rolls_split(reading: RelicReading, relic: Relic, i: int, low: int, mid: int, high: int)
    requires
        relic_recorded(reading, relic),
        0 <= i < reading.sub_affixes@.len(),
        is_split(
            reading.sub_affixes@[i].step as int,
            reading.sub_affixes@[i].count as int,
            low,
            mid,
            high,
        ),
    ensures
        relic.substats@[i].rolls.low + relic.substats@[i].rolls.mid + relic.substats@[i].rolls.high
            == reading.sub_affixes@[i].count,
        relic.substats@[i].rolls.mid + 2 * relic.substats@[i].rolls.high
            == reading.sub_affixes@[i].step,
{
    lemma_recorded_rolls_split(reading.sub_affixes@[i], relic.substats@[i], low, mid, high);
}

/// `relic` is the recorded form of `reading`.
pub open spec fn relic_recorded(reading: RelicReading, relic: Relic) -> bool {
    &&& relic.part@ == reading.slot_name@
    &&& relic.set_id@ == decimal(reading.set_id as nat)
    &&& relic.set@ == reading.set_name@
    &&& relic.enhance == reading.level
    &&& relic.grade == reading.rarity
    &&& relic.main.stat@ == reading.main_stat_name@
    &&& relic.main.value == StatValue {
        fixed: reading.main_value,
        percent: fixpoint_below_one(reading.main_value.m_rawValue),
    }
    &&& relic.substats@.len() == reading.sub_affixes@.len()
    &&& forall|i: int|
        0 <= i < reading.sub_affixes@.len() ==> substat_recorded(
            reading.sub_affixes@[i],
            #[trigger] relic.substats@[i],
        )
    &&& relic.equipped_by@ == (if reading.location > 0 {
        decimal(reading.location as nat)
    } else {
        Seq::<char>::empty()
    })
    &&& relic.verified
    &&& relic.id@ == decimal(reading.uid as nat)
    &&& relic.age_index == reading.uid
    &&& relic.initial_rolls == initial_rolls_of(reading)
    &&& relic.lock == reading.lock
    &&& relic.discard == reading.discard
}

proof fn lemma_picked_rolls_fit(step: int, count: int)
    requires
        i32::MIN <= step <= i32::MAX,
        i32::MIN <= count <= i32::MAX,
    ensures
        ({
            let p = picked_split(step, count);
            &&& i32::MIN <= p.0 <= i32::MAX
            &&& i32::MIN <= p.1 <= i32::MAX
            &&& i32::MIN <= p.2 <= i32::MAX
            &&& rolls_fit(RelicRolls { low: p.0 as i32, mid: p.1 as i32, high: p.2 as i32 })
        }),
{
    let s = all_splits(step, count);
    if s.len() > 0 {
        lemma_splits_sound(step, count, s.len() - 1);
    }
}

/// The recorded substat of one substat reading.
fn record_substat(sub: &SubAffixReading) -> (r: RelicSubstat)
    requires
        sub.count > i32::MIN,
    ensures
        substat_recorded(*sub, r),
        rolls_fit(r.rolls),
{
    let below = sub.value.is_below_one();
    let mut stat = sub.property_name.clone();
    if below {
        push_char(&mut stat, '%');
    }
    let (low, mid, high) = pick_low_mid_high(sub.step, sub.count);
    proof {
        lemma_picked_rolls_fit(sub.step as int, sub.count as int);
    }
    let added_rolls = if sub.count - 1 > 0 { sub.count - 1 } else { 0 };
    RelicSubstat {
        stat,
        value: StatValue { fixed: sub.value, percent: below },
        rolls: RelicRolls { high, mid, low },
        added_rolls,
    }
}

/// The relic recorded for a game reading.
pub fn build_relic(reading: &RelicReading) -> (r: Relic)
    requires
        reading_recordable(*reading),
    ensures
        relic_recorded(*reading, r),
        relic_rolls_fit(r),
        forall|i: int, l: int, m: int, h: int|
            0 <= i < reading.sub_affixes@.len() && #[trigger] is_split(
                reading.sub_affixes@[i].step as int,
                reading.sub_affixes@[i].count as int,
                l,
                m,
                h,
            ) ==> r.substats@[i].rolls.low + r.substats@[i].rolls.mid + r.substats@[i].rolls.high
                == reading.sub_affixes@[i].count && r.substats@[i].rolls.mid + 2
                * r.substats@[i].rolls.high == reading.sub_affixes@[i].step,
{
    let mut substats: Vec<RelicSubstat> = Vec::new();
    let mut total: i32 = 0;
    let mut i: usize = 0;
    while i < reading.sub_affixes.len()
        invariant
            i <= reading.sub_affixes@.len(),
            reading_recordable(*reading),
            total == total_count(reading.sub_affixes@.take(i as int)),
            substats@.len() == i,
            forall|j: int|
                0 <= j < i ==> substat_recorded(
                    reading.sub_affixes@[j],
                    #[trigger] substats@[j],
                ),
            forall|j: int| 0 <= j < i ==> rolls_fit(#[trigger] substats@[j].rolls),
        decreases reading.sub_affixes@.len() - i,
    {
        let sub = &reading.sub_affixes[i];
        proof {
            assert(reading.sub_affixes@.take(i + 1).drop_last() =~= reading.sub_affixes@.take(
                i as int,
            ));
            assert(sub.count > i32::MIN);
        }
        let sum: i64 = total as i64 + sub.count as i64;
        total = if sum > 0x7fff_ffff {
            0x7fff_ffff
        } else if sum < -0x8000_0000 {
            -0x8000_0000
        } else {
            sum as i32
        };
        substats.push(record_substat(sub));
        i = i + 1;
    }
    proof {
        assert(reading.sub_affixes@.take(i as int) =~= reading.sub_affixes@);
    }
    let initial_rolls = if total > 0 {
        calc_initial_rolls(reading.level, total as u32)
    } else {
        0
    };
    let equipped_by = if reading.location > 0 {
        decimal_string(reading.location)
    } else {
        String::new()
    };
    let relic = Relic {
        part: reading.slot_name.clone(),
        set_id: decimal_string(reading.set_id),
        set: reading.set_name.clone(),
        enhance: reading.level,
        grade: reading.rarity,
        main: RelicMainStat {
            stat: reading.main_stat_name.clone(),
            value: StatValue::from_reading(reading.main_value),
        },
        substats,
        equipped_by,
        verified: true,
        id: decimal_string(reading.uid),
        age_index: reading.uid,
        initial_rolls,
        lock: reading.lock,
        discard: reading.discard,
    };
    proof {
        assert(relic_recorded(*reading, relic));
        assert forall|i: int, l: int, m: int, h: int|
            0 <= i < reading.sub_affixes@.len() && #[trigger] is_split(
                reading.sub_affixes@[i].step as int,
                reading.sub_affixes@[i].count as int,
                l,
                m,
                h,
            ) implies relic.substats@[i].rolls.low + relic.substats@[i].rolls.mid
            + relic.substats@[i].rolls.high == reading.sub_affixes@[i].count
            && relic.substats@[i].rolls.mid + 2 * relic.substats@[i].rolls.high
            == reading.sub_affixes@[i].step by {
            lemma_relic_rolls_split(*reading, relic, i, l, m, h);
        }
    }
    relic
}

/// Records a relic the game reports as changed, once the full relic list
/// has been received: the relic replaces the one recorded under its UID,
/// and the event announcing its export form is returned. Before the full
/// list has arrived nothing is recorded and no event is returned.
pub fn sync_relic(store: &mut RelicStore, reading: &RelicReading) -> (r: Option<LiveImportEvent>)
    requires
        old(store).wf(),
        old(store).is_ready() ==> reading_recordable(*reading),
    ensures
        final(store).wf(),
        final(store).is_ready() == old(store).is_ready(),
        !old(store).is_ready() ==> r is None && final(store).relics() == old(store).relics(),
        old(store).is_ready() ==> exists|relic: Relic|
            {
                &&& relic_recorded(*reading, relic)
                &&& final(store).relics() == old(store).relics().insert(reading.uid, relic)
                &&& r matches Some(LiveImportEvent::UpdateRelics(v)) && v@.len() == 1
                    && relic_exported(relic, v@[0])
            },
{
    if !store.is_initialized() {
        return None;
    }
    let relic = build_relic(reading);
    let live = ReliquaryRelic::from(&relic);
    let ghost recorded = relic;
    store.insert(reading.uid, relic);
    let mut batch: Vec<ReliquaryRelic> = Vec::new();
    batch.push(live);
    let event = send_live_relic_update(batch);
    proof {
        assert(relic_recorded(*reading, recorded));
    }
    event
}

} // verus!
