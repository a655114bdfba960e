//! The relic and light-cone records kept by the exporter, and their
//! conversion into the export format.
//!
//! Stat values are game fixed-point numbers; a [`StatValue`] holds the
//! fixed-point number together with whether it is shown as a percentage
//! (multiplied by one hundred), which determines the exported number exactly.
use vstd::prelude::*;
use crate::text::{replace_char, replace_char_spec, strip_suffix_char, strip_suffix_spec};

verus! {

/// A game fixed-point number: the 64-bit pattern of `m_rawValue`, read as
/// unsigned, counts units of 2^-32.
#[derive(Clone, Copy, Debug, PartialEq, Eq, Structural)]
pub struct RPG_GameCore_FixPoint {
    pub m_rawValue: i64,
}

/// The unsigned 64-bit pattern of a fixed-point raw value.
pub open spec fn fixpoint_units(raw: i64) -> nat {
    if raw >= 0 {
        raw as nat
    } else {
        (raw + 0x1_0000_0000_0000_0000) as nat
    }
}

/// The fixed-point number is below one: its integer part (the upper 32 bits)
/// is zero.
pub open spec fn fixpoint_below_one(raw: i64) -> bool {
    fixpoint_units(raw) < 0x1_0000_0000
}

impl RPG_GameCore_FixPoint {
    /// Whether the number is below one.
    pub fn is_below_one(&self) -> (r: bool)
        ensures
            r == fixpoint_below_one(self.m_rawValue),
    {
        self.m_rawValue >= 0 && self.m_rawValue < 0x1_0000_0000
    }
}

/// An exported stat value: the fixed-point number, scaled by one hundred
/// when `percent` is set.
#[derive(Clone, Copy, Debug, PartialEq, Eq, Structural)]
pub struct StatValue {
    pub fixed: RPG_GameCore_FixPoint,
    pub percent: bool,
}

impl StatValue {
    /// The stat value of a fixed-point reading: numbers below one are shown
    /// as percentages.
    pub fn from_reading(fixed: RPG_GameCore_FixPoint) -> (r: StatValue)
        ensures
            r.fixed == fixed,
            r.percent == fixpoint_below_one(fixed.m_rawValue),
    {
        StatValue { fixed, percent: fixed.is_below_one() }
    }
}

/// A substat in the export format.
#[derive(Debug)]
pub struct Substat {
    pub key: String,
    pub value: StatValue,
    pub count: i32,
    pub step: i32,
}

/// The main stat of a relic.
#[derive(Debug)]
pub struct RelicMainStat {
    pub stat: String,
    pub value: StatValue,
}

/// How many low, mid and high rolls a substat received.
#[derive(Clone, Copy, Debug, PartialEq, Eq, Structural)]
pub struct RelicRolls {
    pub high: i32,
    pub mid: i32,
    pub low: i32,
}

/// A relic substat as the exporter records it.
#[derive(Debug)]
pub struct RelicSubstat {
    pub stat: String,
    pub value: StatValue,
    pub rolls: RelicRolls,
    pub added_rolls: i32,
}

/// A relic as the exporter records it.
#[derive(Debug)]
pub struct Relic {
    pub part: String,
    pub set_id: String,
    pub set: String,
    pub enhance: u32,
    pub grade: u32,
    pub main: RelicMainStat,
    pub substats: Vec<RelicSubstat>,
    pub equipped_by: String,
    pub verified: bool,
    pub id: String,
    pub age_index: u32,
    pub initial_rolls: u32,
    pub lock: bool,
    pub discard: bool,
}

/// A relic in the export format.
#[derive(Debug)]
pub struct ReliquaryRelic {
    pub set_id: String,
    pub name: String,
    pub slot: String,
    pub rarity: u32,
    pub level: u32,
    pub mainstat: String,
    pub substats: Vec<Substat>,
    pub location: String,
    pub lock: bool,
    pub discard: bool,
    pub _uid: String,
}

/// A light cone as the exporter records it.
#[derive(Debug)]
pub struct LightCone {
    pub id: String,
    pub name: String,
    pub level: u32,
    pub promotion: u32,
    pub rank: u32,
    pub equipped_by: String,
    pub lock: bool,
    pub uid: String,
}

/// A light cone in the export format.
#[derive(Debug)]
pub struct ReliquaryLightCone {
    pub id: String,
    pub name: String,
    pub level: u32,
    pub ascension: u32,
    pub superimposition: u32,
    pub location: String,
    pub lock: bool,
    pub _uid: String,
}

/// The roll counts of `r` add up without leaving `i32`.
pub open spec fn rolls_fit(r: RelicRolls) -> bool {
    &&& i32::MIN <= r.low + r.mid <= i32::MAX
    &&& i32::MIN <= r.low + r.mid + r.high <= i32::MAX
    &&& i32::MIN <= 2 * r.high <= i32::MAX
    &&& i32::MIN <= r.mid + 2 * r.high <= i32::MAX
}

/// `a` and `b` hold the same relic: equal fields, and substat lists with
/// equal elements.
pub open spec fn same_relic(a: Relic, b: Relic) -> bool {
    &&& a.part == b.part
    &&& a.set_id == b.set_id
    &&& a.set == b.set
    &&& a.enhance == b.enhance
    &&& a.grade == b.grade
    &&& a.main == b.main
    &&& a.substats@ == b.substats@
    &&& a.equipped_by == b.equipped_by
    &&& a.verified == b.verified
    &&& a.id == b.id
    &&& a.age_index == b.age_index
    &&& a.initial_rolls == b.initial_rolls
    &&& a.lock == b.lock
    &&& a.discard == b.discard
}

/// `out` is the export form of `sub`: `%` in the stat name becomes `_`, the
/// count is the number of rolls and the step their summed tier.
pub open spec fn substat_exported(sub: RelicSubstat, out: Substat) -> bool {
    &&& out.key@ == replace_char_spec(sub.stat@, '%', '_')
    &&& out.value == sub.value
    &&& out.count == sub.rolls.low + sub.rolls.mid + sub.rolls.high
    &&& out.step == sub.rolls.mid + 2 * sub.rolls.high
}

/// The exported main-stat name: the stat name without one trailing `%`.
pub open spec fn mainstat_exported(stat: Seq<char>) -> Seq<char> {
    match strip_suffix_spec(stat, '%') {
        Some(base) => base,
        None => stat,
    }
}

/// `out` is the export form of `relic`.
pub open spec fn relic_exported(relic: Relic, out: ReliquaryRelic) -> bool {
    &&& out.set_id@ == relic.set_id@
    &&& out.name@ == relic.set@
    &&& out.slot@ == relic.part@
    &&& out.rarity == relic.grade
    &&& out.level == relic.enhance
    &&& out.mainstat@ == mainstat_exported(relic.main.stat@)
    &&& out.substats@.len() == relic.substats@.len()
    &&& forall|i: int|
        0 <= i < relic.substats@.len() ==> substat_exported(
            relic.substats@[i],
            #[trigger] out.substats@[i],
        )
    &&& out.location@ == relic.equipped_by@
    &&& out.lock == relic.lock
    &&& out.discard == relic.discard
    &&& out._uid@ == relic.id@
}

/// `out` is the export form of `lc`.
pub open spec fn light_cone_exported(lc: LightCone, out: ReliquaryLightCone) -> bool {
    &&& out.id@ == lc.id@
    &&& out.name@ == lc.name@
    &&& out.level == lc.level
    &&& out.ascension == lc.promotion
    &&& out.superimposition == lc.rank
    &&& out.location@ == lc.equipped_by@
    &&& out.lock == lc.lock
    &&& out._uid@ == lc.uid@
}

/// Every substat's roll counts add up within `i32`.
pub open spec fn relic_rolls_fit(relic: Relic) -> bool {
    forall|i: int| 0 <= i < relic.substats@.len() ==> rolls_fit(#[trigger] relic.substats@[i].rolls)
}

impl ReliquaryRelic {
    /// The export form of a recorded relic.
    pub fn from(relic: &Relic) -> (r: ReliquaryRelic)
        requires
            relic_rolls_fit(*relic),
        ensures
            relic_exported(*relic, r),
    {
        let mut substats: Vec<Substat> = Vec::new();
        let mut i: usize = 0;
        while i < relic.substats.len()
            invariant
                i <= relic.substats@.len(),
                relic_rolls_fit(*relic),
                substats@.len() == i,
                forall|j: int|
                    0 <= j < i ==> substat_exported(relic.substats@[j], #[trigger] substats@[j]),
            decreases relic.substats@.len() - i,
        {
            let sub = &relic.substats[i];
            assert(rolls_fit(relic.substats@[i as int].rolls));
            let key = replace_char(sub.stat.as_str(), '%', '_');
            let count = sub.rolls.low + sub.rolls.mid + sub.rolls.high;
            let step = sub.rolls.mid + 2 * sub.rolls.high;
            substats.push(Substat { key, value: sub.value, count, step });
            i = i + 1;
        }
        let mainstat = match strip_suffix_char(relic.main.stat.as_str(), '%') {
            Some(base) => base,
            None => relic.main.stat.clone(),
        };
        ReliquaryRelic {
            set_id: relic.set_id.clone(),
            name: relic.set.clone(),
            slot: relic.part.clone(),
            rarity: relic.grade,
            level: relic.enhance,
            mainstat,
            substats,
            location: relic.equipped_by.clone(),
            lock: relic.lock,
            discard: relic.discard,
            _uid: relic.id.clone(),
        }
    }
}

/// An exported substat key never contains `%`.
pub proof fn lemma_exported_key_has_no_percent(sub: RelicSubstat, out: Substat, i: int)
    requires
        substat_exported(sub, out),
        0 <= i < out.key@.len(),
    ensures
        out.key@[i] != '%',
{
}

impl ReliquaryLightCone {
    /// The export form of a recorded light cone.
    pub fn from(lc: &LightCone) -> (r: ReliquaryLightCone)
        ensures
            light_cone_exported(*lc, r),
    {
        ReliquaryLightCone {
            id: lc.id.clone(),
            name: lc.name.clone(),
            level: lc.level,
            ascension: lc.promotion,
            superimposition: lc.rank,
            location: lc.equipped_by.clone(),
            lock: lc.lock,
            _uid: lc.uid.clone(),
        }
    }
}

impl RelicSubstat {
    /// An exact copy.
    pub fn duplicate(&self) -> (r: RelicSubstat)
        ensures
            r == *self,
    {
        RelicSubstat {
            stat: self.stat.clone(),
            value: self.value,
            rolls: self.rolls,
            added_rolls: self.added_rolls,
        }
    }
}

impl Relic {
    /// An exact copy.
    pub fn duplicate(&self) -> (r: Relic)
        ensures
            same_relic(r, *self),
    {
        let mut substats: Vec<RelicSubstat> = Vec::new();
        let mut i: usize = 0;
        while i < self.substats.len()
            invariant
                i <= self.substats@.len(),
                substats@ == self.substats@.take(i as int),
            decreases self.substats@.len() - i,
        {
            substats.push(self.substats[i].duplicate());
            proof {
                assert(self.substats@.take(i + 1) =~= self.substats@.take(i as int).push(
                    self.substats@[i as int],
                ));
            }
            i = i + 1;
        }
        proof {
            assert(self.substats@.take(self.substats@.len() as int) =~= self.substats@);
        }
        Relic {
            part: self.part.clone(),
            set_id: self.set_id.clone(),
            set: self.set.clone(),
            enhance: self.enhance,
            grade: self.grade,
            main: RelicMainStat { stat: self.main.stat.clone(), value: self.main.value },
            substats,
            equipped_by: self.equipped_by.clone(),
            verified: self.verified,
            id: self.id.clone(),
            age_index: self.age_index,
            initial_rolls: self.initial_rolls,
            lock: self.lock,
            discard: self.discard,
        }
    }
}

impl LightCone {
    /// An exact copy.
    pub fn duplicate(&self) -> (r: LightCone)
        ensures
            r == *self,
    {
        LightCone {
            id: self.id.clone(),
            name: self.name.clone(),
            level: self.level,
            promotion: self.promotion,
            rank: self.rank,
            equipped_by: self.equipped_by.clone(),
            lock: self.lock,
            uid: self.uid.clone(),
        }
    }
}

} // verus!
