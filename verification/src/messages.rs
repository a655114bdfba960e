//! Requests from the companion app: reading relic UIDs, picking the loadouts
//! a request carries, routing each request, and choosing the relics that an
//! apply request must move.
use vstd::prelude::*;
use crate::loadouts::{CharacterLoadout, OutgoingMessage};
use crate::text::{append_str, parse_u32, parse_u32_spec, str_eq, trim_white_space, trim_ws};
use vstd::string::*;

verus! {

/// A JSON value as the UID readers see it: a number (with its value when
/// it is a non-negative integer that fits in 64 bits), a string, or
/// anything else.
#[derive(Debug)]
pub enum JsonScalar {
    Number(Option<u64>),
    Text(String),
    Other,
}

/// The `u32` that a JSON value stands for: a number that fits, or a string
/// holding a decimal number (white space around it allowed).
pub open spec fn scalar_u32(value: JsonScalar) -> Option<u32> {
    match value {
        JsonScalar::Number(Some(v)) => if v <= u32::MAX {
            Some(v as u32)
        } else {
            None
        },
        JsonScalar::Number(None) => None,
        JsonScalar::Text(raw) => parse_u32_spec(trim_ws(raw@)),
        JsonScalar::Other => None,
    }
}

/// Reads a `u32` from a JSON number or numeric string.
pub fn parse_u32_from_value(value: &JsonScalar) -> (r: Option<u32>)
    ensures
        r == scalar_u32(*value),
{
    match value {
        JsonScalar::Number(Some(v)) => {
            if *v <= 0xffff_ffff {
                Some(*v as u32)
            } else {
                None
            }
        },
        JsonScalar::Number(None) => None,
        JsonScalar::Text(raw) => {
            let trimmed = trim_white_space(raw.as_str());
            parse_u32(trimmed.as_str())
        },
        JsonScalar::Other => None,
    }
}

/// The UIDs that the readable values of `values` stand for, in order.
pub open spec fn readable_uids(values: Seq<JsonScalar>) -> Seq<u32>
    decreases values.len(),
{
    if values.len() == 0 {
        Seq::empty()
    } else {
        let rest = readable_uids(values.drop_last());
        match scalar_u32(values.last()) {
            Some(u) => rest.push(u),
            None => rest,
        }
    }
}

/// Reads a relic UID list, skipping values that are not UIDs.
pub fn relic_uids_from_values(values: &Vec<JsonScalar>) -> (r: Vec<u32>)
    ensures
        r@ == readable_uids(values@),
{
    let mut out: Vec<u32> = Vec::new();
    let mut i: usize = 0;
    while i < values.len()
        invariant
            i <= values@.len(),
            out@ == readable_uids(values@.take(i as int)),
        decreases values@.len() - i,
    {
        proof {
            assert(values@.take(i + 1).drop_last() =~= values@.take(i as int));
        }
        match parse_u32_from_value(&values[i]) {
            Some(u) => out.push(u),
            None => {},
        }
        i = i + 1;
    }
    proof {
        assert(values@.take(i as int) =~= values@);
    }
    out
}

/// The loadout readings of a request's `data` value: the value itself, its
/// `loadout` field and its `SetLoadout` field, each read as a loadout.
#[derive(Debug)]
pub struct LoadoutCandidates {
    pub whole: Option<CharacterLoadout>,
    pub nested: Option<CharacterLoadout>,
    pub legacy: Option<CharacterLoadout>,
}

/// The loadout-list readings of a request's `data` value: the value itself,
/// its `loadouts` field and its `SetLoadouts` field, each read as a list.
#[derive(Debug)]
pub struct LoadoutListCandidates {
    pub whole: Option<Vec<CharacterLoadout>>,
    pub nested: Option<Vec<CharacterLoadout>>,
    pub legacy: Option<Vec<CharacterLoadout>>,
}

/// The first of `a`, `b`, `c` that is present.
pub open spec fn first_present<T>(a: Option<T>, b: Option<T>, c: Option<T>) -> Option<T> {
    if a is Some {
        a
    } else if b is Some {
        b
    } else {
        c
    }
}

/// The loadout a request carries: its `loadout` field, else the first
/// reading of its `data` that is a loadout.
pub open spec fn resolved_single(loadout: Option<CharacterLoadout>, data: Option<LoadoutCandidates>) -> Option<
    CharacterLoadout,
> {
    if loadout is Some {
        loadout
    } else {
        match data {
            None => None,
            Some(d) => first_present(d.whole, d.nested, d.legacy),
        }
    }
}

/// The loadout list a request carries: its `loadouts` field, else the first
/// reading of its `data` that is a list.
pub open spec fn resolved_many(
    loadouts: Option<Vec<CharacterLoadout>>,
    data: Option<LoadoutListCandidates>,
) -> Option<Vec<CharacterLoadout>> {
    if loadouts is Some {
        loadouts
    } else {
        match data {
            None => None,
            Some(d) => first_present(d.whole, d.nested, d.legacy),
        }
    }
}

/// Picks the loadout a request carries.
pub fn resolve_single_loadout(
    loadout: Option<CharacterLoadout>,
    data: Option<LoadoutCandidates>,
) -> (r: Option<CharacterLoadout>)
    ensures
        r == resolved_single(loadout, data),
        loadout is Some ==> r == loadout,
{
    if loadout.is_some() {
        return loadout;
    }
    match data {
        None => None,
        Some(d) => {
            if d.whole.is_some() {
                d.whole
            } else if d.nested.is_some() {
                d.nested
            } else {
                d.legacy
            }
        },
    }
}

/// Picks the loadout list a request carries.
pub fn resolve_many_loadouts(
    loadouts: Option<Vec<CharacterLoadout>>,
    data: Option<LoadoutListCandidates>,
) -> (r: Option<Vec<CharacterLoadout>>)
    ensures
        r == resolved_many(loadouts, data),
        loadouts is Some ==> r == loadouts,
{
    if loadouts.is_some() {
        return loadouts;
    }
    match data {
        None => None,
        Some(d) => {
            if d.whole.is_some() {
                d.whole
            } else if d.nested.is_some() {
                d.nested
            } else {
                d.legacy
            }
        },
    }
}

/// The loadout a request carries is its own `loadout` field whenever that is
/// present, whatever its `data` holds (no `data` included). Without it, the
/// `data` value read as a loadout comes first, then its `loadout` field, then
/// its `SetLoadout` field; with no `data` there is no loadout.
pub proof fn lemma_single_loadout_precedence(
    loadout: Option<CharacterLoadout>,
    data: Option<LoadoutCandidates>,
)
    ensures
        loadout is Some ==> resolved_single(loadout, data) == loadout,
        loadout is None && data is None ==> resolved_single(loadout, data) is None,
        loadout is None && data is Some ==> {
            let d = data->0;
            &&& d.whole is Some ==> resolved_single(loadout, data) == d.whole
            &&& d.whole is None && d.nested is Some ==> resolved_single(loadout, data) == d.nested
            &&& d.whole is None && d.nested is None ==> resolved_single(loadout, data) == d.legacy
        },
        resolved_single(loadout, data) is Some <==> (loadout is Some || (data is Some && (
        data->0.whole is Some || data->0.nested is Some || data->0.legacy is Some))),
{
}

/// The loadout list a request carries is its own `loadouts` field whenever
/// that is present, whatever its `data` holds. Without it, the `data` value
/// read as a list comes first, then its `loadouts` field, then its
/// `SetLoadouts` field; with no `data` there is no list.
pub proof fn lemma_many_loadouts_precedence(
    loadouts: Option<Vec<CharacterLoadout>>,
    data: Option<LoadoutListCandidates>,
)
    ensures
        loadouts is Some ==> resolved_many(loadouts, data) == loadouts,
        loadouts is None && data is None ==> resolved_many(loadouts, data) is None,
        loadouts is None && data is Some ==> {
            let d = data->0;
            &&& d.whole is Some ==> resolved_many(loadouts, data) == d.whole
            &&& d.whole is None && d.nested is Some ==> resolved_many(loadouts, data) == d.nested
            &&& d.whole is None && d.nested is None ==> resolved_many(loadouts, data) == d.legacy
        },
{
}

/// A request from the companion app, as read from its JSON text.
#[derive(Debug)]
pub enum IncomingMessage {
    SetLoadout { set_loadout: CharacterLoadout },
    SetLoadouts { set_loadouts: Vec<CharacterLoadout> },
    Tagged {
        msg_type: String,
        loadouts: Option<Vec<CharacterLoadout>>,
        loadout: Option<CharacterLoadout>,
        single_data: Option<LoadoutCandidates>,
        list_data: Option<LoadoutListCandidates>,
    },
}

/// What to do with a request: apply one loadout, apply several, or reply
/// at once.
#[derive(Debug)]
pub enum Route {
    ApplyOne(CharacterLoadout),
    ApplyMany(Vec<CharacterLoadout>),
    Reply(OutgoingMessage),
}

/// `r` replies with an error whose text is `text`.
pub open spec fn replies_error(r: Route, text: Seq<char>) -> bool {
    r matches Route::Reply(OutgoingMessage::Error { message }) && message@ == text
}

/// What is done with a request, given its reading (or the reading error's
/// text).
pub open spec fn routed(parsed: Result<IncomingMessage, String>, r: Route) -> bool {
    match parsed {
        Ok(IncomingMessage::SetLoadout { set_loadout }) => r == Route::ApplyOne(set_loadout),
        Ok(IncomingMessage::SetLoadouts { set_loadouts }) => r == Route::ApplyMany(set_loadouts),
        Ok(IncomingMessage::Tagged { msg_type, loadouts, loadout, single_data, list_data }) => {
            if msg_type@ == "set_loadouts"@ {
                match resolved_many(loadouts, list_data) {
                    Some(ls) => r == Route::ApplyMany(ls),
                    None => replies_error(r, "Missing loadouts"@),
                }
            } else if msg_type@ == "set_loadout"@ {
                match resolved_single(loadout, single_data) {
                    Some(l) => r == Route::ApplyOne(l),
                    None => replies_error(r, "Missing loadout"@),
                }
            } else {
                replies_error(r, "Unsupported message type: "@ + msg_type@)
            }
        },
        Err(e) => replies_error(r, "Invalid message: "@ + e@),
    }
}

/// A `set_loadout` request that carries its own loadout is routed to
/// applying that loadout, whatever its `data` holds.
pub proof fn lemma_route_own_loadout(parsed: Result<IncomingMessage, String>, r: Route)
    requires
        routed(parsed, r),
        parsed matches Ok(IncomingMessage::Tagged { msg_type, loadout, .. }) && msg_type@
            == "set_loadout"@ && loadout is Some,
    ensures
        r == Route::ApplyOne(parsed->Ok_0->Tagged_loadout->0),
{
    reveal_strlit("set_loadout");
    reveal_strlit("set_loadouts");
    assert("set_loadout"@.len() != "set_loadouts"@.len());
}

fn error_reply(prefix: &str, detail: &str) -> (r: Route)
    ensures
        replies_error(r, prefix@ + detail@),
{
    let mut message = String::from_str(prefix);
    append_str(&mut message, detail);
    Route::Reply(OutgoingMessage::Error { message })
}

/// Decides what to do with a request.
pub fn route_message(parsed: Result<IncomingMessage, String>) -> (r: Route)
    ensures
        routed(parsed, r),
{
    match parsed {
        Ok(IncomingMessage::SetLoadout { set_loadout }) => Route::ApplyOne(set_loadout),
        Ok(IncomingMessage::SetLoadouts { set_loadouts }) => Route::ApplyMany(set_loadouts),
        Ok(IncomingMessage::Tagged { msg_type, loadouts, loadout, single_data, list_data }) => {
            if str_eq(msg_type.as_str(), "set_loadouts") {
                match resolve_many_loadouts(loadouts, list_data) {
                    Some(items) => Route::ApplyMany(items),
                    None => Route::Reply(
                        OutgoingMessage::Error { message: String::from_str("Missing loadouts") },
                    ),
                }
            } else if str_eq(msg_type.as_str(), "set_loadout") {
                match resolve_single_loadout(loadout, single_data) {
                    Some(item) => Route::ApplyOne(item),
                    None => Route::Reply(
                        OutgoingMessage::Error { message: String::from_str("Missing loadout") },
                    ),
                }
            } else {
                error_reply("Unsupported message type: ", msg_type.as_str())
            }
        },
        Err(e) => error_reply("Invalid message: ", e.as_str()),
    }
}

/// What the game reported for one requested relic UID: whether it has no
/// relic, and the character wearing it (`None` when that could not be read).
#[derive(Clone, Copy, Debug)]
pub struct RelicLookup {
    pub is_null: bool,
    pub belong_avatar: Option<u32>,
}

/// The positions of the lookups that must be equipped on `avatar_id`: real
/// relics not already worn by that character, in order.
pub open spec fn equip_positions(avatar_id: u32, lookups: Seq<RelicLookup>) -> Seq<usize>
    decreases lookups.len(),
{
    if lookups.len() == 0 {
        Seq::empty()
    } else {
        let rest = equip_positions(avatar_id, lookups.drop_last());
        let l = lookups.last();
        if !l.is_null && l.belong_avatar != Some(avatar_id) {
            rest.push((lookups.len() - 1) as usize)
        } else {
            rest
        }
    }
}

/// The relics chosen for `avatar_id` are exactly the requested positions
/// that hold a relic (not null) which that character does not already wear
/// (a relic whose wearer could not be read counts as not worn), each once,
/// in request order.
pub proof fn lemma_equip_positions_exact(avatar_id: u32, lookups: Seq<RelicLookup>)
    requires
        lookups.len() <= usize::MAX,
    ensures
        forall|k: int|
            0 <= k < equip_positions(avatar_id, lookups).len() ==> {
                let p = #[trigger] equip_positions(avatar_id, lookups)[k];
                &&& p < lookups.len()
                &&& !lookups[p as int].is_null
                &&& lookups[p as int].belong_avatar != Some(avatar_id)
            },
        forall|j: int|
            0 <= j < lookups.len() && !(#[trigger] lookups[j]).is_null && lookups[j].belong_avatar
                != Some(avatar_id) ==> equip_positions(avatar_id, lookups).contains(j as usize),
        forall|a: int, b: int|
            0 <= a < b < equip_positions(avatar_id, lookups).len() ==> #[trigger] equip_positions(
                avatar_id,
                lookups,
            )[a] < #[trigger] equip_positions(avatar_id, lookups)[b],
    decreases lookups.len(),
{
    if lookups.len() > 0 {
        let prev = lookups.drop_last();
        lemma_equip_positions_exact(avatar_id, prev);
        let rest = equip_positions(avatar_id, prev);
        let r = equip_positions(avatar_id, lookups);
        let n = lookups.len() - 1;
        assert forall|k: int| 0 <= k < r.len() implies {
            let p = #[trigger] r[k];
            &&& p < lookups.len()
            &&& !lookups[p as int].is_null
            &&& lookups[p as int].belong_avatar != Some(avatar_id)
        } by {
            if k < rest.len() {
                assert(r[k] == rest[k]);
                assert(prev[rest[k] as int] == lookups[rest[k] as int]);
            } else {
                assert(r == rest.push(n as usize));
                assert(r[k] == n as usize);
                assert((n as usize) as int == n);
            }
        }
        assert forall|j: int|
            0 <= j < lookups.len() && !(#[trigger] lookups[j]).is_null && lookups[j].belong_avatar
                != Some(avatar_id) implies r.contains(j as usize) by {
            if j < n {
                assert(prev[j] == lookups[j]);
                assert(rest.contains(j as usize));
                let k = choose|k: int| 0 <= k < rest.len() && rest[k] == j as usize;
                assert(r[k] == rest[k]);
            } else {
                assert(r[rest.len() as int] == n as usize);
            }
        }
        assert forall|a: int, b: int| 0 <= a < b < r.len() implies #[trigger] r[a] < #[trigger] r[b] by {
            if b < rest.len() {
                assert(r[a] == rest[a] && r[b] == rest[b]);
            } else {
                assert(r == rest.push(n as usize));
                assert(r[a] == rest[a]);
                assert(rest[a] < prev.len());
                assert(r[b] == n as usize);
            }
        }
    }
}

/// Chooses which of the requested relics to equip on `avatar_id`: empty
/// slots are skipped, relics already on that character are skipped, and a
/// relic whose wearer could not be read is included.
pub fn select_relics_to_equip(avatar_id: u32, lookups: &Vec<RelicLookup>) -> (r: Vec<usize>)
    ensures
        r@ == equip_positions(avatar_id, lookups@),
        forall|k: int|
            0 <= k < r@.len() ==> r@[k] < lookups@.len() && !lookups@[#[trigger] r@[k] as int].is_null
                && lookups@[r@[k] as int].belong_avatar != Some(avatar_id),
        forall|j: int|
            0 <= j < lookups@.len() && !(#[trigger] lookups@[j]).is_null && lookups@[j].belong_avatar
                != Some(avatar_id) ==> r@.contains(j as usize),
{
    let mut out: Vec<usize> = Vec::new();
    let mut i: usize = 0;
    while i < lookups.len()
        invariant
            i <= lookups@.len(),
            out@ == equip_positions(avatar_id, lookups@.take(i as int)),
        decreases lookups@.len() - i,
    {
        proof {
            assert(lookups@.take(i + 1).drop_last() =~= lookups@.take(i as int));
        }
        let l = lookups[i];
        let already_worn = match l.belong_avatar {
            Some(a) => a == avatar_id,
            None => false,
        };
        if !l.is_null && !already_worn {
            out.push(i);
        }
        i = i + 1;
    }
    proof {
        assert(lookups@.take(i as int) =~= lookups@);
        lemma_equip_positions_exact(avatar_id, lookups@);
        assert forall|k: int| 0 <= k < out@.len() implies out@[k] < lookups@.len()
            && !lookups@[#[trigger] out@[k] as int].is_null && lookups@[out@[k] as int].belong_avatar
            != Some(avatar_id) by {
            let p = equip_positions(avatar_id, lookups@)[k];
            assert(p == out@[k]);
        }
    }
    out
}

} // verus!
