//! Relic preset plans: waiting for the game's plan request to settle,
//! reading plan names, and finding the plan service the game registered.
use vstd::prelude::*;
use crate::text::{append_decimal, append_str, decimal, str_eq};
use vstd::string::*;

verus! {

/// The state of a pending game request.
#[derive(Clone, Copy, Debug, PartialEq, Eq, Structural)]
pub enum RPG_Client_Promises_PromiseState {
    Pending,
    Rejected,
    Resolved,
}

/// How many times the request state is checked before giving up.
pub const MAX_RETRIES: u32 = 20;

/// Milliseconds to wait between two checks.
pub const POLL_INTERVAL_MS: u32 = 100;

/// What to do after checking the request state once.
#[derive(Debug)]
pub enum PollStep {
    /// The plans can be read.
    Ready,
    /// Wait one interval and check again.
    Wait,
    /// Give up with this error.
    Fail(String),
}

/// The decision after the check numbered `attempt` (from zero) of the plan
/// request for `avatar_id` found it in `state`.
pub open spec fn poll_decision(avatar_id: u32, attempt: u32, state: RPG_Client_Promises_PromiseState, step: PollStep) -> bool {
    match state {
        RPG_Client_Promises_PromiseState::Resolved => step is Ready,
        RPG_Client_Promises_PromiseState::Rejected => step matches PollStep::Fail(m) && m@
            == "Promise rejected for avatar ID "@ + decimal(avatar_id as nat),
        RPG_Client_Promises_PromiseState::Pending => if attempt + 1 == MAX_RETRIES {
            step matches PollStep::Fail(m) && m@ == "Promise timeout for avatar ID "@ + decimal(
                avatar_id as nat,
            ) + " after "@ + decimal((MAX_RETRIES * POLL_INTERVAL_MS) as nat) + "ms"@
        } else {
            step is Wait
        },
    }
}

/// Decides what to do after one check of the plan request for `avatar_id`.
pub fn poll_promise(avatar_id: u32, attempt: u32, state: RPG_Client_Promises_PromiseState) -> (r: PollStep)
    requires
        attempt < MAX_RETRIES,
    ensures
        poll_decision(avatar_id, attempt, state, r),
{
    match state {
        RPG_Client_Promises_PromiseState::Resolved => PollStep::Ready,
        RPG_Client_Promises_PromiseState::Rejected => {
            let mut m = String::from_str("Promise rejected for avatar ID ");
            append_decimal(&mut m, avatar_id);
            PollStep::Fail(m)
        },
        RPG_Client_Promises_PromiseState::Pending => {
            if attempt == MAX_RETRIES - 1 {
                let mut m = String::from_str("Promise timeout for avatar ID ");
                append_decimal(&mut m, avatar_id);
                append_str(&mut m, " after ");
                append_decimal(&mut m, MAX_RETRIES * POLL_INTERVAL_MS);
                append_str(&mut m, "ms");
                PollStep::Fail(m)
            } else {
                PollStep::Wait
            }
        },
    }
}

/// The outcome of polling a request whose checks found `states`, one per
/// check: ready at the first resolved check, failed at a rejected check or
/// at the last allowed pending check, still waiting otherwise.
pub open spec fn poll_outcome(avatar_id: u32, states: Seq<RPG_Client_Promises_PromiseState>) -> Option<
    Result<(), Seq<char>>,
>
    decreases states.len(),
{
    if states.len() == 0 {
        None
    } else {
        match poll_outcome(avatar_id, states.drop_last()) {
            Some(done) => Some(done),
            None => {
                let attempt = (states.len() - 1) as u32;
                match states.last() {
                    RPG_Client_Promises_PromiseState::Resolved => Some(Ok(())),
                    RPG_Client_Promises_PromiseState::Rejected => Some(
                        Err("Promise rejected for avatar ID "@ + decimal(avatar_id as nat)),
                    ),
                    RPG_Client_Promises_PromiseState::Pending => if attempt + 1 == MAX_RETRIES {
                        Some(
                            Err(
                                "Promise timeout for avatar ID "@ + decimal(avatar_id as nat)
                                    + " after "@ + decimal((MAX_RETRIES * POLL_INTERVAL_MS) as nat)
                                    + "ms"@,
                            ),
                        )
                    } else {
                        None
                    },
                }
            },
        }
    }
}

/// However the request evolves, polling settles within the allowed number
/// of checks.
pub proof fn lemma_poll_settles(avatar_id: u32, states: Seq<RPG_Client_Promises_PromiseState>)
    requires
        states.len() == MAX_RETRIES,
    ensures
        poll_outcome(avatar_id, states) is Some,
{
    let prefix = states.drop_last();
    if poll_outcome(avatar_id, prefix) is None {
        assert((states.len() - 1) as u32 + 1 == MAX_RETRIES);
    }
}

/// How reading a plan's name went.
#[derive(Debug)]
pub enum PlanNameRead {
    /// The name was read.
    Name(String),
    /// The plan has no name object.
    Missing,
    /// Reading failed; the text describes the failure.
    Failed(String),
}

/// The name a plan is listed with: its name, empty when it has none, or an
/// error when reading it failed.
pub fn preset_plan_name(read: PlanNameRead) -> (r: Result<String, String>)
    ensures
        match read {
            PlanNameRead::Name(n) => r == Ok::<String, String>(n),
            PlanNameRead::Missing => r matches Ok(n) && n@.len() == 0,
            PlanNameRead::Failed(e) => r matches Err(m) && m@
                == "Failed to get Name from RelicPresetPlanData: "@ + e@,
        },
{
    match read {
        PlanNameRead::Name(n) => Ok(n),
        PlanNameRead::Missing => Ok(String::new()),
        PlanNameRead::Failed(e) => {
            let mut m = String::from_str("Failed to get Name from RelicPresetPlanData: ");
            append_str(&mut m, e.as_str());
            Err(m)
        },
    }
}

/// A field of a game class: its name and the name of its type.
#[derive(Debug)]
pub struct FieldDescriptor {
    pub name: String,
    pub field_type: String,
}

/// The type name of the last field of `fields` called `_NetworkService`.
pub open spec fn network_service_type_of(fields: Seq<FieldDescriptor>) -> Option<Seq<char>>
    decreases fields.len(),
{
    if fields.len() == 0 {
        None
    } else if fields.last().name@ == "_NetworkService"@ {
        Some(fields.last().field_type@)
    } else {
        network_service_type_of(fields.drop_last())
    }
}

/// The type of the plan view model's `_NetworkService` field, which names
/// the plan service to resolve (the last such field when several appear).
pub fn network_service_type(fields: &Vec<FieldDescriptor>) -> (r: Option<String>)
    ensures
        match r {
            Some(t) => network_service_type_of(fields@) == Some(t@),
            None => network_service_type_of(fields@) is None,
        },
{
    let mut found: Option<String> = None;
    let mut i: usize = 0;
    while i < fields.len()
        invariant
            i <= fields@.len(),
            match found {
                Some(t) => network_service_type_of(fields@.take(i as int)) == Some(t@),
                None => network_service_type_of(fields@.take(i as int)) is None,
            },
        decreases fields@.len() - i,
    {
        proof {
            assert(fields@.take(i + 1).drop_last() =~= fields@.take(i as int));
        }
        if str_eq(fields[i].name.as_str(), "_NetworkService") {
            found = Some(fields[i].field_type.clone());
        }
        i = i + 1;
    }
    proof {
        assert(fields@.take(i as int) =~= fields@);
    }
    found
}

} // verus!
