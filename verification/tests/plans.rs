use orexis::plans::{
    network_service_type, poll_promise, preset_plan_name, FieldDescriptor, PlanNameRead, PollStep,
    RPG_Client_Promises_PromiseState as State, MAX_RETRIES,
};

#[test]
fn poll_waits_then_settles() {
    assert!(matches!(poll_promise(7, 0, State::Resolved), PollStep::Ready));
    assert!(matches!(poll_promise(7, 0, State::Pending), PollStep::Wait));
    assert!(matches!(poll_promise(7, MAX_RETRIES - 2, State::Pending), PollStep::Wait));
    match poll_promise(7, MAX_RETRIES - 1, State::Pending) {
        PollStep::Fail(m) => assert_eq!(m, "Promise timeout for avatar ID 7 after 2000ms"),
        other => panic!("unexpected {other:?}"),
    }
    match poll_promise(1205, 3, State::Rejected) {
        PollStep::Fail(m) => assert_eq!(m, "Promise rejected for avatar ID 1205"),
        other => panic!("unexpected {other:?}"),
    }
    assert!(matches!(poll_promise(7, MAX_RETRIES - 1, State::Resolved), PollStep::Ready));
}

#[test]
fn plan_names() {
    assert_eq!(preset_plan_name(PlanNameRead::Name("Crit".to_string())), Ok("Crit".to_string()));
    assert_eq!(preset_plan_name(PlanNameRead::Missing), Ok(String::new()));
    assert_eq!(
        preset_plan_name(PlanNameRead::Failed("Boom".to_string())),
        Err("Failed to get Name from RelicPresetPlanData: Boom".to_string())
    );
}

#[test]
fn network_service_field() {
    let f = |n: &str, t: &str| FieldDescriptor { name: n.to_string(), field_type: t.to_string() };
    let fields = vec![f("_Model", "A"), f("_NetworkService", "B"), f("_Other", "C"), f("_NetworkService", "D")];
    assert_eq!(network_service_type(&fields), Some("D".to_string()));
    assert_eq!(network_service_type(&vec![f("_Model", "A")]), None);
}
