#![allow(dead_code, unused_imports)]

use chiefd_core::company::{
    ActivityRow, Company, DepartmentRow, Entity, EventOp, EventRow, Fence, OrgSettings, PersonRow,
    SettingsRow, StaffingEntry, TransitionAction, TransitionRow, TransitionStatus,
};
use chiefd_core::org_ops::{
    appoint_department_head, bench_person, bench_person_lifecycle, create_department,
    create_department_with_staff, create_department_with_staff_unit, department_is_company_root,
    hire_person, hire_person_authorized, is_ceo, move_department_members, offboard_person,
    pause_department, prepare_ceo_only, reactivate_executive_root, recall_person,
    remove_department_tree, reparent_department, replace_head_and_offboard, resume_department,
    resume_departments, shutdown_person, start_person, transfer_person, validate_new_person_seed,
    wake_person, AppointOutcome, AppointRefusal, BenchLifecycleOutcome, BenchOutcome, BenchRefusal,
    CreateDepartmentOutcome, CreateDepartmentRefusal, DepartmentCreateUnit, DepartmentStaffSeed,
    DirectOutcome, HeadDecision, HeadIneligibility, HeadVacancy, HeadVacancyRefusal, HireOutcome,
    HireRefusal, NewPersonSeed, OffboardOutcome, OffboardRefusal, OwnedNewPersonSeed,
    PauseOutcome, PauseRefusal, RemoveDepartmentOutcome, ReparentOutcome, ReparentRefusal,
    RowError, SeedRejection, ShutdownKind, ShutdownOutcome, ShutdownRefusal, TransferOutcome,
    TransferRefusal, VacancyRefusal,
};
use chiefd_core::organization::{EmploymentState, PersonKind, UnitKind, UnitState};
use chiefd_core::rows::ledger::IDLE_AUTO_PARK_REASON;

fn some(s: &str) -> Option<String> {
    Some(s.to_string())
}

/// A company with a settings row and nothing else.
fn company() -> Company {
    let mut co = Company::new("acme");
    co.settings = Some(SettingsRow {
        display_slug: "acme".to_string(),
        settings: OrgSettings {
            launcher_root: None,
            supervision_interval_ms: 60000,
            acknowledgement_timeout_ms: 30000,
            acknowledgement_retry_limit: 3,
            replacement_limit: 3,
        },
    });
    co
}

fn dept(co: &mut Company, id: &str, parent: &str, name: &str, head: &str, ordinal: u64) {
    co.departments.put(
        id,
        DepartmentRow {
            parent_id: if parent.is_empty() { None } else { some(parent) },
            name: name.to_string(),
            purpose: String::new(),
            kind: if parent.is_empty() { UnitKind::Company } else { UnitKind::Department },
            transient: None,
            state: UnitState::Active,
            head_person_id: head.to_string(),
            ordinal,
            created_at: "t".to_string(),
            updated_at: "t".to_string(),
        },
    );
}

fn person(co: &mut Company, id: &str, kind: PersonKind, department: &str, ordinal: u64) {
    co.people.put(
        id,
        PersonRow {
            name: id.to_string(),
            title: "title".to_string(),
            mandate: "mandate".to_string(),
            kind,
            employment_state: EmploymentState::Active,
            department_id: department.to_string(),
            activation: "resident".to_string(),
            tools: Vec::new(),
            prompts: Vec::new(),
            ordinal,
            created_at: "t".to_string(),
            updated_at: "t".to_string(),
        },
    );
}

/// The executive root headed by `ada`, the office of the CEO headed by `cos`,
/// and engineering headed by `bo`.
fn open() -> Company {
    let mut co = company();
    dept(&mut co, "executive", "", "Executive", "ada", 0);
    dept(&mut co, "office-of-the-ceo", "executive", "Office of the CEO", "cos", 1);
    dept(&mut co, "eng", "executive", "Engineering", "bo", 2);
    person(&mut co, "ada", PersonKind::Executive, "executive", 0);
    person(&mut co, "cos", PersonKind::Head, "office-of-the-ceo", 1);
    person(&mut co, "bo", PersonKind::Worker, "eng", 2);
    co
}

fn person_mut<'a>(co: &'a mut Company, id: &str) -> &'a mut PersonRow {
    let i = co.people.find(id).expect("person");
    &mut co.people.values[i]
}

fn dept_mut<'a>(co: &'a mut Company, id: &str) -> &'a mut DepartmentRow {
    let i = co.departments.find(id).expect("department");
    &mut co.departments.values[i]
}

fn transition_mut<'a>(co: &'a mut Company, id: &str) -> &'a mut TransitionRow {
    let i = co.transitions.find(id).expect("transition");
    &mut co.transitions.values[i]
}

fn activity_mut<'a>(co: &'a mut Company, id: &str) -> &'a mut ActivityRow {
    let i = co.activity.find(id).expect("activity");
    &mut co.activity.values[i]
}

fn employ(co: &mut Company, id: &str, state: EmploymentState) {
    person_mut(co, id).employment_state = state;
}

fn pause_row(co: &mut Company, id: &str) {
    dept_mut(co, id).state = UnitState::Paused;
}

fn fence(co: &mut Company, id: &str) {
    co.fences.put(id, Fence {});
}

fn transition_row(
    co: &mut Company,
    id: &str,
    person: &str,
    action: TransitionAction,
    status: TransitionStatus,
) {
    co.transitions.put(
        id,
        TransitionRow {
            person_id: person.to_string(),
            action,
            status,
            intent_id: None,
            reason: String::new(),
            placement_department_id: None,
            requested_at: "t0".to_string(),
            handoff_deadline_at: None,
            applied_at: None,
            cancelled_at: None,
            abandoned_at: None,
        },
    );
}

fn activity_row(co: &mut Company, person: &str, desired: bool, pointer: Option<&str>) {
    co.activity.put(
        person,
        ActivityRow {
            last_desired_active: desired,
            last_operational: false,
            last_department_id: None,
            last_employment_state: None,
            agent_quiet_at: None,
            idle_since: None,
            agent_active_at: None,
            operator_wake_at: None,
            active_transition_id: pointer.map(|p| p.to_string()),
            updated_at: "t".to_string(),
        },
    );
}

/// One event already in the feed.
fn prior_event(co: &mut Company) {
    co.events.push(EventRow {
        entity: Entity::Person,
        entity_id: "x".to_string(),
        op: EventOp::Upsert,
        at: "t".to_string(),
        actor: String::new(),
    });
}

fn person_row<'a>(co: &'a Company, id: &str) -> &'a PersonRow {
    co.people.get(id).expect("person")
}

fn home(co: &Company, id: &str) -> String {
    person_row(co, id).department_id.clone()
}

fn employment(co: &Company, id: &str) -> &'static str {
    person_row(co, id).employment_state.as_str()
}

fn kind(co: &Company, id: &str) -> &'static str {
    person_row(co, id).kind.as_str()
}

fn dept_row<'a>(co: &'a Company, id: &str) -> &'a DepartmentRow {
    co.departments.get(id).expect("department")
}

fn head_of(co: &Company, id: &str) -> Option<String> {
    co.departments.get(id).map(|row| row.head_person_id.clone())
}

fn state_of(co: &Company, id: &str) -> &'static str {
    dept_row(co, id).state.as_str()
}

fn transition<'a>(co: &'a Company, id: &str) -> &'a TransitionRow {
    co.transitions.get(id).expect("transition")
}

fn transitions_of<'a>(co: &'a Company, person: &str) -> Vec<&'a TransitionRow> {
    co.transitions.values.iter().filter(|t| t.person_id == person).collect()
}

fn desired(co: &Company, person: &str) -> Option<i64> {
    co.activity.get(person).map(|row| if row.last_desired_active { 1 } else { 0 })
}

fn pointer(co: &Company, person: &str) -> Option<String> {
    co.activity.get(person).expect("activity").active_transition_id.clone()
}

/// The quiet, idle and active clocks of somebody.
fn clocks(co: &Company, person: &str) -> (Option<String>, Option<String>, Option<String>) {
    let row = co.activity.get(person).expect("activity");
    (row.agent_quiet_at.clone(), row.idle_since.clone(), row.agent_active_at.clone())
}

fn fenced(co: &Company) -> Vec<String> {
    co.fences.list()
}

/// What the staffing history says of somebody: action, from, to, reason.
fn staffing(co: &Company, person: &str) -> Vec<(String, Option<String>, Option<String>, String)> {
    co.staffing
        .iter()
        .filter(|e| e.person_id == person)
        .map(|e| {
            (
                e.action.as_str().to_string(),
                e.from_department_id.clone(),
                e.to_department_id.clone(),
                e.reason.clone(),
            )
        })
        .collect()
}

fn actions(co: &Company, person: &str) -> Vec<String> {
    staffing(co, person).into_iter().map(|(action, ..)| action).collect()
}

/// The feed: sequence, entity, entity id, op.
fn feed(co: &Company) -> Vec<(i64, String, String, String)> {
    co.events
        .iter()
        .enumerate()
        .map(|(i, e)| {
            (
                (co.event_base + i as u64 + 1) as i64,
                e.entity.name().to_string(),
                e.entity_id.clone(),
                e.op.as_str().to_string(),
            )
        })
        .collect()
}

fn dept_ids(co: &Company) -> Vec<String> {
    let mut rows: Vec<(u64, String)> = co
        .departments
        .keys
        .iter()
        .zip(co.departments.values.iter())
        .map(|(id, row)| (row.ordinal, id.clone()))
        .collect();
    rows.sort();
    rows.into_iter().map(|(_, id)| id).collect()
}

fn people_ids(co: &Company) -> Vec<String> {
    co.roster()
}

fn dept_ordinals(co: &Company) -> Vec<i64> {
    let mut v: Vec<i64> = co.departments.values.iter().map(|r| r.ordinal as i64).collect();
    v.sort();
    v
}

fn people_ordinals(co: &Company) -> Vec<i64> {
    let mut v: Vec<i64> = co.people.values.iter().map(|r| r.ordinal as i64).collect();
    v.sort();
    v
}

fn is_gapless_bijection(ordinals: &[i64]) -> bool {
    ordinals.iter().enumerate().all(|(i, o)| *o == i as i64)
}

/// A head for every unit, who is there, employed, at home in it and in one
/// headship; a unit for everybody; every parent there; the places without a
/// gap.
fn assert_chart_valid(co: &Company) {
    for (id, row) in co.departments.keys.iter().zip(co.departments.values.iter()) {
        let head = co.people.get(&row.head_person_id).expect("a head who is there");
        assert_eq!(&head.department_id, id, "a head is at home in the unit they head");
        assert_ne!(head.employment_state, EmploymentState::Departed);
        assert_ne!(head.kind, PersonKind::Worker, "a worker cannot head a department");
        match &row.parent_id {
            Some(parent) => assert!(co.departments.has(parent), "a parent that is there"),
            None => assert_eq!(id, "executive"),
        }
    }
    for (id, row) in co.people.keys.iter().zip(co.people.values.iter()) {
        assert!(co.departments.has(&row.department_id), "{id} has a unit");
        let heads = co.departments.values.iter().filter(|d| &d.head_person_id == id).count();
        match row.kind {
            PersonKind::Worker => assert_eq!(heads, 0),
            _ => assert_eq!(heads, 1, "{id} heads exactly one unit"),
        }
    }
    assert!(is_gapless_bijection(&dept_ordinals(co)));
    assert!(is_gapless_bijection(&people_ordinals(co)));
}

/// The root with an office, engineering with a platform team beneath it, and
/// fund operations.
fn open_reorg() -> Company {
    let mut co = company();
    dept(&mut co, "executive", "", "Executive", "ada", 0);
    dept(&mut co, "office-of-the-ceo", "executive", "Office of the CEO", "cos", 1);
    dept(&mut co, "eng", "executive", "Engineering", "bo", 2);
    dept(&mut co, "eng-platform", "eng", "Platform", "pi", 3);
    dept(&mut co, "fund-ops", "executive", "Fund Ops", "fo", 4);
    person(&mut co, "ada", PersonKind::Executive, "executive", 0);
    person(&mut co, "cos", PersonKind::Head, "office-of-the-ceo", 1);
    person(&mut co, "bo", PersonKind::Head, "eng", 2);
    person(&mut co, "pi", PersonKind::Head, "eng-platform", 3);
    person(&mut co, "fo", PersonKind::Head, "fund-ops", 4);
    co
}

#[test]
fn ceo_only_prepare_retracts_everybody_else_and_asks_for_the_root_by_name() {
    let mut co = open_reorg();
    activity_row(&mut co, "ada", true, None);
    activity_row(&mut co, "cos", true, Some("transition:7:cos:park"));
    activity_row(&mut co, "bo", true, None);
    fence(&mut co, "cos");
    fence(&mut co, "bo");
    let seq = prepare_ceo_only(&mut co, "2026-08-02T13:10:44.000Z", "company-ceo")
        .expect("CEO-only preparation");
    assert_eq!(
        seq, 6,
        "activity, launch-intent (two clears plus the root's own grant) and quiesce touches \
         commit together"
    );
    assert_eq!(desired(&co, "ada"), Some(1), "the root head remains desired-active");
    assert_eq!(desired(&co, "cos"), Some(0));
    assert_eq!(desired(&co, "bo"), Some(0));
    assert_eq!(
        pointer(&co, "cos"),
        some("transition:7:cos:park"),
        "unrelated activity state is preserved"
    );
    assert_eq!(
        fenced(&co),
        vec!["ada".to_owned()],
        "the root gets a start decision and every report's is cleared"
    );
    assert_eq!(co.quiesce_since, some("2026-08-02T13:10:44.000Z"));
    assert_eq!(
        feed(&co).into_iter().find(|(_, e, ..)| e == "goal-delivery-quiesce").unwrap(),
        (6, "goal-delivery-quiesce".to_string(), "acme".to_string(), "upsert".to_string())
    );

    let same = prepare_ceo_only(&mut co, "2026-08-02T13:10:44.000Z", "company-ceo")
        .expect("idempotent CEO-only preparation");
    assert_eq!(same, seq, "the identical CEO-only durable state emits no new event");

    let advanced = prepare_ceo_only(&mut co, "2026-08-02T13:10:45.000Z", "company-ceo")
        .expect("new CEO-only episode");
    assert_eq!(advanced, seq + 1, "a newer episode advances only its quiesce touch");
    assert_eq!(co.quiesce_since, some("2026-08-02T13:10:45.000Z"));
}

#[test]
fn a_fresh_company_gets_a_start_decision_for_its_root() {
    let mut co = open_reorg();
    prepare_ceo_only(&mut co, "2026-08-02T13:10:44.000Z", "company-ceo")
        .expect("CEO-only preparation on a fresh company");
    assert_eq!(
        fenced(&co),
        vec!["ada".to_owned()],
        "a company with nothing durable yet still asks for its root by name"
    );
}

#[test]
fn a_later_attach_asks_for_the_root_again_after_it_was_withdrawn() {
    let mut co = open_reorg();
    prepare_ceo_only(&mut co, "2026-08-02T13:10:44.000Z", "company-ceo").expect("first attach");
    co.fences.take_out("ada");
    activity_row(&mut co, "ada", false, None);
    assert!(fenced(&co).is_empty(), "the settled root holds no start decision");
    prepare_ceo_only(&mut co, "2026-08-02T13:10:46.000Z", "company-ceo")
        .expect("the operator attaches again");
    assert_eq!(
        fenced(&co),
        vec!["ada".to_owned()],
        "the operator's arrival is the root's demand, every time they arrive"
    );
}

#[test]
fn preparing_a_company_that_has_not_been_created_is_refused() {
    let mut co = Company::new("acme");
    let err = prepare_ceo_only(&mut co, "t1", "company-ceo").unwrap_err();
    assert_eq!(err.code(), "unknown-company");
    assert_eq!(co, Company::new("acme"));
}

#[test]
fn shutdown_writes_an_abandoned_terminal_park_clears_desired_and_intent() {
    let mut co = open();
    fence(&mut co, "bo");
    let out = shutdown_person(
        &mut co,
        "bo",
        &ShutdownKind::AutomaticSettle,
        "2026-07-25T00:00:00.000Z",
        "",
    )
    .unwrap();
    assert!(matches!(out, ShutdownOutcome::Applied { .. }));
    let rows = transitions_of(&co, "bo");
    assert_eq!(rows.len(), 1);
    let row = rows[0];
    assert_eq!(row.status.as_str(), "cancelled");
    assert_eq!(row.action.as_str(), "park");
    assert_eq!(row.intent_id, None);
    assert!(row.abandoned_at.is_some(), "the abandoned marker is explicit");
    assert!(!row.reason.trim().is_empty(), "a reason on every transition");
    assert_eq!(row.placement_department_id, some("eng"));
    assert!(!row.handoff_deadline_at.clone().unwrap().is_empty());
    assert_eq!(desired(&co, "bo"), Some(0));
    assert_eq!(fenced(&co).len(), 0);
}

#[test]
fn commanded_stop_stamps_the_person_stop_intent_on_the_terminal_park() {
    let mut co = open();
    shutdown_person(
        &mut co,
        "bo",
        &ShutdownKind::Commanded { intent_id: "person-stop:e2e".into() },
        "2026-07-25T00:00:00.000Z",
        "operator",
    )
    .unwrap();
    let rows = transitions_of(&co, "bo");
    assert_eq!(rows[0].action.as_str(), "park");
    assert_eq!(rows[0].intent_id, some("person-stop:e2e"));
    assert_eq!(rows[0].reason, "stopped bo (person-stop:e2e)");
}

#[test]
fn shutdown_supersedes_an_open_transition_leaving_only_terminal_history() {
    let mut co = open();
    transition_row(&mut co, "open-1", "bo", TransitionAction::Park, TransitionStatus::Ready);
    let out = shutdown_person(
        &mut co,
        "bo",
        &ShutdownKind::Commanded { intent_id: "person-stop:42".into() },
        "2026-07-25T00:00:00.000Z",
        "chief",
    )
    .unwrap();
    assert!(matches!(out, ShutdownOutcome::Applied { .. }));
    assert_eq!(transition(&co, "open-1").status.as_str(), "cancelled");
    assert_eq!(transition(&co, "open-1").reason, "superseded-by-shutdown:person-stop:42");
    let rows = transitions_of(&co, "bo");
    assert!(
        rows.iter().all(|t| t.status.as_str() == "cancelled"),
        "no live transition survives a completed stop"
    );
    assert_eq!(
        rows.iter().filter(|t| t.abandoned_at.is_some()).count(),
        1,
        "the terminal row is the explicit abandoned record"
    );
}

#[test]
fn shutdown_refuses_the_ceo_and_writes_nothing() {
    let mut co = open();
    let out = shutdown_person(
        &mut co,
        "ada",
        &ShutdownKind::Commanded { intent_id: "person-stop:1".into() },
        "2026-07-25T00:00:00.000Z",
        "operator",
    )
    .unwrap();
    assert_eq!(out, ShutdownOutcome::Refused { reason: ShutdownRefusal::CeoExempt });
    assert_eq!(co.transitions.len(), 0);
    assert_eq!(desired(&co, "ada"), None);
}

#[test]
fn shutdown_refuses_the_ceo_alone_not_the_staff_beside_them() {
    let mut co = open();
    let cos = shutdown_person(
        &mut co,
        "cos",
        &ShutdownKind::Commanded { intent_id: "person-stop:9".into() },
        "2026-07-25T00:00:00.000Z",
        "operator",
    )
    .unwrap();
    assert!(
        matches!(cos, ShutdownOutcome::Applied { .. }),
        "a chief of staff in office-of-the-ceo is stoppable like anybody else: {cos:?}"
    );
    assert!(is_ceo(&co, "ada"));
    assert!(!is_ceo(&co, "cos"), "a chief of staff is not the CEO");
    assert!(!is_ceo(&co, "bo"));
}

#[test]
fn shutdown_still_refuses_the_ceo_and_writes_nothing_at_all() {
    let mut co = open();
    let before = co.clone();
    let ada = shutdown_person(
        &mut co,
        "ada",
        &ShutdownKind::Commanded { intent_id: "person-stop:9".into() },
        "2026-07-25T00:00:00.000Z",
        "operator",
    )
    .unwrap();
    assert_eq!(ada, ShutdownOutcome::Refused { reason: ShutdownRefusal::CeoExempt });
    assert_eq!(co.transitions.len(), 0);
    assert_eq!(co, before);
}

#[test]
fn unrelated_events_do_not_block_a_shutdown() {
    let mut co = open();
    prior_event(&mut co);
    let out = shutdown_person(
        &mut co,
        "bo",
        &ShutdownKind::AutomaticSettle,
        "2026-07-25T00:00:00.000Z",
        "",
    )
    .unwrap();
    assert!(matches!(out, ShutdownOutcome::Applied { .. }));
    assert_eq!(co.transitions.len(), 1);
}

#[test]
fn emits_row_level_touches_as_one_contiguous_seq_run() {
    let mut co = open();
    fence(&mut co, "bo");
    transition_row(&mut co, "open-1", "bo", TransitionAction::Park, TransitionStatus::Ready);
    shutdown_person(
        &mut co,
        "bo",
        &ShutdownKind::Commanded { intent_id: "person-stop:7".into() },
        "2026-07-25T00:00:00.000Z",
        "operator",
    )
    .unwrap();
    let rows = feed(&co);
    let ops: Vec<(&str, &str)> = rows.iter().map(|(_, e, _, o)| (e.as_str(), o.as_str())).collect();
    assert_eq!(
        ops,
        vec![
            ("transition", "upsert"),
            ("transition", "upsert"),
            ("person-activity", "upsert"),
            ("launch-intent", "delete"),
        ]
    );
    let seqs: Vec<i64> = rows.iter().map(|(s, ..)| *s).collect();
    assert_eq!(seqs, vec![1, 2, 3, 4]);
    let refs: Vec<String> = co.events.iter().map(|e| e.detail_ref("acme")).collect();
    assert!(refs.iter().any(|d| d == "person_activity:acme/bo"));
    assert!(refs.iter().any(|d| d == "launch_intent:acme/bo"));
}

#[test]
fn shutdown_of_somebody_who_is_not_there_is_an_error_and_changes_nothing() {
    let mut co = open();
    let before = co.clone();
    assert_eq!(
        shutdown_person(&mut co, "nobody", &ShutdownKind::AutomaticSettle, "t1", ""),
        Err(RowError::NoRows)
    );
    assert_eq!(co, before);
}

#[test]
fn a_shutdown_names_the_transition_it_minted() {
    let mut co = open();
    co.transition_seq = 41;
    let out =
        shutdown_person(&mut co, "bo", &ShutdownKind::AutomaticSettle, "t1", "").unwrap();
    assert_eq!(
        out,
        ShutdownOutcome::Applied { transition_id: "transition:42:bo:park".to_string() }
    );
    assert_eq!(transition(&co, "transition:42:bo:park").reason, "settled idle bo");
}
