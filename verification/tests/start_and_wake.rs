#![allow(dead_code, unused_imports)]

use chiefd_core::company::{
    ActivityRow, Company, DepartmentRow, Entity, EventOp, EventRow, Fence, OrgSettings, PersonRow,
    SettingsRow, StaffingEntry, TransitionAction, TransitionRow, TransitionStatus,
};
use chiefd_core::org_ops::{
    appoint_department_head, bench_person, bench_person_lifecycle, create_department,
    create_department_with_staff, create_department_with_staff_unit, department_is_company_root,
    hire_person, hire_person_authorized, is_ceo, move_department_members, offboard_person,
    pause_department, prepare_ceo_only, reactivate_executive_root, recall_person,
    remove_department_tree, reparent_department, replace_head_and_offboard, resume_department,
    resume_departments, shutdown_person, start_person, transfer_person, validate_new_person_seed,
    wake_person, AppointOutcome, AppointRefusal, BenchLifecycleOutcome, BenchOutcome, BenchRefusal,
    CreateDepartmentOutcome, CreateDepartmentRefusal, DepartmentCreateUnit, DepartmentStaffSeed,
    DirectOutcome, HeadDecision, HeadIneligibility, HeadVacancy, HeadVacancyRefusal, HireOutcome,
    HireRefusal, NewPersonSeed, OffboardOutcome, OffboardRefusal, OwnedNewPersonSeed,
    PauseOutcome, PauseRefusal, RemoveDepartmentOutcome, ReparentOutcome, ReparentRefusal,
    RowError, SeedRejection, ShutdownKind, ShutdownOutcome, ShutdownRefusal, TransferOutcome,
    TransferRefusal, VacancyRefusal,
};
use chiefd_core::organization::{EmploymentState, PersonKind, UnitKind, UnitState};
use chiefd_core::rows::ledger::IDLE_AUTO_PARK_REASON;

fn some(s: &str) -> Option<String> {
    Some(s.to_string())
}

/// A company with a settings row and nothing else.
fn company() -> Company {
    let mut co = Company::new("acme");
    co.settings = Some(SettingsRow {
        display_slug: "acme".to_string(),
        settings: OrgSettings {
            launcher_root: None,
            supervision_interval_ms: 60000,
            acknowledgement_timeout_ms: 30000,
            acknowledgement_retry_limit: 3,
            replacement_limit: 3,
        },
    });
    co
}

fn dept(co: &mut Company, id: &str, parent: &str, name: &str, head: &str, ordinal: u64) {
    co.departments.put(
        id,
        DepartmentRow {
            parent_id: if parent.is_empty() { None } else { some(parent) },
            name: name.to_string(),
            purpose: String::new(),
            kind: if parent.is_empty() { UnitKind::Company } else { UnitKind::Department },
            transient: None,
            state: UnitState::Active,
            head_person_id: head.to_string(),
            ordinal,
            created_at: "t".to_string(),
            updated_at: "t".to_string(),
        },
    );
}

fn person(co: &mut Company, id: &str, kind: PersonKind, department: &str, ordinal: u64) {
    co.people.put(
        id,
        PersonRow {
            name: id.to_string(),
            title: "title".to_string(),
            mandate: "mandate".to_string(),
            kind,
            employment_state: EmploymentState::Active,
            department_id: department.to_string(),
            activation: "resident".to_string(),
            tools: Vec::new(),
            prompts: Vec::new(),
            ordinal,
            created_at: "t".to_string(),
            updated_at: "t".to_string(),
        },
    );
}

/// The executive root headed by `ada`, the office of the CEO headed by `cos`,
/// and engineering headed by `bo`.
fn open() -> Company {
    let mut co = company();
    dept(&mut co, "executive", "", "Executive", "ada", 0);
    dept(&mut co, "office-of-the-ceo", "executive", "Office of the CEO", "cos", 1);
    dept(&mut co, "eng", "executive", "Engineering", "bo", 2);
    person(&mut co, "ada", PersonKind::Executive, "executive", 0);
    person(&mut co, "cos", PersonKind::Head, "office-of-the-ceo", 1);
    person(&mut co, "bo", PersonKind::Worker, "eng", 2);
    co
}

fn person_mut<'a>(co: &'a mut Company, id: &str) -> &'a mut PersonRow {
    let i = co.people.find(id).expect("person");
    &mut co.people.values[i]
}

fn dept_mut<'a>(co: &'a mut Company, id: &str) -> &'a mut DepartmentRow {
    let i = co.departments.find(id).expect("department");
    &mut co.departments.values[i]
}

fn transition_mut<'a>(co: &'a mut Company, id: &str) -> &'a mut TransitionRow {
    let i = co.transitions.find(id).expect("transition");
    &mut co.transitions.values[i]
}

fn activity_mut<'a>(co: &'a mut Company, id: &str) -> &'a mut ActivityRow {
    let i = co.activity.find(id).expect("activity");
    &mut co.activity.values[i]
}

fn employ(co: &mut Company, id: &str, state: EmploymentState) {
    person_mut(co, id).employment_state = state;
}

fn pause_row(co: &mut Company, id: &str) {
    dept_mut(co, id).state = UnitState::Paused;
}

fn fence(co: &mut Company, id: &str) {
    co.fences.put(id, Fence {});
}

fn transition_row(
    co: &mut Company,
    id: &str,
    person: &str,
    action: TransitionAction,
    status: TransitionStatus,
) {
    co.transitions.put(
        id,
        TransitionRow {
            person_id: person.to_string(),
            action,
            status,
            intent_id: None,
            reason: String::new(),
            placement_department_id: None,
            requested_at: "t0".to_string(),
            handoff_deadline_at: None,
            applied_at: None,
            cancelled_at: None,
            abandoned_at: None,
        },
    );
}

fn activity_row(co: &mut Company, person: &str, desired: bool, pointer: Option<&str>) {
    co.activity.put(
        person,
        ActivityRow {
            last_desired_active: desired,
            last_operational: false,
            last_department_id: None,
            last_employment_state: None,
            agent_quiet_at: None,
            idle_since: None,
            agent_active_at: None,
            operator_wake_at: None,
            active_transition_id: pointer.map(|p| p.to_string()),
            updated_at: "t".to_string(),
        },
    );
}

/// One event already in the feed.
fn prior_event(co: &mut Company) {
    co.events.push(EventRow {
        entity: Entity::Person,
        entity_id: "x".to_string(),
        op: EventOp::Upsert,
        at: "t".to_string(),
        actor: String::new(),
    });
}

fn person_row<'a>(co: &'a Company, id: &str) -> &'a PersonRow {
    co.people.get(id).expect("person")
}

fn home(co: &Company, id: &str) -> String {
    person_row(co, id).department_id.clone()
}

fn employment(co: &Company, id: &str) -> &'static str {
    person_row(co, id).employment_state.as_str()
}

fn kind(co: &Company, id: &str) -> &'static str {
    person_row(co, id).kind.as_str()
}

fn dept_row<'a>(co: &'a Company, id: &str) -> &'a DepartmentRow {
    co.departments.get(id).expect("department")
}

fn head_of(co: &Company, id: &str) -> Option<String> {
    co.departments.get(id).map(|row| row.head_person_id.clone())
}

fn state_of(co: &Company, id: &str) -> &'static str {
    dept_row(co, id).state.as_str()
}

fn transition<'a>(co: &'a Company, id: &str) -> &'a TransitionRow {
    co.transitions.get(id).expect("transition")
}

fn transitions_of<'a>(co: &'a Company, person: &str) -> Vec<&'a TransitionRow> {
    co.transitions.values.iter().filter(|t| t.person_id == person).collect()
}

fn desired(co: &Company, person: &str) -> Option<i64> {
    co.activity.get(person).map(|row| if row.last_desired_active { 1 } else { 0 })
}

fn pointer(co: &Company, person: &str) -> Option<String> {
    co.activity.get(person).expect("activity").active_transition_id.clone()
}

/// The quiet, idle and active clocks of somebody.
fn clocks(co: &Company, person: &str) -> (Option<String>, Option<String>, Option<String>) {
    let row = co.activity.get(person).expect("activity");
    (row.agent_quiet_at.clone(), row.idle_since.clone(), row.agent_active_at.clone())
}

fn fenced(co: &Company) -> Vec<String> {
    co.fences.list()
}

/// What the staffing history says of somebody: action, from, to, reason.
fn staffing(co: &Company, person: &str) -> Vec<(String, Option<String>, Option<String>, String)> {
    co.staffing
        .iter()
        .filter(|e| e.person_id == person)
        .map(|e| {
            (
                e.action.as_str().to_string(),
                e.from_department_id.clone(),
                e.to_department_id.clone(),
                e.reason.clone(),
            )
        })
        .collect()
}

fn actions(co: &Company, person: &str) -> Vec<String> {
    staffing(co, person).into_iter().map(|(action, ..)| action).collect()
}

/// The feed: sequence, entity, entity id, op.
fn feed(co: &Company) -> Vec<(i64, String, String, String)> {
    co.events
        .iter()
        .enumerate()
        .map(|(i, e)| {
            (
                (co.event_base + i as u64 + 1) as i64,
                e.entity.name().to_string(),
                e.entity_id.clone(),
                e.op.as_str().to_string(),
            )
        })
        .collect()
}

fn dept_ids(co: &Company) -> Vec<String> {
    let mut rows: Vec<(u64, String)> = co
        .departments
        .keys
        .iter()
        .zip(co.departments.values.iter())
        .map(|(id, row)| (row.ordinal, id.clone()))
        .collect();
    rows.sort();
    rows.into_iter().map(|(_, id)| id).collect()
}

fn people_ids(co: &Company) -> Vec<String> {
    co.roster()
}

fn dept_ordinals(co: &Company) -> Vec<i64> {
    let mut v: Vec<i64> = co.departments.values.iter().map(|r| r.ordinal as i64).collect();
    v.sort();
    v
}

fn people_ordinals(co: &Company) -> Vec<i64> {
    let mut v: Vec<i64> = co.people.values.iter().map(|r| r.ordinal as i64).collect();
    v.sort();
    v
}

fn is_gapless_bijection(ordinals: &[i64]) -> bool {
    ordinals.iter().enumerate().all(|(i, o)| *o == i as i64)
}

/// A head for every unit, who is there, employed, at home in it and in one
/// headship; a unit for everybody; every parent there; the places without a
/// gap.
fn assert_chart_valid(co: &Company) {
    for (id, row) in co.departments.keys.iter().zip(co.departments.values.iter()) {
        let head = co.people.get(&row.head_person_id).expect("a head who is there");
        assert_eq!(&head.department_id, id, "a head is at home in the unit they head");
        assert_ne!(head.employment_state, EmploymentState::Departed);
        assert_ne!(head.kind, PersonKind::Worker, "a worker cannot head a department");
        match &row.parent_id {
            Some(parent) => assert!(co.departments.has(parent), "a parent that is there"),
            None => assert_eq!(id, "executive"),
        }
    }
    for (id, row) in co.people.keys.iter().zip(co.people.values.iter()) {
        assert!(co.departments.has(&row.department_id), "{id} has a unit");
        let heads = co.departments.values.iter().filter(|d| &d.head_person_id == id).count();
        match row.kind {
            PersonKind::Worker => assert_eq!(heads, 0),
            _ => assert_eq!(heads, 1, "{id} heads exactly one unit"),
        }
    }
    assert!(is_gapless_bijection(&dept_ordinals(co)));
    assert!(is_gapless_bijection(&people_ordinals(co)));
}

#[test]
fn start_person_is_exactly_one_person_and_each_success_refreshes_its_idle_lease() {
    let mut co = open();
    assert_eq!(
        start_person(&mut co, "bo", "2026-08-02T13:10:44.000Z", "operator").unwrap(),
        DirectOutcome::Applied,
    );
    assert_eq!(desired(&co, "bo"), Some(1));
    assert_eq!(desired(&co, "ada"), None, "the CEO is not re-authorized as a side effect");
    assert_eq!(desired(&co, "cos"), None, "a sibling is never started");
    assert_eq!(
        clocks(&co, "bo"),
        (some("2026-08-02T13:10:44.000Z"), some("2026-08-02T13:10:44.000Z"), None),
        "the successful start begins this person's fresh idle lease"
    );
    assert_eq!(fenced(&co), vec!["bo"]);
    let first_seq = co.last_seq();
    assert_eq!(
        start_person(&mut co, "bo", "2026-08-02T13:10:45.000Z", "operator").unwrap(),
        DirectOutcome::Applied,
        "a repeated explicit start remains valid",
    );
    assert_eq!(
        co.last_seq(),
        first_seq + 1,
        "the new start decision emits exactly its refreshed person-activity fact"
    );
    assert_eq!(
        clocks(&co, "bo"),
        (some("2026-08-02T13:10:45.000Z"), some("2026-08-02T13:10:45.000Z"), None),
        "each successful explicit start replaces the prior lease instead of inheriting it"
    );
}

/// What settling leaves behind: an applied routine park that the activity still
/// points at, nobody wanted up, and no start decision.
fn park(co: &mut Company, person: &str, department: &str) {
    let id = format!("park-{person}");
    transition_row(co, &id, person, TransitionAction::Park, TransitionStatus::Applied);
    let row = transition_mut(co, &id);
    row.reason = IDLE_AUTO_PARK_REASON.to_string();
    row.placement_department_id = some(department);
    row.requested_at = "t".to_string();
    row.applied_at = some("t");
    activity_row(co, person, false, Some(&id));
}

#[test]
fn waking_a_parked_person_grants_intent_and_releases_the_lapsed_park() {
    let mut co = open();
    park(&mut co, "bo", "eng");
    assert_eq!(fenced(&co), Vec::<String>::new(), "a settled person carries no intent");
    assert_eq!(
        wake_person(&mut co, "bo", "2026-08-13T09:00:00.000Z", "operator").unwrap(),
        DirectOutcome::Applied,
    );
    assert_eq!(fenced(&co), vec!["bo".to_string()], "the grant, and nobody else's");
    assert_eq!(pointer(&co, "bo"), None, "the lapsed park is released");
    assert_eq!(desired(&co, "bo"), Some(0), "whether they are wanted up is left alone");
}

#[test]
fn waking_leaves_a_terminal_park_applied_rather_than_rewriting_history() {
    let mut co = open();
    park(&mut co, "bo", "eng");
    wake_person(&mut co, "bo", "2026-08-13T09:00:00.000Z", "operator").unwrap();
    assert_eq!(transition(&co, "park-bo").status.as_str(), "applied");
}

#[test]
fn waking_someone_mid_settle_cancels_the_open_park() {
    let mut co = open();
    park(&mut co, "bo", "eng");
    let row = transition_mut(&mut co, "park-bo");
    row.status = TransitionStatus::AwaitingHandoff;
    row.applied_at = None;
    wake_person(&mut co, "bo", "2026-08-13T09:00:00.000Z", "operator").unwrap();
    assert_eq!(transition(&co, "park-bo").status.as_str(), "cancelled");
    assert_eq!(
        transition(&co, "park-bo").reason, "superseded-by-wake:bo",
        "the override fact lives on the cancelled row"
    );
    assert_eq!(pointer(&co, "bo"), None);
}

#[test]
fn waking_never_releases_an_intent_bound_park() {
    let mut co = open();
    park(&mut co, "bo", "eng");
    let row = transition_mut(&mut co, "park-bo");
    row.intent_id = some("shutdown-1");
    row.reason = "Operator shutdown.".to_string();
    wake_person(&mut co, "bo", "2026-08-13T09:00:00.000Z", "operator").unwrap();
    assert_eq!(
        pointer(&co, "bo"),
        some("park-bo"),
        "an attended decision is not a scheduler hint and a click must not undo it"
    );
}

#[test]
fn waking_twice_is_harmless_and_an_exact_replay_writes_nothing() {
    let mut co = open();
    park(&mut co, "bo", "eng");
    wake_person(&mut co, "bo", "2026-08-13T09:00:00.000Z", "operator").unwrap();
    let first = co.last_seq();
    assert_eq!(
        wake_person(&mut co, "bo", "2026-08-13T09:00:00.000Z", "operator").unwrap(),
        DirectOutcome::Applied,
    );
    assert_eq!(
        co.last_seq(),
        first,
        "the fence, the pointer and the wake instant are already where the wake wants them"
    );
    assert_eq!(
        wake_person(&mut co, "bo", "2026-08-13T09:00:01.000Z", "operator").unwrap(),
        DirectOutcome::Applied,
    );
    assert_eq!(
        co.activity.get("bo").unwrap().operator_wake_at,
        some("2026-08-13T09:00:01.000Z"),
        "a second click restarts the floor rather than inheriting what is left of the first"
    );
}

#[test]
fn waking_refuses_an_actor_who_does_not_manage_the_target() {
    let mut co = open();
    park(&mut co, "cos", "office-of-the-ceo");
    assert!(matches!(
        wake_person(&mut co, "cos", "2026-08-13T09:00:00.000Z", "bo").unwrap(),
        DirectOutcome::Refused { code: "actor-out-of-scope", .. }
    ));
    assert_eq!(fenced(&co), Vec::<String>::new(), "a refused wake opens no fence");
}

#[test]
fn the_ceo_wakes_anybody_because_the_ceo_heads_the_root() {
    let mut co = open();
    park(&mut co, "cos", "office-of-the-ceo");
    assert_eq!(
        wake_person(&mut co, "cos", "2026-08-13T09:00:00.000Z", "ada").unwrap(),
        DirectOutcome::Applied,
    );
    assert_eq!(fenced(&co), vec!["cos".to_string()]);
}

#[test]
fn waking_a_benched_person_recalls_them_instead_of_refusing() {
    let mut co = open();
    park(&mut co, "bo", "eng");
    employ(&mut co, "bo", EmploymentState::Benched);
    assert_eq!(
        wake_person(&mut co, "bo", "2026-08-13T09:00:00.000Z", "operator").unwrap(),
        DirectOutcome::Applied,
        "a click is always a wake"
    );
    assert_eq!(fenced(&co), vec!["bo".to_string()], "and they are fenced to run");
    assert_eq!(employment(&co, "bo"), "active", "the bench did not survive the click");
}

#[test]
fn waking_clears_the_quiet_clock_so_the_settle_cannot_reparked_them_at_once() {
    let mut co = open();
    park(&mut co, "bo", "eng");
    activity_mut(&mut co, "bo").agent_quiet_at = some("2026-08-13T08:00:00.000Z");
    assert_eq!(
        wake_person(&mut co, "bo", "2026-08-13T09:00:00.000Z", "operator").unwrap(),
        DirectOutcome::Applied,
    );
    let (quiet, idle, _) = clocks(&co, "bo");
    assert_eq!(quiet, None, "the countdown to the next park starts from the wake");
    assert_eq!(idle, None, "and the idle clock with it");
}

#[test]
fn waking_a_departed_person_still_refuses_because_a_rehire_is_not_a_click() {
    let mut co = open();
    park(&mut co, "bo", "eng");
    employ(&mut co, "bo", EmploymentState::Departed);
    assert!(matches!(
        wake_person(&mut co, "bo", "2026-08-13T09:00:00.000Z", "operator").unwrap(),
        DirectOutcome::Refused { code: "person-departed", .. }
    ));
    assert_eq!(fenced(&co), Vec::<String>::new(), "and nothing was opened for them");
}

#[test]
fn waking_refuses_a_paused_department_without_opening_the_fence() {
    let mut co = open();
    park(&mut co, "bo", "eng");
    pause_row(&mut co, "eng");
    assert!(matches!(
        wake_person(&mut co, "bo", "2026-08-13T09:00:00.000Z", "operator").unwrap(),
        DirectOutcome::Refused { code: "destination-paused", .. }
    ));
    assert_eq!(fenced(&co), Vec::<String>::new());
}

#[test]
fn waking_a_stranger_refuses_and_names_the_reason() {
    let mut co = open();
    assert!(matches!(
        wake_person(&mut co, "nobody", "2026-08-13T09:00:00.000Z", "operator").unwrap(),
        DirectOutcome::Refused { code: "unknown-person", .. }
    ));
}

#[test]
fn a_stood_down_company_refuses_every_start_and_wake_and_opens_no_fence() {
    let mut co = open();
    co.stood_down = true;
    for outcome in [
        start_person(&mut co, "bo", "2026-08-18T10:01:00.000Z", "operator").unwrap(),
        wake_person(&mut co, "bo", "2026-08-18T10:01:00.000Z", "operator").unwrap(),
    ] {
        let DirectOutcome::Refused { code, detail } = outcome else {
            panic!("a stood-down company must refuse: {outcome:?}");
        };
        assert_eq!(code, "company-stood-down");
        assert!(detail.contains("chief resume"), "the refusal names the way out: {detail}");
    }
    assert_eq!(fenced(&co).len(), 0, "a refused start never opens a fence");
    assert_eq!(desired(&co, "bo"), None, "and never raises the durable demand either");
}

#[test]
fn a_resumed_company_starts_people_again() {
    let mut co = open();
    co.stood_down = true;
    co.stood_down = false;
    assert_eq!(
        start_person(&mut co, "bo", "2026-08-18T10:02:00.000Z", "operator").unwrap(),
        DirectOutcome::Applied,
    );
    assert_eq!(desired(&co, "bo"), Some(1));
}

#[test]
fn a_hire_during_a_stand_down_creates_the_person_and_fences_nobody() {
    let mut co = open();
    co.stood_down = true;
    co.fence_started("bo");
    assert!(co.touches.is_empty(), "no fence touch was emitted");
    assert_eq!(fenced(&co).len(), 0, "the shared staffing helper opens no fence while stood down");
    let seed = NewPersonSeed {
        name: "Zoe",
        title: "Engineer",
        mandate: "build",
        kind: PersonKind::Worker,
        employment_state: EmploymentState::Active,
        activation: "resident",
        tools: &[],
        prompts: &[],
    };
    assert_eq!(
        hire_person(&mut co, "zoe", "eng", &seed, "ada", "t1", "ada").unwrap(),
        HireOutcome::Applied
    );
    assert_eq!(home(&co, "zoe"), "eng");
    assert_eq!(fenced(&co).len(), 0);
}

#[test]
fn start_person_refuses_paused_people_without_opening_the_fence() {
    let mut co = open();
    pause_row(&mut co, "eng");
    assert!(matches!(
        start_person(&mut co, "bo", "2026-08-02T13:10:45.000Z", "operator").unwrap(),
        DirectOutcome::Refused { code: "destination-paused", .. }
    ));
    assert_eq!(fenced(&co).len(), 0, "a refused start never opens a fence");
}

#[test]
fn starting_the_ceo_never_creates_an_idle_lease() {
    let mut co = open();
    assert_eq!(
        start_person(&mut co, "ada", "2026-08-02T13:10:44.000Z", "operator").unwrap(),
        DirectOutcome::Applied,
    );
    assert_eq!(clocks(&co, "ada"), (None, None, None), "the root CEO holds a permanent lease");
}

#[test]
fn explicit_start_refreshes_the_lease_but_does_not_release_an_intent_bound_stop() {
    let mut co = open();
    transition_row(&mut co, "stop-bo", "bo", TransitionAction::Park, TransitionStatus::Ready);
    let row = transition_mut(&mut co, "stop-bo");
    row.intent_id = some("person-stop:bo");
    row.reason = "Operator stop.".to_string();
    row.placement_department_id = some("eng");
    row.requested_at = "2026-08-02T13:00:00.000Z".to_string();
    row.handoff_deadline_at = some("2026-08-02T13:00:00.000Z");
    activity_row(&mut co, "bo", false, Some("stop-bo"));
    let row = activity_mut(&mut co, "bo");
    row.agent_quiet_at = some("2026-08-02T12:00:00.000Z");
    row.idle_since = some("2026-08-02T12:00:00.000Z");
    row.updated_at = "2026-08-02T13:00:00.000Z".to_string();
    assert_eq!(
        start_person(&mut co, "bo", "2026-08-02T13:10:44.000Z", "operator").unwrap(),
        DirectOutcome::Applied,
    );
    assert_eq!(transition(&co, "stop-bo").status.as_str(), "ready");
    assert_eq!(transition(&co, "stop-bo").intent_id, some("person-stop:bo"));
    assert_eq!(pointer(&co, "bo"), some("stop-bo"), "the attended stop stays authoritative");
    assert_eq!(desired(&co, "bo"), Some(1), "the explicit start remains a successful decision");
    let (quiet, idle, _) = clocks(&co, "bo");
    assert_eq!(quiet, some("2026-08-02T13:10:44.000Z"));
    assert_eq!(idle, some("2026-08-02T13:10:44.000Z"));
    assert_eq!(fenced(&co), vec!["bo"], "the stop is preserved without discarding the new fence");
}

#[test]
fn start_person_atomically_rehires_a_departed_person_and_starts_them() {
    let mut co = open();
    employ(&mut co, "bo", EmploymentState::Departed);
    assert_eq!(
        start_person(&mut co, "bo", "2026-08-02T13:10:44.000Z", "operator").unwrap(),
        DirectOutcome::Applied,
        "a departed person is rehired and started in one call, never refused",
    );
    assert_eq!(employment(&co, "bo"), "active");
    assert_eq!(kind(&co, "bo"), "worker");
    assert_eq!(desired(&co, "bo"), Some(1), "the rehired person comes back up");
    assert_eq!(fenced(&co), vec!["bo"]);
    assert_eq!(
        actions(&co, "bo").last().unwrap(),
        "rehired",
        "the rehire is durably auditable, and is not a recall"
    );
}

#[test]
fn start_person_refuses_a_rehire_whose_home_department_is_gone() {
    let mut co = open();
    employ(&mut co, "bo", EmploymentState::Departed);
    co.departments.take_out("eng");
    assert!(matches!(
        start_person(&mut co, "bo", "2026-08-02T13:10:44.000Z", "operator").unwrap(),
        DirectOutcome::Refused { code: "home-department-gone", .. }
    ));
    assert_eq!(employment(&co, "bo"), "departed", "a refused rehire touches no row");
    assert_eq!(fenced(&co).len(), 0, "a refused rehire never opens a fence");
}

#[test]
fn a_rehired_head_returns_as_a_worker() {
    let mut co = open();
    employ(&mut co, "bo", EmploymentState::Departed);
    person_mut(&mut co, "bo").kind = PersonKind::Head;
    assert_eq!(
        start_person(&mut co, "bo", "2026-08-02T13:10:44.000Z", "operator").unwrap(),
        DirectOutcome::Applied,
    );
    assert_eq!(kind(&co, "bo"), "worker", "a rehire never restores a headship");
}

#[test]
fn a_rehire_clears_the_departure_transition_pointer() {
    let mut co = open();
    employ(&mut co, "bo", EmploymentState::Departed);
    activity_row(&mut co, "bo", false, Some("transition:3:bo:offboard"));
    assert_eq!(
        start_person(&mut co, "bo", "2026-08-02T13:10:44.000Z", "operator").unwrap(),
        DirectOutcome::Applied,
    );
    assert_eq!(pointer(&co, "bo"), None, "the departure no longer governs the returned person");
    assert_eq!(desired(&co, "bo"), Some(1));
}

#[test]
fn a_rehire_never_makes_the_person_id_reusable() {
    let replacement = NewPersonSeed {
        name: "Bo II",
        title: "Engineer",
        mandate: "build",
        kind: PersonKind::Worker,
        employment_state: EmploymentState::Active,
        activation: "resident",
        tools: &[],
        prompts: &[],
    };
    let mut co = open();
    employ(&mut co, "bo", EmploymentState::Departed);
    assert_eq!(
        hire_person(&mut co, "bo", "eng", &replacement, "ada", "t1", "chief").unwrap(),
        HireOutcome::Refused { reason: HireRefusal::DuplicatePersonId },
        "a departed id is taken; a hire never resurrects",
    );
    assert_eq!(
        start_person(&mut co, "bo", "2026-08-02T13:10:44.000Z", "operator").unwrap(),
        DirectOutcome::Applied,
        "but a start brings the retained person back",
    );
    assert_eq!(
        hire_person(&mut co, "bo", "eng", &replacement, "ada", "t2", "chief").unwrap(),
        HireOutcome::Refused { reason: HireRefusal::DuplicatePersonId },
        "and the id is still not reusable afterwards",
    );
}

#[test]
fn start_person_atomically_recalls_a_benched_person_and_starts_them() {
    let mut co = open();
    employ(&mut co, "bo", EmploymentState::Benched);
    assert_eq!(
        start_person(&mut co, "bo", "2026-08-02T13:10:44.000Z", "operator").unwrap(),
        DirectOutcome::Applied,
        "a benched person is recalled and started in one call, never refused",
    );
    assert_eq!(employment(&co, "bo"), "active");
    assert_eq!(desired(&co, "bo"), Some(1));
    assert_eq!(fenced(&co), vec!["bo"]);
    assert_eq!(actions(&co, "bo").last().unwrap(), "recalled");
}

#[test]
fn start_person_leaves_no_partial_recall_when_the_start_half_fails() {
    let mut co = open();
    employ(&mut co, "bo", EmploymentState::Benched);
    co.settings = None;
    let before = co.clone();
    assert_eq!(
        start_person(&mut co, "bo", "2026-08-02T13:10:44.000Z", "operator"),
        Err(RowError::NoRows),
        "what cannot be read must surface as an error, not as a silent partial start",
    );
    assert_eq!(employment(&co, "bo"), "benched", "a failed start leaves no partial recall behind");
    assert_eq!(co, before);
}

#[test]
fn start_refuses_strangers() {
    let mut co = open();
    assert!(matches!(
        start_person(&mut co, "nobody", "t1", "operator").unwrap(),
        DirectOutcome::Refused { code: "unknown-person", .. }
    ));
}

#[test]
fn starting_somebody_under_an_open_routine_park_cancels_it() {
    let mut co = open();
    park(&mut co, "bo", "eng");
    transition_mut(&mut co, "park-bo").status = TransitionStatus::Ready;
    assert_eq!(start_person(&mut co, "bo", "t1", "operator").unwrap(), DirectOutcome::Applied);
    assert_eq!(transition(&co, "park-bo").status.as_str(), "cancelled");
    assert_eq!(transition(&co, "park-bo").reason, "superseded-by-start:bo");
    assert_eq!(pointer(&co, "bo"), None);
    assert_eq!(desired(&co, "bo"), Some(1));
}

#[test]
fn waking_the_ceo_opens_no_fence_and_releases_the_park() {
    let mut co = open();
    park(&mut co, "ada", "executive");
    assert_eq!(wake_person(&mut co, "ada", "t1", "operator").unwrap(), DirectOutcome::Applied);
    assert_eq!(fenced(&co).len(), 0);
    assert_eq!(pointer(&co, "ada"), None);
}

#[test]
fn a_wake_of_a_company_that_cannot_be_read_is_an_error_and_changes_nothing() {
    let mut co = open();
    park(&mut co, "bo", "eng");
    co.settings = None;
    let before = co.clone();
    assert_eq!(wake_person(&mut co, "bo", "t1", "operator"), Err(RowError::NoRows));
    assert_eq!(co, before);
}

#[test]
fn recalling_is_for_benched_people_alone() {
    let mut co = open();
    assert!(matches!(
        recall_person(&mut co, "nobody", "t1", "operator").unwrap(),
        DirectOutcome::Refused { code: "unknown-person", .. }
    ));
    assert!(matches!(
        recall_person(&mut co, "bo", "t1", "operator").unwrap(),
        DirectOutcome::Refused { code: "already-active", .. }
    ));
    employ(&mut co, "bo", EmploymentState::Departed);
    assert!(matches!(
        recall_person(&mut co, "bo", "t1", "operator").unwrap(),
        DirectOutcome::Refused { code: "already-departed", .. }
    ));
    employ(&mut co, "bo", EmploymentState::Benched);
    pause_row(&mut co, "executive");
    assert!(matches!(
        recall_person(&mut co, "bo", "t1", "operator").unwrap(),
        DirectOutcome::Refused { code: "destination-paused", .. }
    ));
}

#[test]
fn a_recall_staffs_somebody_and_starts_nobody() {
    let mut co = open();
    employ(&mut co, "bo", EmploymentState::Benched);
    assert_eq!(recall_person(&mut co, "bo", "t1", "operator").unwrap(), DirectOutcome::Applied);
    assert_eq!(employment(&co, "bo"), "active");
    assert_eq!(
        staffing(&co, "bo"),
        vec![("recalled".to_string(), some("eng"), some("eng"), "recalled".to_string())]
    );
    assert_eq!(fenced(&co).len(), 0);
    assert_eq!(desired(&co, "bo"), None);
    assert_eq!(
        feed(&co),
        vec![(1, "person".to_string(), "bo".to_string(), "upsert".to_string())]
    );
}
