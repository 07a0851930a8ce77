#![allow(dead_code, unused_imports)]

use chiefd_core::company::{
    ActivityRow, Company, DepartmentRow, Entity, EventOp, EventRow, Fence, OrgSettings, PersonRow,
    SettingsRow, StaffingEntry, TransitionAction, TransitionRow, TransitionStatus,
};
use chiefd_core::org_ops::{
    appoint_department_head, bench_person, bench_person_lifecycle, create_department,
    create_department_with_staff, create_department_with_staff_unit, department_is_company_root,
    hire_person, hire_person_authorized, is_ceo, move_department_members, offboard_person,
    pause_department, prepare_ceo_only, reactivate_executive_root, recall_person,
    remove_department_tree, reparent_department, replace_head_and_offboard, resume_department,
    resume_departments, shutdown_person, start_person, transfer_person, validate_new_person_seed,
    wake_person, AppointOutcome, AppointRefusal, BenchLifecycleOutcome, BenchOutcome, BenchRefusal,
    CreateDepartmentOutcome, CreateDepartmentRefusal, DepartmentCreateUnit, DepartmentStaffSeed,
    DirectOutcome, HeadDecision, HeadIneligibility, HeadVacancy, HeadVacancyRefusal, HireOutcome,
    HireRefusal, NewPersonSeed, OffboardOutcome, OffboardRefusal, OwnedNewPersonSeed,
    PauseOutcome, PauseRefusal, RemoveDepartmentOutcome, ReparentOutcome, ReparentRefusal,
    RowError, SeedRejection, ShutdownKind, ShutdownOutcome, ShutdownRefusal, TransferOutcome,
    TransferRefusal, VacancyRefusal,
};
use chiefd_core::organization::{EmploymentState, PersonKind, UnitKind, UnitState};
use chiefd_core::rows::ledger::IDLE_AUTO_PARK_REASON;

fn some(s: &str) -> Option<String> {
    Some(s.to_string())
}

/// A company with a settings row and nothing else.
fn company() -> Company {
    let mut co = Company::new("acme");
    co.settings = Some(SettingsRow {
        display_slug: "acme".to_string(),
        settings: OrgSettings {
            launcher_root: None,
            supervision_interval_ms: 60000,
            acknowledgement_timeout_ms: 30000,
            acknowledgement_retry_limit: 3,
            replacement_limit: 3,
        },
    });
    co
}

fn dept(co: &mut Company, id: &str, parent: &str, name: &str, head: &str, ordinal: u64) {
    co.departments.put(
        id,
        DepartmentRow {
            parent_id: if parent.is_empty() { None } else { some(parent) },
            name: name.to_string(),
            purpose: String::new(),
            kind: if parent.is_empty() { UnitKind::Company } else { UnitKind::Department },
            transient: None,
            state: UnitState::Active,
            head_person_id: head.to_string(),
            ordinal,
            created_at: "t".to_string(),
            updated_at: "t".to_string(),
        },
    );
}

fn person(co: &mut Company, id: &str, kind: PersonKind, department: &str, ordinal: u64) {
    co.people.put(
        id,
        PersonRow {
            name: id.to_string(),
            title: "title".to_string(),
            mandate: "mandate".to_string(),
            kind,
            employment_state: EmploymentState::Active,
            department_id: department.to_string(),
            activation: "resident".to_string(),
            tools: Vec::new(),
            prompts: Vec::new(),
            ordinal,
            created_at: "t".to_string(),
            updated_at: "t".to_string(),
        },
    );
}

/// The executive root headed by `ada`, the office of the CEO headed by `cos`,
/// and engineering headed by `bo`.
fn open() -> Company {
    let mut co = company();
    dept(&mut co, "executive", "", "Executive", "ada", 0);
    dept(&mut co, "office-of-the-ceo", "executive", "Office of the CEO", "cos", 1);
    dept(&mut co, "eng", "executive", "Engineering", "bo", 2);
    person(&mut co, "ada", PersonKind::Executive, "executive", 0);
    person(&mut co, "cos", PersonKind::Head, "office-of-the-ceo", 1);
    person(&mut co, "bo", PersonKind::Worker, "eng", 2);
    co
}

fn person_mut<'a>(co: &'a mut Company, id: &str) -> &'a mut PersonRow {
    let i = co.people.find(id).expect("person");
    &mut co.people.values[i]
}

fn dept_mut<'a>(co: &'a mut Company, id: &str) -> &'a mut DepartmentRow {
    let i = co.departments.find(id).expect("department");
    &mut co.departments.values[i]
}

fn transition_mut<'a>(co: &'a mut Company, id: &str) -> &'a mut TransitionRow {
    let i = co.transitions.find(id).expect("transition");
    &mut co.transitions.values[i]
}

fn activity_mut<'a>(co: &'a mut Company, id: &str) -> &'a mut ActivityRow {
    let i = co.activity.find(id).expect("activity");
    &mut co.activity.values[i]
}

fn employ(co: &mut Company, id: &str, state: EmploymentState) {
    person_mut(co, id).employment_state = state;
}

fn pause_row(co: &mut Company, id: &str) {
    dept_mut(co, id).state = UnitState::Paused;
}

fn fence(co: &mut Company, id: &str) {
    co.fences.put(id, Fence {});
}

fn transition_row(
    co: &mut Company,
    id: &str,
    person: &str,
    action: TransitionAction,
    status: TransitionStatus,
) {
    co.transitions.put(
        id,
        TransitionRow {
            person_id: person.to_string(),
            action,
            status,
            intent_id: None,
            reason: String::new(),
            placement_department_id: None,
            requested_at: "t0".to_string(),
            handoff_deadline_at: None,
            applied_at: None,
            cancelled_at: None,
            abandoned_at: None,
        },
    );
}

fn activity_row(co: &mut Company, person: &str, desired: bool, pointer: Option<&str>) {
    co.activity.put(
        person,
        ActivityRow {
            last_desired_active: desired,
            last_operational: false,
            last_department_id: None,
            last_employment_state: None,
            agent_quiet_at: None,
            idle_since: None,
            agent_active_at: None,
            operator_wake_at: None,
            active_transition_id: pointer.map(|p| p.to_string()),
            updated_at: "t".to_string(),
        },
    );
}

/// One event already in the feed.
fn prior_event(co: &mut Company) {
    co.events.push(EventRow {
        entity: Entity::Person,
        entity_id: "x".to_string(),
        op: EventOp::Upsert,
        at: "t".to_string(),
        actor: String::new(),
    });
}

fn person_row<'a>(co: &'a Company, id: &str) -> &'a PersonRow {
    co.people.get(id).expect("person")
}

fn home(co: &Company, id: &str) -> String {
    person_row(co, id).department_id.clone()
}

fn employment(co: &Company, id: &str) -> &'static str {
    person_row(co, id).employment_state.as_str()
}

fn kind(co: &Company, id: &str) -> &'static str {
    person_row(co, id).kind.as_str()
}

fn dept_row<'a>(co: &'a Company, id: &str) -> &'a DepartmentRow {
    co.departments.get(id).expect("department")
}

fn head_of(co: &Company, id: &str) -> Option<String> {
    co.departments.get(id).map(|row| row.head_person_id.clone())
}

fn state_of(co: &Company, id: &str) -> &'static str {
    dept_row(co, id).state.as_str()
}

fn transition<'a>(co: &'a Company, id: &str) -> &'a TransitionRow {
    co.transitions.get(id).expect("transition")
}

fn transitions_of<'a>(co: &'a Company, person: &str) -> Vec<&'a TransitionRow> {
    co.transitions.values.iter().filter(|t| t.person_id == person).collect()
}

fn desired(co: &Company, person: &str) -> Option<i64> {
    co.activity.get(person).map(|row| if row.last_desired_active { 1 } else { 0 })
}

fn pointer(co: &Company, person: &str) -> Option<String> {
    co.activity.get(person).expect("activity").active_transition_id.clone()
}

/// The quiet, idle and active clocks of somebody.
fn clocks(co: &Company, person: &str) -> (Option<String>, Option<String>, Option<String>) {
    let row = co.activity.get(person).expect("activity");
    (row.agent_quiet_at.clone(), row.idle_since.clone(), row.agent_active_at.clone())
}

fn fenced(co: &Company) -> Vec<String> {
    co.fences.list()
}

/// What the staffing history says of somebody: action, from, to, reason.
fn staffing(co: &Company, person: &str) -> Vec<(String, Option<String>, Option<String>, String)> {
    co.staffing
        .iter()
        .filter(|e| e.person_id == person)
        .map(|e| {
            (
                e.action.as_str().to_string(),
                e.from_department_id.clone(),
                e.to_department_id.clone(),
                e.reason.clone(),
            )
        })
        .collect()
}

fn actions(co: &Company, person: &str) -> Vec<String> {
    staffing(co, person).into_iter().map(|(action, ..)| action).collect()
}

/// The feed: sequence, entity, entity id, op.
fn feed(co: &Company) -> Vec<(i64, String, String, String)> {
    co.events
        .iter()
        .enumerate()
        .map(|(i, e)| {
            (
                (co.event_base + i as u64 + 1) as i64,
                e.entity.name().to_string(),
                e.entity_id.clone(),
                e.op.as_str().to_string(),
            )
        })
        .collect()
}

fn dept_ids(co: &Company) -> Vec<String> {
    let mut rows: Vec<(u64, String)> = co
        .departments
        .keys
        .iter()
        .zip(co.departments.values.iter())
        .map(|(id, row)| (row.ordinal, id.clone()))
        .collect();
    rows.sort();
    rows.into_iter().map(|(_, id)| id).collect()
}

fn people_ids(co: &Company) -> Vec<String> {
    co.roster()
}

fn dept_ordinals(co: &Company) -> Vec<i64> {
    let mut v: Vec<i64> = co.departments.values.iter().map(|r| r.ordinal as i64).collect();
    v.sort();
    v
}

fn people_ordinals(co: &Company) -> Vec<i64> {
    let mut v: Vec<i64> = co.people.values.iter().map(|r| r.ordinal as i64).collect();
    v.sort();
    v
}

fn is_gapless_bijection(ordinals: &[i64]) -> bool {
    ordinals.iter().enumerate().all(|(i, o)| *o == i as i64)
}

/// A head for every unit, who is there, employed, at home in it and in one
/// headship; a unit for everybody; every parent there; the places without a
/// gap.
fn assert_chart_valid(co: &Company) {
    for (id, row) in co.departments.keys.iter().zip(co.departments.values.iter()) {
        let head = co.people.get(&row.head_person_id).expect("a head who is there");
        assert_eq!(&head.department_id, id, "a head is at home in the unit they head");
        assert_ne!(head.employment_state, EmploymentState::Departed);
        assert_ne!(head.kind, PersonKind::Worker, "a worker cannot head a department");
        match &row.parent_id {
            Some(parent) => assert!(co.departments.has(parent), "a parent that is there"),
            None => assert_eq!(id, "executive"),
        }
    }
    for (id, row) in co.people.keys.iter().zip(co.people.values.iter()) {
        assert!(co.departments.has(&row.department_id), "{id} has a unit");
        let heads = co.departments.values.iter().filter(|d| &d.head_person_id == id).count();
        match row.kind {
            PersonKind::Worker => assert_eq!(heads, 0),
            _ => assert_eq!(heads, 1, "{id} heads exactly one unit"),
        }
    }
    assert!(is_gapless_bijection(&dept_ordinals(co)));
    assert!(is_gapless_bijection(&people_ordinals(co)));
}

/// A unit beneath engineering with one engineer, and a start decision and an
/// open park for everybody in the two.
fn seed_subtree_sweep_fodder(co: &mut Company) {
    dept(co, "eng-sub", "eng", "Eng Sub", "sub1", 3);
    person(co, "sub1", PersonKind::Worker, "eng-sub", 3);
    fence(co, "bo");
    fence(co, "sub1");
    transition_row(co, "open-bo", "bo", TransitionAction::Park, TransitionStatus::Ready);
    transition_row(co, "open-sub1", "sub1", TransitionAction::Park, TransitionStatus::Ready);
}

fn pause(co: &mut Company, department: &str) -> PauseOutcome {
    pause_department(co, department, "t1", "op").unwrap()
}

fn resume(co: &mut Company, department: &str) -> PauseOutcome {
    resume_department(co, department, "t2", "op").unwrap()
}

fn code(outcome: PauseOutcome) -> &'static str {
    match outcome {
        PauseOutcome::Refused { reason } => reason.code(),
        other => panic!("expected a refusal, got {other:?}"),
    }
}

#[test]
fn a_paused_department_reads_as_the_transfer_destination_paused_gate() {
    let mut co = open();
    pause(&mut co, "eng");
    assert_eq!(
        state_of(&co, "eng"),
        "paused",
        "what a transfer reads of its destination must be 'paused'"
    );
    let out = transfer_person(&mut co, "cos", "eng", "i", "t", "op", None).unwrap();
    assert_eq!(out, TransferOutcome::Refused { reason: TransferRefusal::DestinationPaused });
}

#[test]
fn pause_already_paused_refuses_idempotent() {
    let mut co = open();
    pause(&mut co, "eng");
    assert_eq!(code(pause(&mut co, "eng")), "already-paused");
    assert_eq!(co.events.len(), 1, "a redundant pause churns nothing");
}

#[test]
fn pause_applies_against_current_rows_even_after_unrelated_event() {
    let mut co = open();
    prior_event(&mut co);
    assert_eq!(pause(&mut co, "eng"), PauseOutcome::Applied);
    assert_eq!(state_of(&co, "eng"), "paused");
}

#[test]
fn pause_sweeps_even_after_unrelated_event() {
    let mut co = open();
    seed_subtree_sweep_fodder(&mut co);
    prior_event(&mut co);
    assert_eq!(pause(&mut co, "eng"), PauseOutcome::Applied);
    assert!(fenced(&co).is_empty());
    let ready =
        co.transitions.values.iter().filter(|t| t.status == TransitionStatus::Ready).count();
    assert_eq!(ready, 0);
    assert_eq!(state_of(&co, "eng"), "paused");
}

#[test]
fn pausing_the_unit_the_ceo_sits_in_stops_everyone_except_the_ceo() {
    let mut co = open();
    person_mut(&mut co, "ada").department_id = "office-of-the-ceo".to_string();
    person(&mut co, "aide", PersonKind::Worker, "office-of-the-ceo", 3);
    fence(&mut co, "ada");
    fence(&mut co, "aide");
    assert_eq!(
        pause(&mut co, "office-of-the-ceo"),
        PauseOutcome::Applied,
        "the unit the CEO sits in is still an ordinary department"
    );
    assert_eq!(state_of(&co, "office-of-the-ceo"), "paused");
    assert!(!co.fences.has("aide"), "an ordinary member of a paused unit is stopped");
    assert!(
        co.fences.has("ada"),
        "the CEO keeps running: the sweep must never reach the one person nobody may act on"
    );
}

#[test]
fn pause_refuses_the_company_root_and_nothing_else() {
    let mut co = open();
    assert_eq!(code(pause(&mut co, "executive")), "exec-root-protected");
    assert_eq!(state_of(&co, "executive"), "active", "a refusal writes nothing");
    assert_eq!(
        pause(&mut co, "office-of-the-ceo"),
        PauseOutcome::Applied,
        "the CEO's office is an ordinary department"
    );
    assert_eq!(state_of(&co, "office-of-the-ceo"), "paused");
}

#[test]
fn pause_refuses_unknown_department_and_writes_nothing() {
    let mut co = open();
    assert_eq!(code(pause(&mut co, "ghost")), "unknown-department");
    assert!(co.events.is_empty());
}

#[test]
fn pause_sets_the_flag_and_touches_the_department_only() {
    let mut co = open();
    let out = pause_department(&mut co, "eng", "2026-07-25T00:00:00.000Z", "operator").unwrap();
    assert_eq!(out, PauseOutcome::Applied);
    assert_eq!(state_of(&co, "eng"), "paused");
    let events: Vec<(String, String, String)> =
        feed(&co).into_iter().map(|(_, e, id, op)| (e, id, op)).collect();
    assert_eq!(
        events,
        vec![("department".to_string(), "eng".to_string(), "upsert".to_string())]
    );
}

#[test]
fn pause_sweeps_the_whole_subtree_clearing_launch_intent_and_superseding_transitions() {
    let mut co = open();
    seed_subtree_sweep_fodder(&mut co);
    assert_eq!(pause(&mut co, "eng"), PauseOutcome::Applied);
    assert!(fenced(&co).is_empty(), "both subtree members' start decisions are cleared");
    for (id, person) in [("open-bo", "bo"), ("open-sub1", "sub1")] {
        let row = transition(&co, id);
        assert_eq!(row.person_id, person);
        assert_eq!(row.status, TransitionStatus::Cancelled);
        assert_eq!(row.reason, "superseded-by-pause:eng");
    }
    let audits: Vec<&TransitionRow> = co
        .transitions
        .values
        .iter()
        .filter(|t| {
            t.status == TransitionStatus::Cancelled
                && t.intent_id.as_ref().map_or(false, |i| i.starts_with("unit-stop:eng:"))
        })
        .collect();
    assert_eq!(audits.len(), 2);
    for row in audits {
        assert!(matches!(row.person_id.as_str(), "bo" | "sub1"));
        assert!(row.intent_id.as_ref().unwrap().starts_with("unit-stop:eng:transition:"));
        assert_eq!(row.reason, "superseded-by-pause:eng");
        assert_eq!(row.abandoned_at, None);
    }
}

#[test]
fn pause_repairs_the_active_heads_reconcilable_projection_and_resume_keeps_that_head() {
    let mut co = open();
    activity_row(&mut co, "bo", true, None);
    activity_mut(&mut co, "bo").last_operational = true;
    activity_mut(&mut co, "bo").updated_at = "before".to_string();
    fence(&mut co, "bo");

    assert_eq!(
        pause_department(&mut co, "eng", "pause-at", "operator").unwrap(),
        PauseOutcome::Applied
    );
    assert_eq!(state_of(&co, "eng"), "paused");
    assert_eq!(head_of(&co, "eng"), some("bo"));
    let row = co.activity.get("bo").unwrap();
    assert!(!row.last_desired_active);
    assert!(!row.last_operational);
    assert_eq!(row.last_department_id, some("eng"));
    assert_eq!(row.last_employment_state, Some(EmploymentState::Active));
    assert_eq!(row.active_transition_id, None);
    let rows = transitions_of(&co, "bo");
    assert_eq!(rows.len(), 1, "the pause writes one terminal transition per member");
    assert_eq!(rows[0].status, TransitionStatus::Cancelled);
    assert_eq!(rows[0].reason, "superseded-by-pause:eng");
    assert_eq!(rows[0].abandoned_at, None);
    assert!(rows[0].intent_id.as_ref().unwrap().starts_with("unit-stop:eng:transition:"));

    assert_eq!(
        resume_department(&mut co, "eng", "resume-at", "operator").unwrap(),
        PauseOutcome::Applied
    );
    assert_eq!(state_of(&co, "eng"), "active");
    assert_eq!(
        head_of(&co, "eng"),
        some("bo"),
        "resume restores the same department and never substitutes its head"
    );
    assert_eq!(desired(&co, "bo"), Some(0), "resume does not eagerly restart the exact head");
}

#[test]
fn pause_does_not_mask_unrelated_activity_corruption() {
    let mut co = open();
    for (id, department, state) in
        [("bo", "eng", Some(EmploymentState::Active)), ("cos", "office-of-the-ceo", None)]
    {
        activity_row(&mut co, id, true, None);
        let row = activity_mut(&mut co, id);
        row.last_operational = true;
        row.last_department_id = some(department);
        row.last_employment_state = state;
        row.updated_at = "before".to_string();
    }
    fence(&mut co, "bo");
    assert_eq!(
        pause_department(&mut co, "eng", "pause-at", "operator").unwrap(),
        PauseOutcome::Applied
    );
    assert_eq!(
        co.activity.get("cos").unwrap().last_employment_state,
        None,
        "pause repairs only members of the addressed subtree"
    );
}

#[test]
fn resume_after_pause_leaves_launch_intent_absent_and_spawns_nobody() {
    let mut co = open();
    seed_subtree_sweep_fodder(&mut co);
    pause(&mut co, "eng");
    assert_eq!(resume(&mut co, "eng"), PauseOutcome::Applied);
    assert_eq!(state_of(&co, "eng"), "active");
    assert!(fenced(&co).is_empty(), "resume never re-adds a start decision: nobody spawns");
}

#[test]
fn resume_clears_the_flag() {
    let mut co = open();
    pause(&mut co, "eng");
    assert_eq!(state_of(&co, "eng"), "paused");
    assert_eq!(resume(&mut co, "eng"), PauseOutcome::Applied);
    assert_eq!(state_of(&co, "eng"), "active");
}

#[test]
fn resume_refuses_a_department_that_is_not_paused() {
    let mut co = open();
    assert_eq!(code(resume(&mut co, "eng")), "not-paused");
}
