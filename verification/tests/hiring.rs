#![allow(dead_code, unused_imports)]

use chiefd_core::company::{
    ActivityRow, Company, DepartmentRow, Entity, EventOp, EventRow, Fence, OrgSettings, PersonRow,
    SettingsRow, StaffingEntry, TransitionAction, TransitionRow, TransitionStatus,
};
use chiefd_core::org_ops::{
    appoint_department_head, bench_person, bench_person_lifecycle, create_department,
    create_department_with_staff, create_department_with_staff_unit, department_is_company_root,
    hire_person, hire_person_authorized, is_ceo, move_department_members, offboard_person,
    pause_department, prepare_ceo_only, reactivate_executive_root, recall_person,
    remove_department_tree, reparent_department, replace_head_and_offboard, resume_department,
    resume_departments, shutdown_person, start_person, transfer_person, validate_new_person_seed,
    wake_person, AppointOutcome, AppointRefusal, BenchLifecycleOutcome, BenchOutcome, BenchRefusal,
    CreateDepartmentOutcome, CreateDepartmentRefusal, DepartmentCreateUnit, DepartmentStaffSeed,
    DirectOutcome, HeadDecision, HeadIneligibility, HeadVacancy, HeadVacancyRefusal, HireOutcome,
    HireRefusal, NewPersonSeed, OffboardOutcome, OffboardRefusal, OwnedNewPersonSeed,
    PauseOutcome, PauseRefusal, RemoveDepartmentOutcome, ReparentOutcome, ReparentRefusal,
    RowError, SeedRejection, ShutdownKind, ShutdownOutcome, ShutdownRefusal, TransferOutcome,
    TransferRefusal, VacancyRefusal,
};
use chiefd_core::organization::{EmploymentState, PersonKind, UnitKind, UnitState};
use chiefd_core::rows::ledger::IDLE_AUTO_PARK_REASON;

fn some(s: &str) -> Option<String> {
    Some(s.to_string())
}

/// A company with a settings row and nothing else.
fn company() -> Company {
    let mut co = Company::new("acme");
    co.settings = Some(SettingsRow {
        display_slug: "acme".to_string(),
        settings: OrgSettings {
            launcher_root: None,
            supervision_interval_ms: 60000,
            acknowledgement_timeout_ms: 30000,
            acknowledgement_retry_limit: 3,
            replacement_limit: 3,
        },
    });
    co
}

fn dept(co: &mut Company, id: &str, parent: &str, name: &str, head: &str, ordinal: u64) {
    co.departments.put(
        id,
        DepartmentRow {
            parent_id: if parent.is_empty() { None } else { some(parent) },
            name: name.to_string(),
            purpose: String::new(),
            kind: if parent.is_empty() { UnitKind::Company } else { UnitKind::Department },
            transient: None,
            state: UnitState::Active,
            head_person_id: head.to_string(),
            ordinal,
            created_at: "t".to_string(),
            updated_at: "t".to_string(),
        },
    );
}

fn person(co: &mut Company, id: &str, kind: PersonKind, department: &str, ordinal: u64) {
    co.people.put(
        id,
        PersonRow {
            name: id.to_string(),
            title: "title".to_string(),
            mandate: "mandate".to_string(),
            kind,
            employment_state: EmploymentState::Active,
            department_id: department.to_string(),
            activation: "resident".to_string(),
            tools: Vec::new(),
            prompts: Vec::new(),
            ordinal,
            created_at: "t".to_string(),
            updated_at: "t".to_string(),
        },
    );
}

/// The executive root headed by `ada`, the office of the CEO headed by `cos`,
/// and engineering headed by `bo`.
fn open() -> Company {
    let mut co = company();
    dept(&mut co, "executive", "", "Executive", "ada", 0);
    dept(&mut co, "office-of-the-ceo", "executive", "Office of the CEO", "cos", 1);
    dept(&mut co, "eng", "executive", "Engineering", "bo", 2);
    person(&mut co, "ada", PersonKind::Executive, "executive", 0);
    person(&mut co, "cos", PersonKind::Head, "office-of-the-ceo", 1);
    person(&mut co, "bo", PersonKind::Worker, "eng", 2);
    co
}

fn person_mut<'a>(co: &'a mut Company, id: &str) -> &'a mut PersonRow {
    let i = co.people.find(id).expect("person");
    &mut co.people.values[i]
}

fn dept_mut<'a>(co: &'a mut Company, id: &str) -> &'a mut DepartmentRow {
    let i = co.departments.find(id).expect("department");
    &mut co.departments.values[i]
}

fn transition_mut<'a>(co: &'a mut Company, id: &str) -> &'a mut TransitionRow {
    let i = co.transitions.find(id).expect("transition");
    &mut co.transitions.values[i]
}

fn activity_mut<'a>(co: &'a mut Company, id: &str) -> &'a mut ActivityRow {
    let i = co.activity.find(id).expect("activity");
    &mut co.activity.values[i]
}

fn employ(co: &mut Company, id: &str, state: EmploymentState) {
    person_mut(co, id).employment_state = state;
}

fn pause_row(co: &mut Company, id: &str) {
    dept_mut(co, id).state = UnitState::Paused;
}

fn fence(co: &mut Company, id: &str) {
    co.fences.put(id, Fence {});
}

fn transition_row(
    co: &mut Company,
    id: &str,
    person: &str,
    action: TransitionAction,
    status: TransitionStatus,
) {
    co.transitions.put(
        id,
        TransitionRow {
            person_id: person.to_string(),
            action,
            status,
            intent_id: None,
            reason: String::new(),
            placement_department_id: None,
            requested_at: "t0".to_string(),
            handoff_deadline_at: None,
            applied_at: None,
            cancelled_at: None,
            abandoned_at: None,
        },
    );
}

fn activity_row(co: &mut Company, person: &str, desired: bool, pointer: Option<&str>) {
    co.activity.put(
        person,
        ActivityRow {
            last_desired_active: desired,
            last_operational: false,
            last_department_id: None,
            last_employment_state: None,
            agent_quiet_at: None,
            idle_since: None,
            agent_active_at: None,
            operator_wake_at: None,
            active_transition_id: pointer.map(|p| p.to_string()),
            updated_at: "t".to_string(),
        },
    );
}

/// One event already in the feed.
fn prior_event(co: &mut Company) {
    co.events.push(EventRow {
        entity: Entity::Person,
        entity_id: "x".to_string(),
        op: EventOp::Upsert,
        at: "t".to_string(),
        actor: String::new(),
    });
}

fn person_row<'a>(co: &'a Company, id: &str) -> &'a PersonRow {
    co.people.get(id).expect("person")
}

fn home(co: &Company, id: &str) -> String {
    person_row(co, id).department_id.clone()
}

fn employment(co: &Company, id: &str) -> &'static str {
    person_row(co, id).employment_state.as_str()
}

fn kind(co: &Company, id: &str) -> &'static str {
    person_row(co, id).kind.as_str()
}

fn dept_row<'a>(co: &'a Company, id: &str) -> &'a DepartmentRow {
    co.departments.get(id).expect("department")
}

fn head_of(co: &Company, id: &str) -> Option<String> {
    co.departments.get(id).map(|row| row.head_person_id.clone())
}

fn state_of(co: &Company, id: &str) -> &'static str {
    dept_row(co, id).state.as_str()
}

fn transition<'a>(co: &'a Company, id: &str) -> &'a TransitionRow {
    co.transitions.get(id).expect("transition")
}

fn transitions_of<'a>(co: &'a Company, person: &str) -> Vec<&'a TransitionRow> {
    co.transitions.values.iter().filter(|t| t.person_id == person).collect()
}

fn desired(co: &Company, person: &str) -> Option<i64> {
    co.activity.get(person).map(|row| if row.last_desired_active { 1 } else { 0 })
}

fn pointer(co: &Company, person: &str) -> Option<String> {
    co.activity.get(person).expect("activity").active_transition_id.clone()
}

/// The quiet, idle and active clocks of somebody.
fn clocks(co: &Company, person: &str) -> (Option<String>, Option<String>, Option<String>) {
    let row = co.activity.get(person).expect("activity");
    (row.agent_quiet_at.clone(), row.idle_since.clone(), row.agent_active_at.clone())
}

fn fenced(co: &Company) -> Vec<String> {
    co.fences.list()
}

/// What the staffing history says of somebody: action, from, to, reason.
fn staffing(co: &Company, person: &str) -> Vec<(String, Option<String>, Option<String>, String)> {
    co.staffing
        .iter()
        .filter(|e| e.person_id == person)
        .map(|e| {
            (
                e.action.as_str().to_string(),
                e.from_department_id.clone(),
                e.to_department_id.clone(),
                e.reason.clone(),
            )
        })
        .collect()
}

fn actions(co: &Company, person: &str) -> Vec<String> {
    staffing(co, person).into_iter().map(|(action, ..)| action).collect()
}

/// The feed: sequence, entity, entity id, op.
fn feed(co: &Company) -> Vec<(i64, String, String, String)> {
    co.events
        .iter()
        .enumerate()
        .map(|(i, e)| {
            (
                (co.event_base + i as u64 + 1) as i64,
                e.entity.name().to_string(),
                e.entity_id.clone(),
                e.op.as_str().to_string(),
            )
        })
        .collect()
}

fn dept_ids(co: &Company) -> Vec<String> {
    let mut rows: Vec<(u64, String)> = co
        .departments
        .keys
        .iter()
        .zip(co.departments.values.iter())
        .map(|(id, row)| (row.ordinal, id.clone()))
        .collect();
    rows.sort();
    rows.into_iter().map(|(_, id)| id).collect()
}

fn people_ids(co: &Company) -> Vec<String> {
    co.roster()
}

fn dept_ordinals(co: &Company) -> Vec<i64> {
    let mut v: Vec<i64> = co.departments.values.iter().map(|r| r.ordinal as i64).collect();
    v.sort();
    v
}

fn people_ordinals(co: &Company) -> Vec<i64> {
    let mut v: Vec<i64> = co.people.values.iter().map(|r| r.ordinal as i64).collect();
    v.sort();
    v
}

fn is_gapless_bijection(ordinals: &[i64]) -> bool {
    ordinals.iter().enumerate().all(|(i, o)| *o == i as i64)
}

/// A head for every unit, who is there, employed, at home in it and in one
/// headship; a unit for everybody; every parent there; the places without a
/// gap.
fn assert_chart_valid(co: &Company) {
    for (id, row) in co.departments.keys.iter().zip(co.departments.values.iter()) {
        let head = co.people.get(&row.head_person_id).expect("a head who is there");
        assert_eq!(&head.department_id, id, "a head is at home in the unit they head");
        assert_ne!(head.employment_state, EmploymentState::Departed);
        assert_ne!(head.kind, PersonKind::Worker, "a worker cannot head a department");
        match &row.parent_id {
            Some(parent) => assert!(co.departments.has(parent), "a parent that is there"),
            None => assert_eq!(id, "executive"),
        }
    }
    for (id, row) in co.people.keys.iter().zip(co.people.values.iter()) {
        assert!(co.departments.has(&row.department_id), "{id} has a unit");
        let heads = co.departments.values.iter().filter(|d| &d.head_person_id == id).count();
        match row.kind {
            PersonKind::Worker => assert_eq!(heads, 0),
            _ => assert_eq!(heads, 1, "{id} heads exactly one unit"),
        }
    }
    assert!(is_gapless_bijection(&dept_ordinals(co)));
    assert!(is_gapless_bijection(&people_ordinals(co)));
}

fn seed<'a>(name: &'a str, tools: &'a [String]) -> NewPersonSeed<'a> {
    NewPersonSeed {
        name,
        title: "Engineer",
        mandate: "build",
        kind: PersonKind::Worker,
        employment_state: EmploymentState::Active,
        activation: "resident",
        tools,
        prompts: &[],
    }
}

fn hire(co: &mut Company, id: &str, department: &str, seed: &NewPersonSeed<'_>) -> HireOutcome {
    hire_person(co, id, department, seed, "ada", "t1", "chief").unwrap()
}

#[test]
fn independent_hires_after_prior_events_both_persist_with_audit_events() {
    let mut co = open();
    prior_event(&mut co);
    assert_eq!(hire(&mut co, "zoe", "eng", &seed("Zoe", &[])), HireOutcome::Applied);
    assert_eq!(hire(&mut co, "yuki", "eng", &seed("Yuki", &[])), HireOutcome::Applied);
    for id in ["yuki", "zoe"] {
        assert!(co.people.has(id));
        assert_eq!(
            co.events.iter().filter(|e| e.entity == Entity::Person && e.entity_id == id).count(),
            1
        );
    }
}

#[test]
fn hire_inserts_person_placement_staffing_and_takes_next_gapless_ordinal() {
    let mut co = open();
    let out = hire_person(
        &mut co,
        "zoe",
        "eng",
        &seed("Zoe", &[]),
        "ada",
        "2026-07-25T00:00:00.000Z",
        "chief",
    )
    .unwrap();
    assert_eq!(out, HireOutcome::Applied);
    assert_eq!((home(&co, "zoe").as_str(), employment(&co, "zoe")), ("eng", "active"));
    assert_eq!(person_row(&co, "zoe").ordinal, 3);
    assert_eq!(people_ordinals(&co), vec![0, 1, 2, 3]);
    let told = staffing(&co, "zoe");
    assert_eq!(told.len(), 1);
    assert_eq!(told[0].0, "hired");
    assert_eq!(told[0].1, None);
    assert_eq!(told[0].2.as_deref(), Some("eng"));
    assert_eq!(desired(&co, "zoe"), Some(0));
    let activity = co.activity.get("zoe").unwrap();
    assert_eq!(activity.last_employment_state, Some(EmploymentState::Active));
    assert_eq!(activity.last_department_id, some("eng"));
    assert!(activity.last_operational);
    assert_eq!(fenced(&co), vec!["zoe".to_string()], "the fence names the hire and nobody else");
}

#[test]
fn hiring_a_benched_person_records_no_launch_fence() {
    let mut co = open();
    let mut benched = seed("Zoe", &[]);
    benched.employment_state = EmploymentState::Benched;
    assert_eq!(hire(&mut co, "zoe", "eng", &benched), HireOutcome::Applied);
    assert_eq!(employment(&co, "zoe"), "benched", "the person is durable, and durably not staffed");
    assert!(fenced(&co).is_empty(), "a benched hire is fenceless and stays stopped");
}

#[test]
fn hire_into_non_last_department_normalizes_people_order() {
    let mut co = open();
    assert_eq!(
        hire_person(&mut co, "zoe", "office-of-the-ceo", &seed("Zoe", &[]), "ada", "t1", "ada")
            .unwrap(),
        HireOutcome::Applied,
    );
    assert_eq!(
        people_ids(&co),
        vec!["ada", "cos", "zoe", "bo"],
        "the hire is grouped after its home department's head, before later departments",
    );
}

#[test]
fn hire_refuses_a_duplicate_person_id_and_writes_nothing() {
    let mut co = open();
    let before = co.clone();
    let out = hire(&mut co, "bo", "eng", &seed("Bo II", &[]));
    assert_eq!(out, HireOutcome::Refused { reason: HireRefusal::DuplicatePersonId });
    assert_eq!(co, before);
}

#[test]
fn hire_refuses_an_invalid_seed_with_the_field_path() {
    let mut co = open();
    match hire(&mut co, "zoe", "eng", &seed("   ", &[])) {
        HireOutcome::Refused { reason } => {
            assert_eq!(reason.code(), "invalid-seed");
            assert!(reason.detail().contains("name"));
        }
        other => panic!("expected invalid-seed, got {other:?}"),
    }
}

#[test]
fn hire_refuses_unknown_and_paused_destination() {
    let mut co = open();
    pause_row(&mut co, "eng");
    let unknown = hire(&mut co, "zoe", "ghost", &seed("Zoe", &[]));
    assert_eq!(unknown, HireOutcome::Refused { reason: HireRefusal::UnknownDepartment });
    let paused = hire(&mut co, "zoe", "eng", &seed("Zoe", &[]));
    assert_eq!(paused, HireOutcome::Refused { reason: HireRefusal::DestinationPaused });
    assert!(!co.people.has("zoe"));
}

#[test]
fn hire_refuses_an_active_destination_below_a_paused_ancestor() {
    let mut co = open();
    dept(&mut co, "eng-platform", "eng", "Platform", "ph", 3);
    pause_row(&mut co, "eng");
    let out = hire(&mut co, "zoe", "eng-platform", &seed("Zoe", &[]));
    assert_eq!(out, HireOutcome::Refused { reason: HireRefusal::DestinationPaused });
    assert!(!co.people.has("zoe"));
}

#[test]
fn hire_persists_the_complete_normalized_person_seed() {
    let mut co = open();
    let tools = vec!["read".to_string(), "bash".to_string()];
    let prompts = vec!["prompts/senior.md".to_string()];
    let full = NewPersonSeed {
        name: "Zoe",
        title: "Senior Engineer",
        mandate: "Build and review",
        kind: PersonKind::Worker,
        employment_state: EmploymentState::Benched,
        activation: "on-demand",
        tools: &tools,
        prompts: &prompts,
    };
    assert_eq!(
        hire_person(&mut co, "zoe", "eng", &full, "ada", "t1", "ada").unwrap(),
        HireOutcome::Applied,
    );
    assert_eq!(employment(&co, "zoe"), "benched");
    let row = person_row(&co, "zoe");
    assert_eq!(row.activation, "on-demand");
    assert_eq!(row.tools, tools);
    assert_eq!(row.prompts, prompts);
}

#[test]
fn malformed_complete_seed_is_a_no_write_refusal() {
    let mut co = open();
    let before = co.clone();
    let prompts = vec!["../escape.md".to_string()];
    let invalid = NewPersonSeed { prompts: &prompts, ..seed("Zoe", &[]) };
    let out = hire_person(&mut co, "zoe", "eng", &invalid, "ada", "t1", "ada").unwrap();
    assert!(matches!(
        out,
        HireOutcome::Refused {
            reason: HireRefusal::InvalidSeed { ref field, .. }
        } if field == "prompts[0]"
    ));
    assert_eq!(co, before);
}

#[test]
fn stale_manager_scope_refuses_hire_without_writes() {
    let mut co = open();
    person_mut(&mut co, "bo").kind = PersonKind::Worker;
    let before = co.clone();
    let out = hire_person(&mut co, "zoe", "eng", &seed("Zoe", &[]), "bo", "t1", "bo").unwrap();
    assert_eq!(out, HireOutcome::Refused { reason: HireRefusal::RequesterOutOfScope });
    assert_eq!(co, before);
}

#[test]
fn an_operator_hires_without_a_requester() {
    let mut co = open();
    let out =
        hire_person_authorized(&mut co, "zoe", "eng", &seed("Zoe", &[]), None, "t1", "operator");
    assert_eq!(out.unwrap(), HireOutcome::Applied);
}
