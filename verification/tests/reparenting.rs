#![allow(dead_code, unused_imports)]

use chiefd_core::company::{
    ActivityRow, Company, DepartmentRow, Entity, EventOp, EventRow, Fence, OrgSettings, PersonRow,
    SettingsRow, StaffingEntry, TransitionAction, TransitionRow, TransitionStatus,
};
use chiefd_core::org_ops::{
    appoint_department_head, bench_person, bench_person_lifecycle, create_department,
    create_department_with_staff, create_department_with_staff_unit, department_is_company_root,
    hire_person, hire_person_authorized, is_ceo, move_department_members, offboard_person,
    pause_department, prepare_ceo_only, reactivate_executive_root, recall_person,
    remove_department_tree, reparent_department, replace_head_and_offboard, resume_department,
    resume_departments, shutdown_person, start_person, transfer_person, validate_new_person_seed,
    wake_person, AppointOutcome, AppointRefusal, BenchLifecycleOutcome, BenchOutcome, BenchRefusal,
    CreateDepartmentOutcome, CreateDepartmentRefusal, DepartmentCreateUnit, DepartmentStaffSeed,
    DirectOutcome, HeadDecision, HeadIneligibility, HeadVacancy, HeadVacancyRefusal, HireOutcome,
    HireRefusal, NewPersonSeed, OffboardOutcome, OffboardRefusal, OwnedNewPersonSeed,
    PauseOutcome, PauseRefusal, RemoveDepartmentOutcome, ReparentOutcome, ReparentRefusal,
    RowError, SeedRejection, ShutdownKind, ShutdownOutcome, ShutdownRefusal, TransferOutcome,
    TransferRefusal, VacancyRefusal,
};
use chiefd_core::organization::{EmploymentState, PersonKind, UnitKind, UnitState};
use chiefd_core::rows::ledger::IDLE_AUTO_PARK_REASON;

fn some(s: &str) -> Option<String> {
    Some(s.to_string())
}

/// A company with a settings row and nothing else.
fn company() -> Company {
    let mut co = Company::new("acme");
    co.settings = Some(SettingsRow {
        display_slug: "acme".to_string(),
        settings: OrgSettings {
            launcher_root: None,
            supervision_interval_ms: 60000,
            acknowledgement_timeout_ms: 30000,
            acknowledgement_retry_limit: 3,
            replacement_limit: 3,
        },
    });
    co
}

fn dept(co: &mut Company, id: &str, parent: &str, name: &str, head: &str, ordinal: u64) {
    co.departments.put(
        id,
        DepartmentRow {
            parent_id: if parent.is_empty() { None } else { some(parent) },
            name: name.to_string(),
            purpose: String::new(),
            kind: if parent.is_empty() { UnitKind::Company } else { UnitKind::Department },
            transient: None,
            state: UnitState::Active,
            head_person_id: head.to_string(),
            ordinal,
            created_at: "t".to_string(),
            updated_at: "t".to_string(),
        },
    );
}

fn person(co: &mut Company, id: &str, kind: PersonKind, department: &str, ordinal: u64) {
    co.people.put(
        id,
        PersonRow {
            name: id.to_string(),
            title: "title".to_string(),
            mandate: "mandate".to_string(),
            kind,
            employment_state: EmploymentState::Active,
            department_id: department.to_string(),
            activation: "resident".to_string(),
            tools: Vec::new(),
            prompts: Vec::new(),
            ordinal,
            created_at: "t".to_string(),
            updated_at: "t".to_string(),
        },
    );
}

/// The executive root headed by `ada`, the office of the CEO headed by `cos`,
/// and engineering headed by `bo`.
fn open() -> Company {
    let mut co = company();
    dept(&mut co, "executive", "", "Executive", "ada", 0);
    dept(&mut co, "office-of-the-ceo", "executive", "Office of the CEO", "cos", 1);
    dept(&mut co, "eng", "executive", "Engineering", "bo", 2);
    person(&mut co, "ada", PersonKind::Executive, "executive", 0);
    person(&mut co, "cos", PersonKind::Head, "office-of-the-ceo", 1);
    person(&mut co, "bo", PersonKind::Worker, "eng", 2);
    co
}

fn person_mut<'a>(co: &'a mut Company, id: &str) -> &'a mut PersonRow {
    let i = co.people.find(id).expect("person");
    &mut co.people.values[i]
}

fn dept_mut<'a>(co: &'a mut Company, id: &str) -> &'a mut DepartmentRow {
    let i = co.departments.find(id).expect("department");
    &mut co.departments.values[i]
}

fn transition_mut<'a>(co: &'a mut Company, id: &str) -> &'a mut TransitionRow {
    let i = co.transitions.find(id).expect("transition");
    &mut co.transitions.values[i]
}

fn activity_mut<'a>(co: &'a mut Company, id: &str) -> &'a mut ActivityRow {
    let i = co.activity.find(id).expect("activity");
    &mut co.activity.values[i]
}

fn employ(co: &mut Company, id: &str, state: EmploymentState) {
    person_mut(co, id).employment_state = state;
}

fn pause_row(co: &mut Company, id: &str) {
    dept_mut(co, id).state = UnitState::Paused;
}

fn fence(co: &mut Company, id: &str) {
    co.fences.put(id, Fence {});
}

fn transition_row(
    co: &mut Company,
    id: &str,
    person: &str,
    action: TransitionAction,
    status: TransitionStatus,
) {
    co.transitions.put(
        id,
        TransitionRow {
            person_id: person.to_string(),
            action,
            status,
            intent_id: None,
            reason: String::new(),
            placement_department_id: None,
            requested_at: "t0".to_string(),
            handoff_deadline_at: None,
            applied_at: None,
            cancelled_at: None,
            abandoned_at: None,
        },
    );
}

fn activity_row(co: &mut Company, person: &str, desired: bool, pointer: Option<&str>) {
    co.activity.put(
        person,
        ActivityRow {
            last_desired_active: desired,
            last_operational: false,
            last_department_id: None,
            last_employment_state: None,
            agent_quiet_at: None,
            idle_since: None,
            agent_active_at: None,
            operator_wake_at: None,
            active_transition_id: pointer.map(|p| p.to_string()),
            updated_at: "t".to_string(),
        },
    );
}

/// One event already in the feed.
fn prior_event(co: &mut Company) {
    co.events.push(EventRow {
        entity: Entity::Person,
        entity_id: "x".to_string(),
        op: EventOp::Upsert,
        at: "t".to_string(),
        actor: String::new(),
    });
}

fn person_row<'a>(co: &'a Company, id: &str) -> &'a PersonRow {
    co.people.get(id).expect("person")
}

fn home(co: &Company, id: &str) -> String {
    person_row(co, id).department_id.clone()
}

fn employment(co: &Company, id: &str) -> &'static str {
    person_row(co, id).employment_state.as_str()
}

fn kind(co: &Company, id: &str) -> &'static str {
    person_row(co, id).kind.as_str()
}

fn dept_row<'a>(co: &'a Company, id: &str) -> &'a DepartmentRow {
    co.departments.get(id).expect("department")
}

fn head_of(co: &Company, id: &str) -> Option<String> {
    co.departments.get(id).map(|row| row.head_person_id.clone())
}

fn state_of(co: &Company, id: &str) -> &'static str {
    dept_row(co, id).state.as_str()
}

fn transition<'a>(co: &'a Company, id: &str) -> &'a TransitionRow {
    co.transitions.get(id).expect("transition")
}

fn transitions_of<'a>(co: &'a Company, person: &str) -> Vec<&'a TransitionRow> {
    co.transitions.values.iter().filter(|t| t.person_id == person).collect()
}

fn desired(co: &Company, person: &str) -> Option<i64> {
    co.activity.get(person).map(|row| if row.last_desired_active { 1 } else { 0 })
}

fn pointer(co: &Company, person: &str) -> Option<String> {
    co.activity.get(person).expect("activity").active_transition_id.clone()
}

/// The quiet, idle and active clocks of somebody.
fn clocks(co: &Company, person: &str) -> (Option<String>, Option<String>, Option<String>) {
    let row = co.activity.get(person).expect("activity");
    (row.agent_quiet_at.clone(), row.idle_since.clone(), row.agent_active_at.clone())
}

fn fenced(co: &Company) -> Vec<String> {
    co.fences.list()
}

/// What the staffing history says of somebody: action, from, to, reason.
fn staffing(co: &Company, person: &str) -> Vec<(String, Option<String>, Option<String>, String)> {
    co.staffing
        .iter()
        .filter(|e| e.person_id == person)
        .map(|e| {
            (
                e.action.as_str().to_string(),
                e.from_department_id.clone(),
                e.to_department_id.clone(),
                e.reason.clone(),
            )
        })
        .collect()
}

fn actions(co: &Company, person: &str) -> Vec<String> {
    staffing(co, person).into_iter().map(|(action, ..)| action).collect()
}

/// The feed: sequence, entity, entity id, op.
fn feed(co: &Company) -> Vec<(i64, String, String, String)> {
    co.events
        .iter()
        .enumerate()
        .map(|(i, e)| {
            (
                (co.event_base + i as u64 + 1) as i64,
                e.entity.name().to_string(),
                e.entity_id.clone(),
                e.op.as_str().to_string(),
            )
        })
        .collect()
}

fn dept_ids(co: &Company) -> Vec<String> {
    let mut rows: Vec<(u64, String)> = co
        .departments
        .keys
        .iter()
        .zip(co.departments.values.iter())
        .map(|(id, row)| (row.ordinal, id.clone()))
        .collect();
    rows.sort();
    rows.into_iter().map(|(_, id)| id).collect()
}

fn people_ids(co: &Company) -> Vec<String> {
    co.roster()
}

fn dept_ordinals(co: &Company) -> Vec<i64> {
    let mut v: Vec<i64> = co.departments.values.iter().map(|r| r.ordinal as i64).collect();
    v.sort();
    v
}

fn people_ordinals(co: &Company) -> Vec<i64> {
    let mut v: Vec<i64> = co.people.values.iter().map(|r| r.ordinal as i64).collect();
    v.sort();
    v
}

fn is_gapless_bijection(ordinals: &[i64]) -> bool {
    ordinals.iter().enumerate().all(|(i, o)| *o == i as i64)
}

/// A head for every unit, who is there, employed, at home in it and in one
/// headship; a unit for everybody; every parent there; the places without a
/// gap.
fn assert_chart_valid(co: &Company) {
    for (id, row) in co.departments.keys.iter().zip(co.departments.values.iter()) {
        let head = co.people.get(&row.head_person_id).expect("a head who is there");
        assert_eq!(&head.department_id, id, "a head is at home in the unit they head");
        assert_ne!(head.employment_state, EmploymentState::Departed);
        assert_ne!(head.kind, PersonKind::Worker, "a worker cannot head a department");
        match &row.parent_id {
            Some(parent) => assert!(co.departments.has(parent), "a parent that is there"),
            None => assert_eq!(id, "executive"),
        }
    }
    for (id, row) in co.people.keys.iter().zip(co.people.values.iter()) {
        assert!(co.departments.has(&row.department_id), "{id} has a unit");
        let heads = co.departments.values.iter().filter(|d| &d.head_person_id == id).count();
        match row.kind {
            PersonKind::Worker => assert_eq!(heads, 0),
            _ => assert_eq!(heads, 1, "{id} heads exactly one unit"),
        }
    }
    assert!(is_gapless_bijection(&dept_ordinals(co)));
    assert!(is_gapless_bijection(&people_ordinals(co)));
}

use chiefd_core::org_view::person_manages_department;
use chiefd_core::rows::chart::eligibility_view;
/// The root with an office, engineering with a platform team beneath it, and
/// fund operations.
fn open_reorg() -> Company {
    let mut co = company();
    dept(&mut co, "executive", "", "Executive", "ada", 0);
    dept(&mut co, "office-of-the-ceo", "executive", "Office of the CEO", "cos", 1);
    dept(&mut co, "eng", "executive", "Engineering", "bo", 2);
    dept(&mut co, "eng-platform", "eng", "Platform", "pi", 3);
    dept(&mut co, "fund-ops", "executive", "Fund Ops", "fo", 4);
    person(&mut co, "ada", PersonKind::Executive, "executive", 0);
    person(&mut co, "cos", PersonKind::Head, "office-of-the-ceo", 1);
    person(&mut co, "bo", PersonKind::Head, "eng", 2);
    person(&mut co, "pi", PersonKind::Head, "eng-platform", 3);
    person(&mut co, "fo", PersonKind::Head, "fund-ops", 4);
    co
}

fn parent_of(co: &Company, id: &str) -> Option<String> {
    dept_row(co, id).parent_id.clone()
}

fn refused(reason: ReparentRefusal) -> ReparentOutcome {
    ReparentOutcome::Refused { reason }
}

fn applied(id: &str) -> ReparentOutcome {
    ReparentOutcome::Applied { department_id: id.into() }
}

#[test]
fn reparent_moves_the_dept_and_keeps_a_valid_bijective_tree() {
    let mut co = open_reorg();
    let out =
        reparent_department(&mut co, "fund-ops", "eng", "2026-07-25T00:00:00.000Z", "chief")
            .unwrap();
    assert_eq!(out, applied("fund-ops"));
    assert_eq!(parent_of(&co, "fund-ops").as_deref(), Some("eng"));
    assert!(is_gapless_bijection(&dept_ordinals(&co)));
    assert_eq!(
        dept_ids(&co),
        vec!["executive", "office-of-the-ceo", "eng", "eng-platform", "fund-ops"],
    );
}

#[test]
fn reparent_refuses_an_unknown_department() {
    let mut co = open_reorg();
    let out = reparent_department(&mut co, "ghost", "eng", "t", "").unwrap();
    assert_eq!(out, refused(ReparentRefusal::UnknownDepartment));
    assert_eq!(feed(&co).len(), 0);
}

#[test]
fn reparent_refuses_an_unknown_new_parent() {
    let mut co = open_reorg();
    let out = reparent_department(&mut co, "fund-ops", "ghost", "t", "").unwrap();
    assert_eq!(out, refused(ReparentRefusal::UnknownNewParent));
}

#[test]
fn reparent_refuses_a_paused_new_parent() {
    let mut co = open_reorg();
    pause_row(&mut co, "eng");
    let out = reparent_department(&mut co, "fund-ops", "eng", "t", "").unwrap();
    assert_eq!(out, refused(ReparentRefusal::NewParentPaused));
}

#[test]
fn reparent_refuses_an_active_new_parent_below_a_paused_ancestor() {
    let mut co = open_reorg();
    pause_row(&mut co, "eng");
    let out = reparent_department(&mut co, "fund-ops", "eng-platform", "t", "").unwrap();
    assert_eq!(out, refused(ReparentRefusal::NewParentPaused));
}

#[test]
fn reparent_refuses_the_existing_parent_without_writing_an_audit_event() {
    let mut co = open_reorg();
    let out = reparent_department(&mut co, "fund-ops", "executive", "t", "").unwrap();
    assert_eq!(out, refused(ReparentRefusal::AlreadyUnderParent));
    assert_eq!(feed(&co).len(), 0, "a no-op must not create an audit event");
}

#[test]
fn appoint_head_refuses_the_company_root_and_nothing_else() {
    let mut co = open_reorg();
    person(&mut co, "aide", PersonKind::Worker, "office-of-the-ceo", 5);
    assert_eq!(
        appoint_department_head(&mut co, "executive", "cos", None, "t", "").unwrap(),
        AppointOutcome::Refused { reason: AppointRefusal::RootHeadNotReassignable },
        "the CEO always heads the company root"
    );
    assert_eq!(
        appoint_department_head(&mut co, "office-of-the-ceo", "aide", None, "t", "").unwrap(),
        AppointOutcome::Applied,
        "office-of-the-ceo is an ordinary department for succession purposes"
    );
    assert_eq!(
        head_of(&co, "office-of-the-ceo").as_deref(),
        Some("aide"),
        "the hand-over must be durable, not merely accepted"
    );
}

#[test]
fn no_refusal_detail_describes_a_protected_region() {
    let details: [(&str, &str); 6] = [
        ("shutdown", ShutdownRefusal::CeoExempt.detail()),
        ("offboard", OffboardRefusal::ExecRootProtected.detail()),
        ("pause", PauseRefusal::ExecRootProtected.detail()),
        ("bench", BenchRefusal::ExecRootProtected.detail()),
        ("reparent", ReparentRefusal::ExecRootProtected.detail()),
        ("appoint-head", AppointRefusal::RootHeadNotReassignable.detail()),
    ];
    for (verb, detail) in details {
        assert!(!detail.contains("executive root"), "{verb} still refuses a REGION: {detail}");
        assert!(
            detail.contains("company root"),
            "{verb} must name the one fixed department: {detail}"
        );
    }
    let transfer = TransferRefusal::ExecRootProtected.detail();
    assert!(!transfer.contains("executive root"), "transfer refuses a REGION: {transfer}");
    assert!(transfer.contains("the CEO"), "transfer must name the person: {transfer}");
}

#[test]
fn reparent_refuses_a_self_parent_cycle() {
    let mut co = open_reorg();
    let out = reparent_department(&mut co, "eng", "eng", "t", "").unwrap();
    assert_eq!(out, refused(ReparentRefusal::WouldCreateCycle));
}

#[test]
fn reparent_refuses_reparenting_under_own_descendant() {
    let mut co = open_reorg();
    let out = reparent_department(&mut co, "eng", "eng-platform", "t", "").unwrap();
    assert_eq!(out, refused(ReparentRefusal::WouldCreateCycle));
}

#[test]
fn reparent_refuses_the_company_root_and_nothing_else() {
    let mut co = open_reorg();
    let root = reparent_department(&mut co, "executive", "eng", "t", "").unwrap();
    assert_eq!(root, refused(ReparentRefusal::ExecRootProtected));
    let office = reparent_department(&mut co, "office-of-the-ceo", "eng", "t", "").unwrap();
    assert_eq!(office, applied("office-of-the-ceo"), "a unit near the CEO is still just a unit");
    let into_office =
        reparent_department(&mut co, "fund-ops", "office-of-the-ceo", "t", "").unwrap();
    assert_eq!(
        into_office,
        applied("fund-ops"),
        "office-of-the-ceo accepts children like any other department"
    );
}

#[test]
fn reparent_commits_despite_a_prior_unrelated_event() {
    let mut co = open_reorg();
    prior_event(&mut co);
    let out = reparent_department(&mut co, "fund-ops", "eng", "t", "").unwrap();
    assert_eq!(out, applied("fund-ops"));
    assert_eq!(parent_of(&co, "fund-ops").as_deref(), Some("eng"));
}

#[test]
fn reparent_emits_one_contiguous_seq_run_of_department_touches() {
    let mut co = open_reorg();
    reparent_department(&mut co, "fund-ops", "eng", "t", "").unwrap();
    let rows = feed(&co);
    assert!(
        rows.iter().any(|(_, entity, id, op)| {
            entity == "department" && id == "fund-ops" && op == "upsert"
        }),
        "the moved department has an append-only audit event"
    );
    assert!(
        !rows
            .iter()
            .any(|(_, entity, id, op)| { entity == "org" && id == "acme" && op == "upsert" }),
        "a direct normalized reparent never emits an organization-wide manifest event"
    );
    let seqs: Vec<i64> = rows.iter().map(|(s, ..)| *s).collect();
    let contiguous: Vec<i64> = (1..=rows.len() as i64).collect();
    assert_eq!(seqs, contiguous, "one contiguous seq run");
}

#[test]
fn reparent_that_shifts_preorder_touches_every_moved_dept() {
    let mut co = open_reorg();
    let out = reparent_department(&mut co, "eng-platform", "fund-ops", "t", "").unwrap();
    assert_eq!(out, applied("eng-platform"));
    assert!(is_gapless_bijection(&dept_ordinals(&co)));
    assert_eq!(
        dept_ids(&co),
        vec!["executive", "office-of-the-ceo", "eng", "fund-ops", "eng-platform"],
    );
    let touched: Vec<String> = feed(&co).into_iter().map(|(_, _, id, _)| id).collect();
    assert!(touched.contains(&"eng-platform".to_string()));
    assert!(touched.contains(&"fund-ops".to_string()));
}

#[test]
fn the_ceo_may_reparent_anything_because_it_manages_the_whole_company() {
    let mut co = open_reorg();
    let out = reparent_department(&mut co, "fund-ops", "eng", "t", "ada").unwrap();
    assert_eq!(out, applied("fund-ops"));
}

#[test]
fn a_head_may_not_reparent_a_department_outside_its_own_subtree() {
    let mut co = open_reorg();
    let out = reparent_department(&mut co, "eng", "fund-ops", "t", "fo").unwrap();
    assert_eq!(out, refused(ReparentRefusal::ActorOutOfScope));
    assert_eq!(parent_of(&co, "eng").as_deref(), Some("executive"));
}

#[test]
fn a_head_may_not_graft_its_own_subtree_under_a_parent_it_does_not_manage() {
    let mut co = open_reorg();
    assert!(
        person_manages_department(&eligibility_view(&co), "bo", "eng-platform"),
        "fixture check: bo must manage the unit being moved, or this proves nothing"
    );
    let out = reparent_department(&mut co, "eng-platform", "fund-ops", "t", "bo").unwrap();
    assert_eq!(out, refused(ReparentRefusal::NewParentOutOfScope));
    assert_eq!(parent_of(&co, "eng-platform").as_deref(), Some("eng"));
}

#[test]
fn org_ops_an_actor_that_names_no_person_is_not_judged() {
    let mut co = open_reorg();
    let out = reparent_department(&mut co, "eng-platform", "fund-ops", "t", "operator").unwrap();
    assert_eq!(out, applied("eng-platform"));
}
