#![allow(dead_code, unused_imports)]

use chiefd_core::company::{
    ActivityRow, Company, DepartmentRow, Entity, EventOp, EventRow, Fence, OrgSettings, PersonRow,
    SettingsRow, StaffingEntry, TransitionAction, TransitionRow, TransitionStatus,
};
use chiefd_core::org_ops::{
    appoint_department_head, bench_person, bench_person_lifecycle, create_department,
    create_department_with_staff, create_department_with_staff_unit, department_is_company_root,
    hire_person, hire_person_authorized, is_ceo, move_department_members, offboard_person,
    pause_department, prepare_ceo_only, reactivate_executive_root, recall_person,
    remove_department_tree, reparent_department, replace_head_and_offboard, resume_department,
    resume_departments, shutdown_person, start_person, transfer_person, validate_new_person_seed,
    wake_person, AppointOutcome, AppointRefusal, BenchLifecycleOutcome, BenchOutcome, BenchRefusal,
    CreateDepartmentOutcome, CreateDepartmentRefusal, DepartmentCreateUnit, DepartmentStaffSeed,
    DirectOutcome, HeadDecision, HeadIneligibility, HeadVacancy, HeadVacancyRefusal, HireOutcome,
    HireRefusal, NewPersonSeed, OffboardOutcome, OffboardRefusal, OwnedNewPersonSeed,
    PauseOutcome, PauseRefusal, RemoveDepartmentOutcome, ReparentOutcome, ReparentRefusal,
    RowError, SeedRejection, ShutdownKind, ShutdownOutcome, ShutdownRefusal, TransferOutcome,
    TransferRefusal, VacancyRefusal,
};
use chiefd_core::organization::{EmploymentState, PersonKind, UnitKind, UnitState};
use chiefd_core::rows::ledger::IDLE_AUTO_PARK_REASON;

fn some(s: &str) -> Option<String> {
    Some(s.to_string())
}

/// A company with a settings row and nothing else.
fn company() -> Company {
    let mut co = Company::new("acme");
    co.settings = Some(SettingsRow {
        display_slug: "acme".to_string(),
        settings: OrgSettings {
            launcher_root: None,
            supervision_interval_ms: 60000,
            acknowledgement_timeout_ms: 30000,
            acknowledgement_retry_limit: 3,
            replacement_limit: 3,
        },
    });
    co
}

fn dept(co: &mut Company, id: &str, parent: &str, name: &str, head: &str, ordinal: u64) {
    co.departments.put(
        id,
        DepartmentRow {
            parent_id: if parent.is_empty() { None } else { some(parent) },
            name: name.to_string(),
            purpose: String::new(),
            kind: if parent.is_empty() { UnitKind::Company } else { UnitKind::Department },
            transient: None,
            state: UnitState::Active,
            head_person_id: head.to_string(),
            ordinal,
            created_at: "t".to_string(),
            updated_at: "t".to_string(),
        },
    );
}

fn person(co: &mut Company, id: &str, kind: PersonKind, department: &str, ordinal: u64) {
    co.people.put(
        id,
        PersonRow {
            name: id.to_string(),
            title: "title".to_string(),
            mandate: "mandate".to_string(),
            kind,
            employment_state: EmploymentState::Active,
            department_id: department.to_string(),
            activation: "resident".to_string(),
            tools: Vec::new(),
            prompts: Vec::new(),
            ordinal,
            created_at: "t".to_string(),
            updated_at: "t".to_string(),
        },
    );
}

/// The executive root headed by `ada`, the office of the CEO headed by `cos`,
/// and engineering headed by `bo`.
fn open() -> Company {
    let mut co = company();
    dept(&mut co, "executive", "", "Executive", "ada", 0);
    dept(&mut co, "office-of-the-ceo", "executive", "Office of the CEO", "cos", 1);
    dept(&mut co, "eng", "executive", "Engineering", "bo", 2);
    person(&mut co, "ada", PersonKind::Executive, "executive", 0);
    person(&mut co, "cos", PersonKind::Head, "office-of-the-ceo", 1);
    person(&mut co, "bo", PersonKind::Worker, "eng", 2);
    co
}

fn person_mut<'a>(co: &'a mut Company, id: &str) -> &'a mut PersonRow {
    let i = co.people.find(id).expect("person");
    &mut co.people.values[i]
}

fn dept_mut<'a>(co: &'a mut Company, id: &str) -> &'a mut DepartmentRow {
    let i = co.departments.find(id).expect("department");
    &mut co.departments.values[i]
}

fn transition_mut<'a>(co: &'a mut Company, id: &str) -> &'a mut TransitionRow {
    let i = co.transitions.find(id).expect("transition");
    &mut co.transitions.values[i]
}

fn activity_mut<'a>(co: &'a mut Company, id: &str) -> &'a mut ActivityRow {
    let i = co.activity.find(id).expect("activity");
    &mut co.activity.values[i]
}

fn employ(co: &mut Company, id: &str, state: EmploymentState) {
    person_mut(co, id).employment_state = state;
}

fn pause_row(co: &mut Company, id: &str) {
    dept_mut(co, id).state = UnitState::Paused;
}

fn fence(co: &mut Company, id: &str) {
    co.fences.put(id, Fence {});
}

fn transition_row(
    co: &mut Company,
    id: &str,
    person: &str,
    action: TransitionAction,
    status: TransitionStatus,
) {
    co.transitions.put(
        id,
        TransitionRow {
            person_id: person.to_string(),
            action,
            status,
            intent_id: None,
            reason: String::new(),
            placement_department_id: None,
            requested_at: "t0".to_string(),
            handoff_deadline_at: None,
            applied_at: None,
            cancelled_at: None,
            abandoned_at: None,
        },
    );
}

fn activity_row(co: &mut Company, person: &str, desired: bool, pointer: Option<&str>) {
    co.activity.put(
        person,
        ActivityRow {
            last_desired_active: desired,
            last_operational: false,
            last_department_id: None,
            last_employment_state: None,
            agent_quiet_at: None,
            idle_since: None,
            agent_active_at: None,
            operator_wake_at: None,
            active_transition_id: pointer.map(|p| p.to_string()),
            updated_at: "t".to_string(),
        },
    );
}

/// One event already in the feed.
fn prior_event(co: &mut Company) {
    co.events.push(EventRow {
        entity: Entity::Person,
        entity_id: "x".to_string(),
        op: EventOp::Upsert,
        at: "t".to_string(),
        actor: String::new(),
    });
}

fn person_row<'a>(co: &'a Company, id: &str) -> &'a PersonRow {
    co.people.get(id).expect("person")
}

fn home(co: &Company, id: &str) -> String {
    person_row(co, id).department_id.clone()
}

fn employment(co: &Company, id: &str) -> &'static str {
    person_row(co, id).employment_state.as_str()
}

fn kind(co: &Company, id: &str) -> &'static str {
    person_row(co, id).kind.as_str()
}

fn dept_row<'a>(co: &'a Company, id: &str) -> &'a DepartmentRow {
    co.departments.get(id).expect("department")
}

fn head_of(co: &Company, id: &str) -> Option<String> {
    co.departments.get(id).map(|row| row.head_person_id.clone())
}

fn state_of(co: &Company, id: &str) -> &'static str {
    dept_row(co, id).state.as_str()
}

fn transition<'a>(co: &'a Company, id: &str) -> &'a TransitionRow {
    co.transitions.get(id).expect("transition")
}

fn transitions_of<'a>(co: &'a Company, person: &str) -> Vec<&'a TransitionRow> {
    co.transitions.values.iter().filter(|t| t.person_id == person).collect()
}

fn desired(co: &Company, person: &str) -> Option<i64> {
    co.activity.get(person).map(|row| if row.last_desired_active { 1 } else { 0 })
}

fn pointer(co: &Company, person: &str) -> Option<String> {
    co.activity.get(person).expect("activity").active_transition_id.clone()
}

/// The quiet, idle and active clocks of somebody.
fn clocks(co: &Company, person: &str) -> (Option<String>, Option<String>, Option<String>) {
    let row = co.activity.get(person).expect("activity");
    (row.agent_quiet_at.clone(), row.idle_since.clone(), row.agent_active_at.clone())
}

fn fenced(co: &Company) -> Vec<String> {
    co.fences.list()
}

/// What the staffing history says of somebody: action, from, to, reason.
fn staffing(co: &Company, person: &str) -> Vec<(String, Option<String>, Option<String>, String)> {
    co.staffing
        .iter()
        .filter(|e| e.person_id == person)
        .map(|e| {
            (
                e.action.as_str().to_string(),
                e.from_department_id.clone(),
                e.to_department_id.clone(),
                e.reason.clone(),
            )
        })
        .collect()
}

fn actions(co: &Company, person: &str) -> Vec<String> {
    staffing(co, person).into_iter().map(|(action, ..)| action).collect()
}

/// The feed: sequence, entity, entity id, op.
fn feed(co: &Company) -> Vec<(i64, String, String, String)> {
    co.events
        .iter()
        .enumerate()
        .map(|(i, e)| {
            (
                (co.event_base + i as u64 + 1) as i64,
                e.entity.name().to_string(),
                e.entity_id.clone(),
                e.op.as_str().to_string(),
            )
        })
        .collect()
}

fn dept_ids(co: &Company) -> Vec<String> {
    let mut rows: Vec<(u64, String)> = co
        .departments
        .keys
        .iter()
        .zip(co.departments.values.iter())
        .map(|(id, row)| (row.ordinal, id.clone()))
        .collect();
    rows.sort();
    rows.into_iter().map(|(_, id)| id).collect()
}

fn people_ids(co: &Company) -> Vec<String> {
    co.roster()
}

fn dept_ordinals(co: &Company) -> Vec<i64> {
    let mut v: Vec<i64> = co.departments.values.iter().map(|r| r.ordinal as i64).collect();
    v.sort();
    v
}

fn people_ordinals(co: &Company) -> Vec<i64> {
    let mut v: Vec<i64> = co.people.values.iter().map(|r| r.ordinal as i64).collect();
    v.sort();
    v
}

fn is_gapless_bijection(ordinals: &[i64]) -> bool {
    ordinals.iter().enumerate().all(|(i, o)| *o == i as i64)
}

/// A head for every unit, who is there, employed, at home in it and in one
/// headship; a unit for everybody; every parent there; the places without a
/// gap.
fn assert_chart_valid(co: &Company) {
    for (id, row) in co.departments.keys.iter().zip(co.departments.values.iter()) {
        let head = co.people.get(&row.head_person_id).expect("a head who is there");
        assert_eq!(&head.department_id, id, "a head is at home in the unit they head");
        assert_ne!(head.employment_state, EmploymentState::Departed);
        assert_ne!(head.kind, PersonKind::Worker, "a worker cannot head a department");
        match &row.parent_id {
            Some(parent) => assert!(co.departments.has(parent), "a parent that is there"),
            None => assert_eq!(id, "executive"),
        }
    }
    for (id, row) in co.people.keys.iter().zip(co.people.values.iter()) {
        assert!(co.departments.has(&row.department_id), "{id} has a unit");
        let heads = co.departments.values.iter().filter(|d| &d.head_person_id == id).count();
        match row.kind {
            PersonKind::Worker => assert_eq!(heads, 0),
            _ => assert_eq!(heads, 1, "{id} heads exactly one unit"),
        }
    }
    assert!(is_gapless_bijection(&dept_ordinals(co)));
    assert!(is_gapless_bijection(&people_ordinals(co)));
}

/// Somebody heads a unit, by their kind and by the unit's row.
fn make_head(co: &mut Company, person: &str, department: &str) {
    person_mut(co, person).kind = PersonKind::Head;
    dept_mut(co, department).head_person_id = person.to_string();
}

/// The usual company, and `ci`, a plain engineer.
fn open_with_worker() -> Company {
    let mut co = open();
    person(&mut co, "ci", PersonKind::Worker, "eng", 3);
    co
}

fn bench(co: &mut Company, person: &str, actor: &str) -> BenchOutcome {
    bench_person(co, person, "t1", actor).unwrap()
}

#[test]
fn released_bench_lifecycle_returns_its_internal_completion_identity() {
    let mut co = open();
    co.activity_ledger = true;
    let outcome = bench_person_lifecycle(&mut co, "bo", "t1", "operator").unwrap();
    let BenchLifecycleOutcome::Applied { completion: Some(completion) } = outcome else {
        panic!("expected applied lifecycle with a completion key");
    };
    assert_eq!(completion.operation_id, "transition:1:bo:park");
    assert_eq!(completion.person_id, "bo");
    assert_eq!(
        transition(&co, &completion.operation_id).status,
        TransitionStatus::Ready,
        "the structural commit retains the released transition for reconcile"
    );
    assert_eq!(employment(&co, "bo"), "benched");
}

#[test]
fn bench_benches_a_worker_retaining_row_and_placement() {
    let mut co = open();
    fence(&mut co, "bo");
    assert_eq!(bench(&mut co, "bo", "operator"), BenchOutcome::Applied);
    assert_eq!(employment(&co, "bo"), "benched");
    assert_eq!(home(&co, "bo"), "eng", "bench does NOT move anybody");
    assert_eq!(transitions_of(&co, "bo").len(), 0, "a direct bench mints no transition");
    assert_eq!(desired(&co, "bo"), Some(0));
    assert_eq!(pointer(&co, "bo"), None, "bench clears the stale activity transition pointer");
    assert_eq!(actions(&co, "bo"), vec!["benched"]);
    assert!(fenced(&co).is_empty());
}

#[test]
fn bench_adopts_a_released_transition_instead_of_superseding_it() {
    let mut co = open();
    let id = "transition:7:bo:park";
    transition_row(&mut co, id, "bo", TransitionAction::Park, TransitionStatus::Ready);
    {
        let row = transition_mut(&mut co, id);
        row.reason = "benched bo".to_string();
        row.handoff_deadline_at = some("t9");
        row.placement_department_id = some("eng");
    }
    activity_row(&mut co, "bo", false, Some(id));
    assert_eq!(bench(&mut co, "bo", "operator"), BenchOutcome::Applied);
    assert_eq!(transitions_of(&co, "bo").len(), 1, "adoption mints no replacement transition");
    assert_eq!(
        transition(&co, id).status,
        TransitionStatus::Ready,
        "a released transition is consumed by the reconcile, never superseded"
    );
    assert_eq!(employment(&co, "bo"), "benched");
    assert_eq!(
        pointer(&co, "bo"),
        some(id),
        "adoption must point AT the adopted transition so a later reconcile can consume it"
    );
}

#[test]
fn bench_still_clears_the_pointer_when_no_ready_transition_is_adopted() {
    let mut co = open();
    transition_row(
        &mut co,
        "open-1",
        "bo",
        TransitionAction::Park,
        TransitionStatus::AwaitingHandoff,
    );
    activity_row(&mut co, "bo", false, Some("open-1"));
    assert_eq!(bench(&mut co, "bo", "operator"), BenchOutcome::Applied);
    assert_eq!(
        transition(&co, "open-1").status,
        TransitionStatus::Cancelled,
        "an unreleased open transition is still superseded"
    );
    assert_eq!(pointer(&co, "bo"), None, "nothing survives to point at");
}

#[test]
fn bench_applies_against_current_rows_after_unrelated_event() {
    let mut co = open();
    prior_event(&mut co);
    assert_eq!(bench(&mut co, "bo", "op"), BenchOutcome::Applied);
    assert_eq!(employment(&co, "bo"), "benched");
    assert_eq!(co.transitions.len(), 0, "a direct bench mints no transition");
}

#[test]
fn bench_preserves_h1_gapless_ordinal_bijection() {
    let mut co = open();
    assert_eq!(people_ordinals(&co), vec![0, 1, 2], "the seed is already a gapless bijection");
    assert_eq!(bench(&mut co, "bo", "op"), BenchOutcome::Applied);
    assert_eq!(people_ordinals(&co), vec![0, 1, 2], "bench leaves the bijection untouched");
}

#[test]
fn bench_refuses_already_benched_and_departed() {
    let mut co = open();
    employ(&mut co, "bo", EmploymentState::Benched);
    employ(&mut co, "cos", EmploymentState::Departed);
    match bench(&mut co, "bo", "op") {
        BenchOutcome::Refused { reason } => assert_eq!(reason.code(), "already-benched"),
        other => panic!("expected already-benched, got {other:?}"),
    }
    employ(&mut co, "bo", EmploymentState::Departed);
    match bench(&mut co, "bo", "op") {
        BenchOutcome::Refused { reason } => assert_eq!(reason.code(), "already-departed"),
        other => panic!("expected already-departed, got {other:?}"),
    }
}

#[test]
fn bench_refuses_the_ceo_alone() {
    let mut co = open();
    let mut code = |who: &str| match bench(&mut co, who, "op") {
        BenchOutcome::Refused { reason } => reason.code().to_string(),
        other => panic!("expected refusal, got {other:?}"),
    };
    assert_eq!(code("ada"), "exec-root-protected", "the CEO is never benched");
    assert_eq!(code("ghost"), "unknown-person");
    assert_eq!(co.transitions.len(), 0);
    assert_eq!(
        bench(&mut co, "cos", "op"),
        BenchOutcome::Applied,
        "the CEO's chief of staff is benched like anybody else"
    );
}

#[test]
fn shutdown_refuses_an_actor_that_does_not_manage_the_targets_department() {
    let mut co = open();
    let outcome =
        shutdown_person(&mut co, "bo", &ShutdownKind::AutomaticSettle, "t1", "cos").unwrap();
    let ShutdownOutcome::Refused { reason } = &outcome else {
        panic!("a sibling head must not stop bo: {outcome:?}");
    };
    assert_eq!(reason.code(), "actor-out-of-scope");
}

#[test]
fn shutdown_applies_for_the_ceo_and_for_an_actor_that_names_nobody() {
    for actor in ["ada", "operator", ""] {
        let mut co = open();
        let outcome =
            shutdown_person(&mut co, "bo", &ShutdownKind::AutomaticSettle, "t1", actor).unwrap();
        assert!(
            matches!(outcome, ShutdownOutcome::Applied { .. }),
            "{actor:?} must be allowed to stop bo: {outcome:?}"
        );
    }
}

#[test]
fn bench_refuses_an_actor_outside_the_targets_subtree() {
    let mut co = open();
    let outcome = bench(&mut co, "bo", "cos");
    assert_eq!(outcome, BenchOutcome::Refused { reason: BenchRefusal::ActorOutOfScope });
    assert_eq!(employment(&co, "bo"), "active");
}

#[test]
fn bench_applies_for_the_ceo() {
    let mut co = open();
    assert_eq!(bench(&mut co, "bo", "ada"), BenchOutcome::Applied);
}

#[test]
fn bench_lifecycle_refuses_the_same_actor_the_direct_bench_refuses() {
    let mut co = open();
    co.activity_ledger = true;
    let outcome = bench_person_lifecycle(&mut co, "bo", "t1", "cos").unwrap();
    assert!(
        matches!(
            outcome,
            BenchLifecycleOutcome::Refused { reason: BenchRefusal::ActorOutOfScope }
        ),
        "a sibling head must not bench bo: {outcome:?}"
    );
}

#[test]
fn bench_lifecycle_applies_for_the_ceo() {
    let mut co = open();
    co.activity_ledger = true;
    let outcome = bench_person_lifecycle(&mut co, "bo", "t1", "ada").unwrap();
    assert!(
        matches!(outcome, BenchLifecycleOutcome::Applied { .. }),
        "the CEO holds every tree: {outcome:?}"
    );
}

#[test]
fn start_refuses_an_actor_outside_the_targets_subtree() {
    let mut co = open();
    let outcome = start_person(&mut co, "bo", "t1", "cos").unwrap();
    let DirectOutcome::Refused { code, detail } = &outcome else {
        panic!("a sibling head must not start bo: {outcome:?}");
    };
    assert_eq!(*code, "actor-out-of-scope");
    assert!(detail.contains("does not manage"), "{detail}");
}

#[test]
fn start_applies_for_the_ceo() {
    let mut co = open();
    assert_eq!(start_person(&mut co, "bo", "t1", "ada").unwrap(), DirectOutcome::Applied);
}

#[test]
fn recall_refuses_an_actor_outside_the_targets_subtree() {
    let mut co = open();
    assert_eq!(bench_person(&mut co, "bo", "t0", "operator").unwrap(), BenchOutcome::Applied);
    let outcome = recall_person(&mut co, "bo", "t1", "cos").unwrap();
    let DirectOutcome::Refused { code, .. } = &outcome else {
        panic!("a sibling head must not recall bo: {outcome:?}");
    };
    assert_eq!(*code, "actor-out-of-scope");
}

#[test]
fn recall_applies_for_the_ceo() {
    let mut co = open();
    assert_eq!(bench_person(&mut co, "bo", "t0", "operator").unwrap(), BenchOutcome::Applied);
    assert_eq!(recall_person(&mut co, "bo", "t1", "ada").unwrap(), DirectOutcome::Applied);
}

#[test]
fn transfer_refuses_an_actor_that_manages_only_the_destination() {
    let mut co = open_with_worker();
    let outcome =
        transfer_person(&mut co, "ci", "office-of-the-ceo", "i1", "t1", "cos", None).unwrap();
    let TransferOutcome::Refused { reason } = &outcome else {
        panic!("cos does not manage eng: {outcome:?}");
    };
    assert_eq!(reason.code(), "actor-out-of-scope");
}

#[test]
fn transfer_refuses_an_actor_that_manages_only_the_source() {
    let mut co = open_with_worker();
    make_head(&mut co, "ci", "eng");
    let outcome =
        transfer_person(&mut co, "bo", "office-of-the-ceo", "i1", "t1", "ci", None).unwrap();
    let TransferOutcome::Refused { reason } = &outcome else {
        panic!("ci manages eng but not office-of-the-ceo: {outcome:?}");
    };
    assert_eq!(reason.code(), "actor-out-of-scope");
    assert!(reason.detail().contains("BOTH"), "{}", reason.detail());
}

#[test]
fn transfer_applies_for_the_ceo_who_manages_both_departments() {
    let mut co = open_with_worker();
    let outcome =
        transfer_person(&mut co, "ci", "office-of-the-ceo", "i1", "t1", "ada", None).unwrap();
    assert!(
        matches!(outcome, TransferOutcome::Applied { .. }),
        "the CEO manages every department: {outcome:?}"
    );
}

#[test]
fn appoint_head_refuses_an_actor_outside_the_department() {
    let mut co = open_with_worker();
    let outcome = appoint_department_head(&mut co, "eng", "ci", None, "t1", "cos").unwrap();
    let AppointOutcome::Refused { reason } = &outcome else {
        panic!("a sibling head must not appoint eng's head: {outcome:?}");
    };
    assert_eq!(reason.code(), "actor-out-of-scope");
    assert!(reason.detail().contains("MOVES"), "{}", reason.detail());
}

#[test]
fn appoint_head_refuses_a_demotion_into_a_department_the_actor_does_not_manage() {
    let mut co = open_with_worker();
    make_head(&mut co, "ci", "eng");
    let outcome =
        appoint_department_head(&mut co, "eng", "bo", Some("office-of-the-ceo"), "t1", "ci")
            .unwrap();
    let AppointOutcome::Refused { reason } = &outcome else {
        panic!("ci does not manage office-of-the-ceo: {outcome:?}");
    };
    assert_eq!(reason.code(), "actor-out-of-scope");
}

#[test]
fn appoint_head_applies_for_the_ceo() {
    let mut co = open_with_worker();
    let outcome = appoint_department_head(&mut co, "eng", "ci", None, "t1", "ada").unwrap();
    assert_eq!(outcome, AppointOutcome::Applied);
}

#[test]
fn replace_head_and_offboard_refuses_an_actor_outside_the_department() {
    let mut co = open_with_worker();
    make_head(&mut co, "bo", "eng");
    let outcome = replace_head_and_offboard(&mut co, "bo", "ci", "t1", "cos").unwrap();
    let DirectOutcome::Refused { code, detail } = &outcome else {
        panic!("a sibling head must not replace eng's head: {outcome:?}");
    };
    assert_eq!(*code, "actor-out-of-scope");
    assert!(detail.contains("does not manage"), "{detail}");
}

#[test]
fn move_members_refuses_an_actor_that_manages_only_the_destination() {
    let mut co = open();
    let outcome =
        move_department_members(&mut co, "eng", "office-of-the-ceo", &[], "i1", "t1", "cos")
            .unwrap();
    let TransferOutcome::Refused { reason } = &outcome else {
        panic!("cos does not manage eng: {outcome:?}");
    };
    assert_eq!(reason.code(), "actor-out-of-scope");
}

#[test]
fn move_members_applies_for_the_ceo() {
    let mut co = open();
    let outcome =
        move_department_members(&mut co, "eng", "office-of-the-ceo", &[], "i1", "t1", "ada")
            .unwrap();
    assert!(
        matches!(outcome, TransferOutcome::Applied { .. }),
        "the CEO manages every department: {outcome:?}"
    );
}

#[test]
fn pause_refuses_an_actor_outside_the_departments_subtree() {
    let mut co = open();
    let outcome = pause_department(&mut co, "eng", "t1", "cos").unwrap();
    assert_eq!(outcome, PauseOutcome::Refused { reason: PauseRefusal::ActorOutOfScope });
    assert_eq!(state_of(&co, "eng"), "active");
}

#[test]
fn pause_applies_for_the_ceo() {
    let mut co = open();
    assert_eq!(pause_department(&mut co, "eng", "t1", "ada").unwrap(), PauseOutcome::Applied);
}

#[test]
fn resume_refuses_an_actor_outside_the_departments_subtree() {
    let mut co = open();
    assert_eq!(
        pause_department(&mut co, "eng", "t0", "operator").unwrap(),
        PauseOutcome::Applied
    );
    let outcome = resume_department(&mut co, "eng", "t1", "cos").unwrap();
    assert_eq!(outcome, PauseOutcome::Refused { reason: PauseRefusal::ActorOutOfScope });
}

#[test]
fn resume_applies_for_the_ceo() {
    let mut co = open();
    assert_eq!(
        pause_department(&mut co, "eng", "t0", "operator").unwrap(),
        PauseOutcome::Applied
    );
    assert_eq!(resume_department(&mut co, "eng", "t1", "ada").unwrap(), PauseOutcome::Applied);
}

/// The office of the CEO and engineering, both paused.
fn open_paused() -> (Company, Vec<String>) {
    let mut co = open();
    let batch = vec!["office-of-the-ceo".to_string(), "eng".to_string()];
    for department_id in &batch {
        assert_eq!(
            pause_department(&mut co, department_id, "t0", "operator").unwrap(),
            PauseOutcome::Applied
        );
    }
    (co, batch)
}

#[test]
fn resume_many_refuses_when_one_department_in_the_batch_is_out_of_scope() {
    let (mut co, batch) = open_paused();
    let outcome = resume_departments(&mut co, &batch, false, "t1", "cos").unwrap();
    assert_eq!(outcome, PauseOutcome::Refused { reason: PauseRefusal::ActorOutOfScope });
}

#[test]
fn resume_many_applies_for_the_ceo() {
    let (mut co, batch) = open_paused();
    assert_eq!(
        resume_departments(&mut co, &batch, false, "t1", "ada").unwrap(),
        PauseOutcome::Applied
    );
}

#[test]
fn reactivate_executive_root_refuses_a_head_that_does_not_hold_the_root() {
    let mut co = open();
    let outcome = reactivate_executive_root(&mut co, "t1", "cos").unwrap();
    let DirectOutcome::Refused { code, .. } = &outcome else {
        panic!("cos heads a child, not the root: {outcome:?}");
    };
    assert_eq!(*code, "actor-out-of-scope");
}

#[test]
fn reactivate_executive_root_applies_for_the_ceo() {
    let mut co = open();
    assert_eq!(reactivate_executive_root(&mut co, "t1", "ada").unwrap(), DirectOutcome::Applied);
}

#[test]
fn replace_head_and_offboard_applies_for_the_ceo() {
    let mut co = open_with_worker();
    make_head(&mut co, "bo", "eng");
    let outcome = replace_head_and_offboard(&mut co, "bo", "ci", "t1", "ada").unwrap();
    assert_eq!(outcome, DirectOutcome::Applied);
}

#[test]
fn a_bench_lifecycle_without_a_ledger_finds_no_rows_and_changes_nothing() {
    let mut co = open();
    let before = co.clone();
    assert_eq!(
        bench_person_lifecycle(&mut co, "bo", "t1", "operator").unwrap_err(),
        RowError::NoRows
    );
    assert_eq!(co, before);
}

#[test]
fn a_bench_lifecycle_does_not_take_the_place_of_another_open_transition() {
    let mut co = open();
    co.activity_ledger = true;
    transition_row(
        &mut co,
        "open-1",
        "bo",
        TransitionAction::Transfer,
        TransitionStatus::AwaitingHandoff,
    );
    let before = co.clone();
    assert_eq!(
        bench_person_lifecycle(&mut co, "bo", "t1", "operator").unwrap_err(),
        RowError::Constraint
    );
    assert_eq!(co, before);
}
