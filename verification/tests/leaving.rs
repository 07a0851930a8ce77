#![allow(dead_code, unused_imports)]

use chiefd_core::company::{
    ActivityRow, Company, DepartmentRow, Entity, EventOp, EventRow, Fence, OrgSettings, PersonRow,
    SettingsRow, StaffingEntry, TransitionAction, TransitionRow, TransitionStatus,
};
use chiefd_core::org_ops::{
    appoint_department_head, bench_person, bench_person_lifecycle, create_department,
    create_department_with_staff, create_department_with_staff_unit, department_is_company_root,
    hire_person, hire_person_authorized, is_ceo, move_department_members, offboard_person,
    pause_department, prepare_ceo_only, reactivate_executive_root, recall_person,
    remove_department_tree, reparent_department, replace_head_and_offboard, resume_department,
    resume_departments, shutdown_person, start_person, transfer_person, validate_new_person_seed,
    wake_person, AppointOutcome, AppointRefusal, BenchLifecycleOutcome, BenchOutcome, BenchRefusal,
    CreateDepartmentOutcome, CreateDepartmentRefusal, DepartmentCreateUnit, DepartmentStaffSeed,
    DirectOutcome, HeadDecision, HeadIneligibility, HeadVacancy, HeadVacancyRefusal, HireOutcome,
    HireRefusal, NewPersonSeed, OffboardOutcome, OffboardRefusal, OwnedNewPersonSeed,
    PauseOutcome, PauseRefusal, RemoveDepartmentOutcome, ReparentOutcome, ReparentRefusal,
    RowError, SeedRejection, ShutdownKind, ShutdownOutcome, ShutdownRefusal, TransferOutcome,
    TransferRefusal, VacancyRefusal,
};
use chiefd_core::organization::{EmploymentState, PersonKind, UnitKind, UnitState};
use chiefd_core::rows::ledger::IDLE_AUTO_PARK_REASON;

fn some(s: &str) -> Option<String> {
    Some(s.to_string())
}

/// A company with a settings row and nothing else.
fn company() -> Company {
    let mut co = Company::new("acme");
    co.settings = Some(SettingsRow {
        display_slug: "acme".to_string(),
        settings: OrgSettings {
            launcher_root: None,
            supervision_interval_ms: 60000,
            acknowledgement_timeout_ms: 30000,
            acknowledgement_retry_limit: 3,
            replacement_limit: 3,
        },
    });
    co
}

fn dept(co: &mut Company, id: &str, parent: &str, name: &str, head: &str, ordinal: u64) {
    co.departments.put(
        id,
        DepartmentRow {
            parent_id: if parent.is_empty() { None } else { some(parent) },
            name: name.to_string(),
            purpose: String::new(),
            kind: if parent.is_empty() { UnitKind::Company } else { UnitKind::Department },
            transient: None,
            state: UnitState::Active,
            head_person_id: head.to_string(),
            ordinal,
            created_at: "t".to_string(),
            updated_at: "t".to_string(),
        },
    );
}

fn person(co: &mut Company, id: &str, kind: PersonKind, department: &str, ordinal: u64) {
    co.people.put(
        id,
        PersonRow {
            name: id.to_string(),
            title: "title".to_string(),
            mandate: "mandate".to_string(),
            kind,
            employment_state: EmploymentState::Active,
            department_id: department.to_string(),
            activation: "resident".to_string(),
            tools: Vec::new(),
            prompts: Vec::new(),
            ordinal,
            created_at: "t".to_string(),
            updated_at: "t".to_string(),
        },
    );
}

/// The executive root headed by `ada`, the office of the CEO headed by `cos`,
/// and engineering headed by `bo`.
fn open() -> Company {
    let mut co = company();
    dept(&mut co, "executive", "", "Executive", "ada", 0);
    dept(&mut co, "office-of-the-ceo", "executive", "Office of the CEO", "cos", 1);
    dept(&mut co, "eng", "executive", "Engineering", "bo", 2);
    person(&mut co, "ada", PersonKind::Executive, "executive", 0);
    person(&mut co, "cos", PersonKind::Head, "office-of-the-ceo", 1);
    person(&mut co, "bo", PersonKind::Worker, "eng", 2);
    co
}

fn person_mut<'a>(co: &'a mut Company, id: &str) -> &'a mut PersonRow {
    let i = co.people.find(id).expect("person");
    &mut co.people.values[i]
}

fn dept_mut<'a>(co: &'a mut Company, id: &str) -> &'a mut DepartmentRow {
    let i = co.departments.find(id).expect("department");
    &mut co.departments.values[i]
}

fn transition_mut<'a>(co: &'a mut Company, id: &str) -> &'a mut TransitionRow {
    let i = co.transitions.find(id).expect("transition");
    &mut co.transitions.values[i]
}

fn activity_mut<'a>(co: &'a mut Company, id: &str) -> &'a mut ActivityRow {
    let i = co.activity.find(id).expect("activity");
    &mut co.activity.values[i]
}

fn employ(co: &mut Company, id: &str, state: EmploymentState) {
    person_mut(co, id).employment_state = state;
}

fn pause_row(co: &mut Company, id: &str) {
    dept_mut(co, id).state = UnitState::Paused;
}

fn fence(co: &mut Company, id: &str) {
    co.fences.put(id, Fence {});
}

fn transition_row(
    co: &mut Company,
    id: &str,
    person: &str,
    action: TransitionAction,
    status: TransitionStatus,
) {
    co.transitions.put(
        id,
        TransitionRow {
            person_id: person.to_string(),
            action,
            status,
            intent_id: None,
            reason: String::new(),
            placement_department_id: None,
            requested_at: "t0".to_string(),
            handoff_deadline_at: None,
            applied_at: None,
            cancelled_at: None,
            abandoned_at: None,
        },
    );
}

fn activity_row(co: &mut Company, person: &str, desired: bool, pointer: Option<&str>) {
    co.activity.put(
        person,
        ActivityRow {
            last_desired_active: desired,
            last_operational: false,
            last_department_id: None,
            last_employment_state: None,
            agent_quiet_at: None,
            idle_since: None,
            agent_active_at: None,
            operator_wake_at: None,
            active_transition_id: pointer.map(|p| p.to_string()),
            updated_at: "t".to_string(),
        },
    );
}

/// One event already in the feed.
fn prior_event(co: &mut Company) {
    co.events.push(EventRow {
        entity: Entity::Person,
        entity_id: "x".to_string(),
        op: EventOp::Upsert,
        at: "t".to_string(),
        actor: String::new(),
    });
}

fn person_row<'a>(co: &'a Company, id: &str) -> &'a PersonRow {
    co.people.get(id).expect("person")
}

fn home(co: &Company, id: &str) -> String {
    person_row(co, id).department_id.clone()
}

fn employment(co: &Company, id: &str) -> &'static str {
    person_row(co, id).employment_state.as_str()
}

fn kind(co: &Company, id: &str) -> &'static str {
    person_row(co, id).kind.as_str()
}

fn dept_row<'a>(co: &'a Company, id: &str) -> &'a DepartmentRow {
    co.departments.get(id).expect("department")
}

fn head_of(co: &Company, id: &str) -> Option<String> {
    co.departments.get(id).map(|row| row.head_person_id.clone())
}

fn state_of(co: &Company, id: &str) -> &'static str {
    dept_row(co, id).state.as_str()
}

fn transition<'a>(co: &'a Company, id: &str) -> &'a TransitionRow {
    co.transitions.get(id).expect("transition")
}

fn transitions_of<'a>(co: &'a Company, person: &str) -> Vec<&'a TransitionRow> {
    co.transitions.values.iter().filter(|t| t.person_id == person).collect()
}

fn desired(co: &Company, person: &str) -> Option<i64> {
    co.activity.get(person).map(|row| if row.last_desired_active { 1 } else { 0 })
}

fn pointer(co: &Company, person: &str) -> Option<String> {
    co.activity.get(person).expect("activity").active_transition_id.clone()
}

/// The quiet, idle and active clocks of somebody.
fn clocks(co: &Company, person: &str) -> (Option<String>, Option<String>, Option<String>) {
    let row = co.activity.get(person).expect("activity");
    (row.agent_quiet_at.clone(), row.idle_since.clone(), row.agent_active_at.clone())
}

fn fenced(co: &Company) -> Vec<String> {
    co.fences.list()
}

/// What the staffing history says of somebody: action, from, to, reason.
fn staffing(co: &Company, person: &str) -> Vec<(String, Option<String>, Option<String>, String)> {
    co.staffing
        .iter()
        .filter(|e| e.person_id == person)
        .map(|e| {
            (
                e.action.as_str().to_string(),
                e.from_department_id.clone(),
                e.to_department_id.clone(),
                e.reason.clone(),
            )
        })
        .collect()
}

fn actions(co: &Company, person: &str) -> Vec<String> {
    staffing(co, person).into_iter().map(|(action, ..)| action).collect()
}

/// The feed: sequence, entity, entity id, op.
fn feed(co: &Company) -> Vec<(i64, String, String, String)> {
    co.events
        .iter()
        .enumerate()
        .map(|(i, e)| {
            (
                (co.event_base + i as u64 + 1) as i64,
                e.entity.name().to_string(),
                e.entity_id.clone(),
                e.op.as_str().to_string(),
            )
        })
        .collect()
}

fn dept_ids(co: &Company) -> Vec<String> {
    let mut rows: Vec<(u64, String)> = co
        .departments
        .keys
        .iter()
        .zip(co.departments.values.iter())
        .map(|(id, row)| (row.ordinal, id.clone()))
        .collect();
    rows.sort();
    rows.into_iter().map(|(_, id)| id).collect()
}

fn people_ids(co: &Company) -> Vec<String> {
    co.roster()
}

fn dept_ordinals(co: &Company) -> Vec<i64> {
    let mut v: Vec<i64> = co.departments.values.iter().map(|r| r.ordinal as i64).collect();
    v.sort();
    v
}

fn people_ordinals(co: &Company) -> Vec<i64> {
    let mut v: Vec<i64> = co.people.values.iter().map(|r| r.ordinal as i64).collect();
    v.sort();
    v
}

fn is_gapless_bijection(ordinals: &[i64]) -> bool {
    ordinals.iter().enumerate().all(|(i, o)| *o == i as i64)
}

/// A head for every unit, who is there, employed, at home in it and in one
/// headship; a unit for everybody; every parent there; the places without a
/// gap.
fn assert_chart_valid(co: &Company) {
    for (id, row) in co.departments.keys.iter().zip(co.departments.values.iter()) {
        let head = co.people.get(&row.head_person_id).expect("a head who is there");
        assert_eq!(&head.department_id, id, "a head is at home in the unit they head");
        assert_ne!(head.employment_state, EmploymentState::Departed);
        assert_ne!(head.kind, PersonKind::Worker, "a worker cannot head a department");
        match &row.parent_id {
            Some(parent) => assert!(co.departments.has(parent), "a parent that is there"),
            None => assert_eq!(id, "executive"),
        }
    }
    for (id, row) in co.people.keys.iter().zip(co.people.values.iter()) {
        assert!(co.departments.has(&row.department_id), "{id} has a unit");
        let heads = co.departments.values.iter().filter(|d| &d.head_person_id == id).count();
        match row.kind {
            PersonKind::Worker => assert_eq!(heads, 0),
            _ => assert_eq!(heads, 1, "{id} heads exactly one unit"),
        }
    }
    assert!(is_gapless_bijection(&dept_ordinals(co)));
    assert!(is_gapless_bijection(&people_ordinals(co)));
}

fn offboarded(co: &mut Company, person: &str, actor: &str) -> OffboardOutcome {
    offboard_person(co, person, "t1", actor).unwrap()
}

/// An offboard of `bo` that stands open.
fn seed_offboard(co: &mut Company, status: TransitionStatus) {
    let id = "transition:7:bo:offboard";
    transition_row(co, id, "bo", TransitionAction::Offboard, status);
    let row = transition_mut(co, id);
    row.reason = "offboarded bo".to_string();
    row.handoff_deadline_at = some("t9");
    row.placement_department_id = some("eng");
}

fn offboard_code(co: &mut Company, who: &str) -> String {
    match offboarded(co, who, "op") {
        OffboardOutcome::Refused { reason } => reason.code().to_string(),
        other => panic!("expected refusal, got {other:?}"),
    }
}

#[test]
fn a_person_cannot_fire_somebody_outside_their_own_subtree() {
    let mut co = open();
    let out = offboarded(&mut co, "bo", "cos");
    assert_eq!(
        out,
        OffboardOutcome::Refused { reason: OffboardRefusal::ActorOutOfScope },
        "a head of another department must not be able to fire this worker"
    );
    assert_eq!(employment(&co, "bo"), "active");
}

#[test]
fn the_ceo_the_operator_and_an_unauthenticated_caller_can_all_still_fire() {
    for actor in ["ada", "operator", "op", ""] {
        let mut co = open();
        let out = offboarded(&mut co, "bo", actor);
        assert_eq!(out, OffboardOutcome::Applied, "actor {actor:?} must be allowed to fire");
    }
}

#[test]
fn offboard_departs_a_worker_retaining_the_row() {
    let mut co = open();
    fence(&mut co, "bo");
    assert_eq!(offboarded(&mut co, "bo", "operator"), OffboardOutcome::Applied);
    assert_eq!(employment(&co, "bo"), "departed");
    assert_eq!(home(&co, "bo"), "eng", "an offboard leaves the person where they were");

    let rows = transitions_of(&co, "bo");
    assert_eq!(rows.len(), 1);
    assert_eq!(rows[0].action, TransitionAction::Offboard);
    assert_eq!(rows[0].status, TransitionStatus::AwaitingHandoff);
    assert!(!rows[0].reason.trim().is_empty());
    assert_eq!(rows[0].placement_department_id, some("eng"));
    assert!(!rows[0].handoff_deadline_at.as_ref().unwrap().is_empty());
    assert_eq!(desired(&co, "bo"), Some(0));
    assert_eq!(actions(&co, "bo"), vec!["offboarded"]);
    assert_eq!(
        fenced(&co),
        vec!["bo".to_string()],
        "the fence survives until the handoff completes"
    );
}

#[test]
fn offboard_adopts_a_released_transition_instead_of_superseding_it() {
    let mut co = open();
    fence(&mut co, "bo");
    seed_offboard(&mut co, TransitionStatus::Ready);
    assert_eq!(offboarded(&mut co, "bo", "operator"), OffboardOutcome::Applied);
    assert_eq!(transitions_of(&co, "bo").len(), 1, "adoption mints no replacement transition");
    assert_eq!(
        transition(&co, "transition:7:bo:offboard").status,
        TransitionStatus::Ready,
        "a released transition is consumed by the reconcile, never superseded"
    );
    assert_eq!(
        pointer(&co, "bo"),
        some("transition:7:bo:offboard"),
        "desired-off points at the ADOPTED transition"
    );
    assert_eq!(employment(&co, "bo"), "departed");
    assert_eq!(actions(&co, "bo"), vec!["offboarded"]);
}

#[test]
fn offboard_keeps_the_fence_while_the_handoff_is_open_because_the_person_must_write_it() {
    let mut co = open();
    fence(&mut co, "bo");
    assert_eq!(offboarded(&mut co, "bo", "operator"), OffboardOutcome::Applied);
    assert_eq!(
        fenced(&co),
        vec!["bo".to_string()],
        "a departed person keeps their authorization until the handoff goes terminal"
    );
    let open: Vec<_> = transitions_of(&co, "bo")
        .into_iter()
        .filter(|t| t.action == TransitionAction::Offboard)
        .collect();
    assert_eq!(open.len(), 1);
    assert_eq!(open[0].status, TransitionStatus::AwaitingHandoff);
}

#[test]
fn offboard_still_supersedes_an_open_transition_that_was_never_released() {
    let mut co = open();
    seed_offboard(&mut co, TransitionStatus::AwaitingHandoff);
    co.transition_seq = 7;
    assert_eq!(offboarded(&mut co, "bo", "operator"), OffboardOutcome::Applied);
    let row = transition(&co, "transition:7:bo:offboard");
    assert_eq!(row.status, TransitionStatus::Cancelled);
    assert_eq!(row.reason, "superseded-by-offboard:bo");
    let fresh = transitions_of(&co, "bo")
        .into_iter()
        .filter(|t| t.status == TransitionStatus::AwaitingHandoff)
        .count();
    assert_eq!(fresh, 1, "an unreleased transition is replaced with a fresh bounded window");
}

#[test]
fn offboard_refuses_the_ceo_alone_and_judges_everyone_else_on_the_facts() {
    let mut co = open();
    assert_eq!(offboard_code(&mut co, "ada"), "exec-root-protected", "the CEO is never fired");
    assert_eq!(
        offboard_code(&mut co, "cos"),
        "head-needs-successor",
        "a chief of staff is refused for HEADING a unit, not for living beside the CEO"
    );
    assert_eq!(offboard_code(&mut co, "ghost"), "unknown-person");
}

#[test]
fn offboard_accepts_a_plain_member_of_the_ceos_own_office() {
    let mut co = open();
    person(&mut co, "aide", PersonKind::Worker, "office-of-the-ceo", 9);
    assert_eq!(
        offboarded(&mut co, "aide", "op"),
        OffboardOutcome::Applied,
        "living in the CEO's office is not a protection"
    );
}

#[test]
fn offboard_refuses_a_non_goal_owning_department_head() {
    let mut co = open();
    person_mut(&mut co, "bo").kind = PersonKind::Head;
    assert_eq!(offboard_code(&mut co, "bo"), "head-needs-successor");
    assert_eq!(employment(&co, "bo"), "active");
    assert_eq!(head_of(&co, "eng"), some("bo"));
}

#[test]
fn offboard_of_a_department_head_leaves_no_department_pointing_at_a_departed_person() {
    let mut co = open();
    person_mut(&mut co, "bo").kind = PersonKind::Head;
    let out = offboarded(&mut co, "bo", "op");
    assert!(matches!(out, OffboardOutcome::Refused { .. }), "expected a refusal, got {out:?}");
    let dangling = co
        .departments
        .values
        .iter()
        .filter(|d| {
            co.people
                .get(&d.head_person_id)
                .map_or(false, |p| p.employment_state == EmploymentState::Departed)
        })
        .count();
    assert_eq!(dangling, 0, "no department may reference a departed person as its head");
}

#[test]
fn offboard_authors_a_ledger_line_that_names_the_actor() {
    let mut co = open();
    fence(&mut co, "bo");
    assert_eq!(offboarded(&mut co, "bo", "operator"), OffboardOutcome::Applied);
    let line = staffing(&co, "bo")[0].3.clone();
    assert_eq!(line, "offboarded by operator");
    assert_ne!(line, "offboarded bo", "the line names the actor, never a placeholder");
    assert_eq!(transitions_of(&co, "bo")[0].reason, "offboarded by operator");
}

/// Everybody the staffing history names whom the roster does not have, and
/// everybody it says was hired and never says has left.
fn ledger_inconsistencies(co: &Company) -> (Vec<String>, Vec<String>) {
    let mut orphans = Vec::new();
    let mut unclosed = Vec::new();
    for entry in &co.staffing {
        let who = entry.person_id.clone();
        if !co.people.has(&who) {
            orphans.push(who.clone());
        }
        let told = actions(co, &who);
        if told.contains(&"hired".to_string()) && !told.contains(&"offboarded".to_string()) {
            unclosed.push(who);
        }
    }
    (orphans, unclosed)
}

fn remove(co: &mut Company, department: &str, actor: &str) -> RemoveDepartmentOutcome {
    remove_department_tree(co, department, "t1", actor).unwrap()
}

fn removed(departments: &[&str], people: &[&str]) -> RemoveDepartmentOutcome {
    RemoveDepartmentOutcome::Applied {
        removed_department_ids: departments.iter().map(|d| d.to_string()).collect(),
        departed_person_ids: people.iter().map(|p| p.to_string()).collect(),
    }
}

#[test]
fn the_ceo_may_remove_a_department_because_it_manages_the_whole_company() {
    let mut co = open();
    let outcome = remove(&mut co, "eng", "ada");
    assert!(
        matches!(outcome, RemoveDepartmentOutcome::Applied { .. }),
        "the CEO manages every department: {outcome:?}"
    );
}

#[test]
fn a_head_may_not_remove_a_department_outside_its_own_subtree() {
    let mut co = open();
    let outcome = remove(&mut co, "eng", "cos");
    let RemoveDepartmentOutcome::Refused { code, .. } = &outcome else {
        panic!("a sibling head must not delete eng: {outcome:?}");
    };
    assert_eq!(*code, "actor-out-of-scope");
    assert!(co.departments.has("eng"));
}

#[test]
fn an_actor_that_names_no_person_is_not_judged() {
    for actor in ["operator", "op", ""] {
        let mut co = open();
        let outcome = remove(&mut co, "eng", actor);
        assert!(
            matches!(outcome, RemoveDepartmentOutcome::Applied { .. }),
            "{actor:?} names nobody and must pass through: {outcome:?}"
        );
    }
}

#[test]
fn the_out_of_scope_refusal_names_the_department_relationship() {
    let mut co = open();
    let outcome = remove(&mut co, "eng", "cos");
    let RemoveDepartmentOutcome::Refused { detail, .. } = &outcome else {
        panic!("expected a refusal: {outcome:?}");
    };
    assert!(detail.contains("does not manage"), "{detail}");
    assert!(detail.contains("removing"), "{detail}");
}

#[test]
fn remove_department_tree_offboards_its_people_and_never_deletes_one() {
    let mut co = open();
    fence(&mut co, "bo");
    activity_row(&mut co, "bo", true, None);
    {
        let row = activity_mut(&mut co, "bo");
        row.last_employment_state = Some(EmploymentState::Active);
        row.last_operational = true;
    }
    transition_row(
        &mut co,
        "transition:1:bo:park",
        "bo",
        TransitionAction::Park,
        TransitionStatus::AwaitingHandoff,
    );
    co.staffing.push(StaffingEntry {
        person_id: "bo".to_string(),
        action: chiefd_core::company::StaffingAction::Hired,
        from_department_id: None,
        to_department_id: some("eng"),
        reason: "the first engineer".to_string(),
        at: "t0".to_string(),
    });
    let outcome = remove(&mut co, "eng", "operator");
    assert_eq!(outcome, removed(&["eng"], &["bo"]));

    let (orphans, unclosed) = ledger_inconsistencies(&co);
    assert!(orphans.is_empty(), "the history names people the roster no longer has: {orphans:?}");
    assert!(unclosed.is_empty(), "hired, and never recorded as leaving: {unclosed:?}");

    assert_eq!(employment(&co, "bo"), "departed");
    assert_eq!(home(&co, "bo"), "executive", "re-homed to the removed subtree's parent");
    assert_eq!(kind(&co, "bo"), "worker");
    let last = staffing(&co, "bo").pop().unwrap();
    assert_eq!(last.0, "offboarded");
    assert_eq!(
        last.1.as_deref(),
        Some("eng"),
        "the ledger records the unit they LEFT, not the parent they came to rest in"
    );
    assert_eq!(last.3, "department eng removed");

    assert!(!co.departments.has("eng"), "the DEPARTMENT is what a removal deletes");
    assert!(fenced(&co).is_empty(), "the fence goes with the department");
    assert_eq!(desired(&co, "bo"), Some(0));
    assert_eq!(pointer(&co, "bo"), None, "no handoff is pending into a deleted department");
    assert_eq!(
        transition(&co, "transition:1:bo:park").status,
        TransitionStatus::Cancelled,
        "nobody can release a handoff into a department that is gone"
    );
    assert!(co.departments.has("executive"));
}

#[test]
fn remove_department_tree_re_homes_to_the_removed_units_parent_not_the_root() {
    let mut co = open();
    dept(&mut co, "platform", "eng", "Platform", "pat", 3);
    person(&mut co, "pat", PersonKind::Head, "platform", 3);
    let outcome = remove(&mut co, "platform", "operator");
    assert_eq!(outcome, removed(&["platform"], &["pat"]));
    assert_eq!(home(&co, "pat"), "eng", "the parent absorbs them, not the company root");
    assert_eq!(
        kind(&co, "pat"),
        "worker",
        "a head of a department that no longer exists is not a head"
    );
    assert!(co.departments.has("eng"), "only the named subtree is removed");
}

#[test]
fn remove_department_tree_leaves_nothing_partial_when_its_transaction_is_abandoned() {
    let mut co = open();
    fence(&mut co, "bo");
    let mut working = co.clone();
    remove_department_tree(&mut working, "eng", "t1", "operator").expect("removal applies");
    assert_ne!(working, co);
    drop(working);
    assert_eq!(employment(&co, "bo"), "active");
    assert_eq!(home(&co, "bo"), "eng");
    assert!(co.departments.has("eng"));
    assert_eq!(fenced(&co), vec!["bo".to_string()]);
    assert!(co.staffing.is_empty());
}

#[test]
fn a_removal_goes_children_first_and_takes_the_whole_subtree() {
    let mut co = open();
    dept(&mut co, "platform", "eng", "Platform", "pat", 3);
    person(&mut co, "pat", PersonKind::Head, "platform", 3);
    person(&mut co, "ned", PersonKind::Worker, "platform", 4);
    let outcome = remove(&mut co, "eng", "operator");
    let RemoveDepartmentOutcome::Applied { removed_department_ids, departed_person_ids } = outcome
    else {
        panic!("removal applies");
    };
    assert_eq!(removed_department_ids, vec!["platform", "eng"]);
    assert_eq!(departed_person_ids.len(), 3);
    for id in ["bo", "pat", "ned"] {
        assert_eq!(home(&co, id), "executive");
        assert_eq!(employment(&co, id), "departed");
    }
    assert!(is_gapless_bijection(&dept_ordinals(&co)));
}

#[test]
fn the_root_is_not_removed() {
    let mut co = open();
    let before = co.clone();
    let RemoveDepartmentOutcome::Refused { code, .. } = remove(&mut co, "executive", "operator")
    else {
        panic!("the root stays");
    };
    assert_eq!(code, "root-department-protected");
    assert_eq!(co, before);
}
