#![allow(dead_code, unused_imports)]

use chiefd_core::company::{
    ActivityRow, Company, DepartmentRow, Entity, EventOp, EventRow, Fence, OrgSettings, PersonRow,
    SettingsRow, StaffingEntry, TransitionAction, TransitionRow, TransitionStatus,
};
use chiefd_core::org_ops::{
    appoint_department_head, bench_person, bench_person_lifecycle, create_department,
    create_department_with_staff, create_department_with_staff_unit, department_is_company_root,
    hire_person, hire_person_authorized, is_ceo, move_department_members, offboard_person,
    pause_department, prepare_ceo_only, reactivate_executive_root, recall_person,
    remove_department_tree, reparent_department, replace_head_and_offboard, resume_department,
    resume_departments, shutdown_person, start_person, transfer_person, validate_new_person_seed,
    wake_person, AppointOutcome, AppointRefusal, BenchLifecycleOutcome, BenchOutcome, BenchRefusal,
    CreateDepartmentOutcome, CreateDepartmentRefusal, DepartmentCreateUnit, DepartmentStaffSeed,
    DirectOutcome, HeadDecision, HeadIneligibility, HeadVacancy, HeadVacancyRefusal, HireOutcome,
    HireRefusal, NewPersonSeed, OffboardOutcome, OffboardRefusal, OwnedNewPersonSeed,
    PauseOutcome, PauseRefusal, RemoveDepartmentOutcome, ReparentOutcome, ReparentRefusal,
    RowError, SeedRejection, ShutdownKind, ShutdownOutcome, ShutdownRefusal, TransferOutcome,
    TransferRefusal, VacancyRefusal,
};
use chiefd_core::organization::{EmploymentState, PersonKind, UnitKind, UnitState};
use chiefd_core::rows::ledger::IDLE_AUTO_PARK_REASON;

fn some(s: &str) -> Option<String> {
    Some(s.to_string())
}

/// A company with a settings row and nothing else.
fn company() -> Company {
    let mut co = Company::new("acme");
    co.settings = Some(SettingsRow {
        display_slug: "acme".to_string(),
        settings: OrgSettings {
            launcher_root: None,
            supervision_interval_ms: 60000,
            acknowledgement_timeout_ms: 30000,
            acknowledgement_retry_limit: 3,
            replacement_limit: 3,
        },
    });
    co
}

fn dept(co: &mut Company, id: &str, parent: &str, name: &str, head: &str, ordinal: u64) {
    co.departments.put(
        id,
        DepartmentRow {
            parent_id: if parent.is_empty() { None } else { some(parent) },
            name: name.to_string(),
            purpose: String::new(),
            kind: if parent.is_empty() { UnitKind::Company } else { UnitKind::Department },
            transient: None,
            state: UnitState::Active,
            head_person_id: head.to_string(),
            ordinal,
            created_at: "t".to_string(),
            updated_at: "t".to_string(),
        },
    );
}

fn person(co: &mut Company, id: &str, kind: PersonKind, department: &str, ordinal: u64) {
    co.people.put(
        id,
        PersonRow {
            name: id.to_string(),
            title: "title".to_string(),
            mandate: "mandate".to_string(),
            kind,
            employment_state: EmploymentState::Active,
            department_id: department.to_string(),
            activation: "resident".to_string(),
            tools: Vec::new(),
            prompts: Vec::new(),
            ordinal,
            created_at: "t".to_string(),
            updated_at: "t".to_string(),
        },
    );
}

/// The executive root headed by `ada`, the office of the CEO headed by `cos`,
/// and engineering headed by `bo`.
fn open() -> Company {
    let mut co = company();
    dept(&mut co, "executive", "", "Executive", "ada", 0);
    dept(&mut co, "office-of-the-ceo", "executive", "Office of the CEO", "cos", 1);
    dept(&mut co, "eng", "executive", "Engineering", "bo", 2);
    person(&mut co, "ada", PersonKind::Executive, "executive", 0);
    person(&mut co, "cos", PersonKind::Head, "office-of-the-ceo", 1);
    person(&mut co, "bo", PersonKind::Worker, "eng", 2);
    co
}

fn person_mut<'a>(co: &'a mut Company, id: &str) -> &'a mut PersonRow {
    let i = co.people.find(id).expect("person");
    &mut co.people.values[i]
}

fn dept_mut<'a>(co: &'a mut Company, id: &str) -> &'a mut DepartmentRow {
    let i = co.departments.find(id).expect("department");
    &mut co.departments.values[i]
}

fn transition_mut<'a>(co: &'a mut Company, id: &str) -> &'a mut TransitionRow {
    let i = co.transitions.find(id).expect("transition");
    &mut co.transitions.values[i]
}

fn activity_mut<'a>(co: &'a mut Company, id: &str) -> &'a mut ActivityRow {
    let i = co.activity.find(id).expect("activity");
    &mut co.activity.values[i]
}

fn employ(co: &mut Company, id: &str, state: EmploymentState) {
    person_mut(co, id).employment_state = state;
}

fn pause_row(co: &mut Company, id: &str) {
    dept_mut(co, id).state = UnitState::Paused;
}

fn fence(co: &mut Company, id: &str) {
    co.fences.put(id, Fence {});
}

fn transition_row(
    co: &mut Company,
    id: &str,
    person: &str,
    action: TransitionAction,
    status: TransitionStatus,
) {
    co.transitions.put(
        id,
        TransitionRow {
            person_id: person.to_string(),
            action,
            status,
            intent_id: None,
            reason: String::new(),
            placement_department_id: None,
            requested_at: "t0".to_string(),
            handoff_deadline_at: None,
            applied_at: None,
            cancelled_at: None,
            abandoned_at: None,
        },
    );
}

fn activity_row(co: &mut Company, person: &str, desired: bool, pointer: Option<&str>) {
    co.activity.put(
        person,
        ActivityRow {
            last_desired_active: desired,
            last_operational: false,
            last_department_id: None,
            last_employment_state: None,
            agent_quiet_at: None,
            idle_since: None,
            agent_active_at: None,
            operator_wake_at: None,
            active_transition_id: pointer.map(|p| p.to_string()),
            updated_at: "t".to_string(),
        },
    );
}

/// One event already in the feed.
fn prior_event(co: &mut Company) {
    co.events.push(EventRow {
        entity: Entity::Person,
        entity_id: "x".to_string(),
        op: EventOp::Upsert,
        at: "t".to_string(),
        actor: String::new(),
    });
}

fn person_row<'a>(co: &'a Company, id: &str) -> &'a PersonRow {
    co.people.get(id).expect("person")
}

fn home(co: &Company, id: &str) -> String {
    person_row(co, id).department_id.clone()
}

fn employment(co: &Company, id: &str) -> &'static str {
    person_row(co, id).employment_state.as_str()
}

fn kind(co: &Company, id: &str) -> &'static str {
    person_row(co, id).kind.as_str()
}

fn dept_row<'a>(co: &'a Company, id: &str) -> &'a DepartmentRow {
    co.departments.get(id).expect("department")
}

fn head_of(co: &Company, id: &str) -> Option<String> {
    co.departments.get(id).map(|row| row.head_person_id.clone())
}

fn state_of(co: &Company, id: &str) -> &'static str {
    dept_row(co, id).state.as_str()
}

fn transition<'a>(co: &'a Company, id: &str) -> &'a TransitionRow {
    co.transitions.get(id).expect("transition")
}

fn transitions_of<'a>(co: &'a Company, person: &str) -> Vec<&'a TransitionRow> {
    co.transitions.values.iter().filter(|t| t.person_id == person).collect()
}

fn desired(co: &Company, person: &str) -> Option<i64> {
    co.activity.get(person).map(|row| if row.last_desired_active { 1 } else { 0 })
}

fn pointer(co: &Company, person: &str) -> Option<String> {
    co.activity.get(person).expect("activity").active_transition_id.clone()
}

/// The quiet, idle and active clocks of somebody.
fn clocks(co: &Company, person: &str) -> (Option<String>, Option<String>, Option<String>) {
    let row = co.activity.get(person).expect("activity");
    (row.agent_quiet_at.clone(), row.idle_since.clone(), row.agent_active_at.clone())
}

fn fenced(co: &Company) -> Vec<String> {
    co.fences.list()
}

/// What the staffing history says of somebody: action, from, to, reason.
fn staffing(co: &Company, person: &str) -> Vec<(String, Option<String>, Option<String>, String)> {
    co.staffing
        .iter()
        .filter(|e| e.person_id == person)
        .map(|e| {
            (
                e.action.as_str().to_string(),
                e.from_department_id.clone(),
                e.to_department_id.clone(),
                e.reason.clone(),
            )
        })
        .collect()
}

fn actions(co: &Company, person: &str) -> Vec<String> {
    staffing(co, person).into_iter().map(|(action, ..)| action).collect()
}

/// The feed: sequence, entity, entity id, op.
fn feed(co: &Company) -> Vec<(i64, String, String, String)> {
    co.events
        .iter()
        .enumerate()
        .map(|(i, e)| {
            (
                (co.event_base + i as u64 + 1) as i64,
                e.entity.name().to_string(),
                e.entity_id.clone(),
                e.op.as_str().to_string(),
            )
        })
        .collect()
}

fn dept_ids(co: &Company) -> Vec<String> {
    let mut rows: Vec<(u64, String)> = co
        .departments
        .keys
        .iter()
        .zip(co.departments.values.iter())
        .map(|(id, row)| (row.ordinal, id.clone()))
        .collect();
    rows.sort();
    rows.into_iter().map(|(_, id)| id).collect()
}

fn people_ids(co: &Company) -> Vec<String> {
    co.roster()
}

fn dept_ordinals(co: &Company) -> Vec<i64> {
    let mut v: Vec<i64> = co.departments.values.iter().map(|r| r.ordinal as i64).collect();
    v.sort();
    v
}

fn people_ordinals(co: &Company) -> Vec<i64> {
    let mut v: Vec<i64> = co.people.values.iter().map(|r| r.ordinal as i64).collect();
    v.sort();
    v
}

fn is_gapless_bijection(ordinals: &[i64]) -> bool {
    ordinals.iter().enumerate().all(|(i, o)| *o == i as i64)
}

/// A head for every unit, who is there, employed, at home in it and in one
/// headship; a unit for everybody; every parent there; the places without a
/// gap.
fn assert_chart_valid(co: &Company) {
    for (id, row) in co.departments.keys.iter().zip(co.departments.values.iter()) {
        let head = co.people.get(&row.head_person_id).expect("a head who is there");
        assert_eq!(&head.department_id, id, "a head is at home in the unit they head");
        assert_ne!(head.employment_state, EmploymentState::Departed);
        assert_ne!(head.kind, PersonKind::Worker, "a worker cannot head a department");
        match &row.parent_id {
            Some(parent) => assert!(co.departments.has(parent), "a parent that is there"),
            None => assert_eq!(id, "executive"),
        }
    }
    for (id, row) in co.people.keys.iter().zip(co.people.values.iter()) {
        assert!(co.departments.has(&row.department_id), "{id} has a unit");
        let heads = co.departments.values.iter().filter(|d| &d.head_person_id == id).count();
        match row.kind {
            PersonKind::Worker => assert_eq!(heads, 0),
            _ => assert_eq!(heads, 1, "{id} heads exactly one unit"),
        }
    }
    assert!(is_gapless_bijection(&dept_ordinals(co)));
    assert!(is_gapless_bijection(&people_ordinals(co)));
}

const AT: &str = "2026-08-13T00:00:00.000Z";

/// Engineering, headed by `emery`, with `quinn` who holds a shell.
fn open_h2() -> Company {
    let mut co = Company::new("acme");
    dept(&mut co, "executive", "", "Executive", "chief", 0);
    dept(&mut co, "eng", "executive", "Engineering", "emery", 1);
    person(&mut co, "chief", PersonKind::Executive, "executive", 0);
    person(&mut co, "emery", PersonKind::Head, "eng", 1);
    person(&mut co, "quinn", PersonKind::Worker, "eng", 2);
    person_mut(&mut co, "quinn").tools = vec!["bash".to_string(), "read".to_string()];
    co
}

/// A chief of staff alone in the unit they head, and a second unit with
/// somebody to hand over to and somebody departed.
fn open_vacancy() -> Company {
    let mut co = company();
    dept(&mut co, "executive", "", "Executive", "chief", 0);
    dept(&mut co, "office-of-the-ceo", "executive", "Office of the CEO", "cos", 1);
    dept(&mut co, "eng", "executive", "Engineering", "emery", 2);
    person(&mut co, "chief", PersonKind::Executive, "executive", 0);
    person(&mut co, "cos", PersonKind::Head, "office-of-the-ceo", 1);
    person(&mut co, "emery", PersonKind::Head, "eng", 2);
    person(&mut co, "quinn", PersonKind::Worker, "eng", 3);
    person(&mut co, "gone", PersonKind::Worker, "eng", 4);
    employ(&mut co, "gone", EmploymentState::Departed);
    co
}

fn create_product(
    co: &mut Company,
    head: &str,
    vacates: Option<&HeadVacancy>,
    reason: &str,
) -> CreateDepartmentOutcome {
    create_department_with_staff_unit(
        co,
        "product",
        "executive",
        "Product",
        "Ship product",
        &HeadDecision::AppointExisting { person_id: head.into() },
        &[],
        &DepartmentCreateUnit::Department,
        vacates,
        Some("chief"),
        reason,
        AT,
        "chief",
    )
    .unwrap()
}

fn vacancy_of(out: &CreateDepartmentOutcome) -> &HeadVacancyRefusal {
    let CreateDepartmentOutcome::Refused { reason: CreateDepartmentRefusal::HeadVacancy(vacancy) } =
        out
    else {
        panic!("expected a vacancy refusal, got {out:?}");
    };
    vacancy
}

#[test]
fn a_last_member_heads_a_new_department_and_the_emptied_one_dissolves() {
    let mut co = open_vacancy();
    let out = create_product(&mut co, "cos", Some(&HeadVacancy::Dissolve), "cos takes product");
    assert!(matches!(out, CreateDepartmentOutcome::Applied { .. }), "{out:?}");
    assert_eq!(head_of(&co, "product").as_deref(), Some("cos"));
    assert_eq!(
        head_of(&co, "office-of-the-ceo"),
        None,
        "the emptied department must be gone, not headless"
    );
    assert_eq!(home(&co, "cos"), "product");
    assert_eq!(kind(&co, "cos"), "head");
    assert_chart_valid(&co);
}

#[test]
fn a_head_with_a_successor_hands_over_and_the_department_survives() {
    let mut co = open_vacancy();
    let out = create_product(
        &mut co,
        "emery",
        Some(&HeadVacancy::HandOver { successor_person_id: "quinn".into() }),
        "emery takes product",
    );
    assert!(matches!(out, CreateDepartmentOutcome::Applied { .. }), "{out:?}");
    assert_eq!(head_of(&co, "product").as_deref(), Some("emery"));
    assert_eq!(head_of(&co, "eng").as_deref(), Some("quinn"), "eng keeps running");
    assert_eq!(
        kind(&co, "quinn"),
        "head",
        "the successor is a head now, not a worker heading something"
    );
    assert_chart_valid(&co);
}

#[test]
fn no_decision_refuses_and_names_the_department_and_its_successors() {
    let mut co = open_vacancy();
    let before = co.clone();
    let out = create_product(&mut co, "emery", None, "emery takes product");
    let vacancy = vacancy_of(&out);
    assert_eq!(vacancy.code(), "vacancy-decision-required");
    let HeadVacancyRefusal::Required { department_id, eligible_successor_ids, .. } = vacancy else {
        panic!("expected the required arm, got {vacancy:?}");
    };
    assert_eq!(department_id, "eng");
    assert_eq!(
        eligible_successor_ids,
        &vec!["quinn".to_string()],
        "a departed member is not a successor"
    );
    assert!(vacancy.detail().contains("quinn"), "{}", vacancy.detail());
    assert_eq!(head_of(&co, "eng").as_deref(), Some("emery"));
    assert!(!co.departments.has("product"));
    assert_eq!(co, before);
}

#[test]
fn dissolve_is_refused_while_the_department_still_has_members() {
    let mut co = open_vacancy();
    let out = create_product(&mut co, "emery", Some(&HeadVacancy::Dissolve), "emery takes product");
    let vacancy = vacancy_of(&out);
    assert_eq!(vacancy.code(), "vacancy-decision-invalid");
    assert!(vacancy.detail().contains("quinn"), "{}", vacancy.detail());
    assert_eq!(head_of(&co, "eng").as_deref(), Some("emery"), "zero writes");
}

#[test]
fn dissolve_is_refused_while_the_department_still_has_children() {
    let mut co = open_vacancy();
    dept(&mut co, "ops", "office-of-the-ceo", "Ops", "opie", 3);
    person(&mut co, "opie", PersonKind::Head, "ops", 5);
    let out = create_product(&mut co, "cos", Some(&HeadVacancy::Dissolve), "cos takes product");
    let vacancy = vacancy_of(&out);
    assert_eq!(vacancy.code(), "vacancy-decision-invalid");
    assert!(vacancy.detail().contains("ops"), "{}", vacancy.detail());
    assert!(head_of(&co, "office-of-the-ceo").is_some(), "zero writes");
}

#[test]
fn hand_over_to_a_non_member_is_refused() {
    let mut co = open_vacancy();
    let out = create_product(
        &mut co,
        "emery",
        Some(&HeadVacancy::HandOver { successor_person_id: "cos".into() }),
        "emery takes product",
    );
    let vacancy = vacancy_of(&out);
    assert_eq!(vacancy.code(), "vacancy-decision-invalid");
    assert!(vacancy.detail().contains("cos"), "{}", vacancy.detail());
}

#[test]
fn hand_over_to_a_departed_member_is_refused() {
    let mut co = open_vacancy();
    let out = create_product(
        &mut co,
        "emery",
        Some(&HeadVacancy::HandOver { successor_person_id: "gone".into() }),
        "emery takes product",
    );
    assert!(
        matches!(
            &out,
            CreateDepartmentOutcome::Refused { reason: CreateDepartmentRefusal::HeadVacancy(_) }
        ),
        "{out:?}"
    );
}

#[test]
fn a_decision_for_somebody_who_heads_nothing_is_refused() {
    let mut co = open_vacancy();
    let out = create_product(&mut co, "quinn", Some(&HeadVacancy::Dissolve), "quinn takes product");
    let vacancy = vacancy_of(&out);
    assert_eq!(vacancy.code(), "vacancy-decision-invalid");
    assert!(vacancy.detail().contains("nothing to vacate"), "{}", vacancy.detail());
}

#[test]
fn the_old_headship_ends_before_the_new_row_names_the_same_head() {
    let mut co = open_vacancy();
    create_product(&mut co, "cos", Some(&HeadVacancy::Dissolve), "cos takes product");
    let headed = co.departments.values.iter().filter(|d| d.head_person_id == "cos").count();
    assert_eq!(headed, 1, "exactly one department may name a person as its head");
}

#[test]
fn the_ceo_is_still_refused_with_or_without_a_decision() {
    for decision in [None, Some(&HeadVacancy::Dissolve)] {
        let mut co = open_vacancy();
        let out = create_product(&mut co, "chief", decision, "ceo takes product");
        let CreateDepartmentOutcome::Refused { reason } = &out else {
            panic!("the CEO must never be appointed elsewhere: {out:?}");
        };
        assert_eq!(reason.code(), "exec-root-protected", "{reason:?}");
    }
}

#[test]
fn transferring_a_last_member_head_dissolves_the_department_they_leave() {
    let mut co = open_vacancy();
    let out = transfer_person(
        &mut co,
        "cos",
        "eng",
        "person-transfer:cos",
        AT,
        "chief",
        Some(&HeadVacancy::Dissolve),
    )
    .unwrap();
    assert_eq!(out, TransferOutcome::Applied { moved: vec!["cos".into()] });
    assert_eq!(head_of(&co, "office-of-the-ceo"), None);
    assert_eq!(home(&co, "cos"), "eng");
    assert_eq!(kind(&co, "cos"), "worker", "somebody who heads nothing is a worker");
    assert_chart_valid(&co);
}

#[test]
fn dissolving_a_department_re_homes_its_departed_residents_to_the_parent() {
    let mut co = open_vacancy();
    transfer_person(&mut co, "quinn", "executive", "person-transfer:quinn", AT, "chief", None)
        .unwrap();
    assert_eq!(home(&co, "gone"), "eng");
    let out = transfer_person(
        &mut co,
        "emery",
        "executive",
        "person-transfer:emery",
        AT,
        "chief",
        Some(&HeadVacancy::Dissolve),
    )
    .unwrap();
    assert_eq!(out, TransferOutcome::Applied { moved: vec!["emery".into()] });
    assert!(!co.departments.has("eng"), "the department dissolved");
    assert_eq!(home(&co, "gone"), "executive", "the departed resident re-homed to the parent");
    assert_eq!(employment(&co, "gone"), "departed", "and is still departed, only their home moved");
    assert_eq!(actions(&co, "gone"), vec!["transferred"]);
    assert_eq!(actions(&co, "emery"), vec!["transferred", "stepped-down"]);
    assert_chart_valid(&co);
}

#[test]
fn the_still_has_members_refusal_names_active_people_and_never_departed_ones() {
    let mut co = open_vacancy();
    let out = transfer_person(
        &mut co,
        "emery",
        "executive",
        "person-transfer:emery",
        AT,
        "chief",
        Some(&HeadVacancy::Dissolve),
    )
    .unwrap();
    let TransferOutcome::Refused { reason: TransferRefusal::HeadVacancy(vacancy) } = &out else {
        panic!("expected a vacancy refusal, got {out:?}");
    };
    assert!(vacancy.detail().contains("quinn"), "{}", vacancy.detail());
    assert!(
        !vacancy.detail().contains("gone"),
        "a departed resident must not be named as a blocker: {}",
        vacancy.detail()
    );
}

#[test]
fn transferring_a_head_with_no_decision_refuses_with_the_shared_refusal() {
    let mut co = open_vacancy();
    let out =
        transfer_person(&mut co, "cos", "eng", "person-transfer:cos", AT, "chief", None).unwrap();
    let TransferOutcome::Refused { reason: TransferRefusal::HeadVacancy(vacancy) } = &out else {
        panic!("expected a vacancy refusal, got {out:?}");
    };
    assert_eq!(vacancy.code(), "vacancy-decision-required");
    assert!(vacancy.detail().contains("office-of-the-ceo"), "{}", vacancy.detail());
    assert_eq!(head_of(&co, "office-of-the-ceo").as_deref(), Some("cos"), "zero writes");
}

#[test]
fn the_batch_move_still_refuses_a_head_and_names_the_single_transfer() {
    let mut co = open_vacancy();
    let out = move_department_members(
        &mut co,
        "eng",
        "office-of-the-ceo",
        &["emery".to_string()],
        "reorg",
        AT,
        "chief",
    )
    .unwrap();
    let TransferOutcome::Refused { reason } = &out else {
        panic!("a head named in a batch must be refused: {out:?}");
    };
    assert_eq!(reason.code(), "head-needs-successor");
    assert!(reason.detail().contains("single transfer"), "{}", reason.detail());
}

#[test]
fn appoint_head_flips_kinds_keeps_bash_and_repoints_the_department() {
    let mut co = open_h2();
    let out = appoint_department_head(&mut co, "eng", "quinn", None, "t1", "operator").unwrap();
    assert_eq!(out, AppointOutcome::Applied);
    assert_eq!(head_of(&co, "eng").as_deref(), Some("quinn"));
    assert_eq!(kind(&co, "quinn"), "head");
    assert_eq!(kind(&co, "emery"), "worker");
    assert!(
        person_row(&co, "quinn").tools.iter().any(|t| t == "bash"),
        "appointment must not strip a new head's bash"
    );
    let history: Vec<(String, String)> = co
        .staffing
        .iter()
        .map(|e| (e.person_id.clone(), e.action.as_str().to_string()))
        .collect();
    assert_eq!(
        history,
        vec![
            ("quinn".to_string(), "appointed-head".to_string()),
            ("emery".to_string(), "stepped-down".to_string()),
        ]
    );
    let entities: Vec<(String, String)> =
        feed(&co).into_iter().map(|(_, e, id, _)| (e, id)).collect();
    assert_eq!(
        entities.iter().filter(|(e, id)| e == "person" && id == "quinn").count(),
        1,
        "one deduped person event for quinn"
    );
    assert!(entities.contains(&("department".to_string(), "eng".to_string())));
}

#[test]
fn appoint_head_r4_demotes_outgoing_to_the_replacers_department() {
    let mut co = open_h2();
    appoint_department_head(&mut co, "eng", "quinn", Some("executive"), "t1", "operator").unwrap();
    assert_eq!(home(&co, "emery"), "executive");
    let line = "appointed quinn to head eng".to_string();
    assert_eq!(
        staffing(&co, "emery"),
        vec![
            ("stepped-down".to_string(), some("eng"), some("executive"), line.clone()),
            ("transferred".to_string(), some("eng"), some("executive"), line),
        ]
    );
}

#[test]
fn replace_head_and_offboard_supersedes_a_stranded_park_before_minting_its_handoff() {
    let mut co = open_h2();
    let park = "transition:7:emery:park";
    transition_row(&mut co, park, "emery", TransitionAction::Park, TransitionStatus::AwaitingHandoff);
    let row = transition_mut(&mut co, park);
    row.intent_id = some("unit-stop:eng:direct");
    row.reason = "Record a handoff before park.".to_string();
    row.handoff_deadline_at = some("t9");
    row.placement_department_id = some("eng");
    activity_row(&mut co, "emery", false, Some(park));

    let out =
        replace_head_and_offboard(&mut co, "emery", "quinn", "2026-08-02T00:00:00.000Z", "operator")
            .unwrap();
    assert_eq!(out, DirectOutcome::Applied);

    assert_eq!(transition(&co, park).status.as_str(), "cancelled");
    assert_eq!(transition(&co, park).reason, "superseded-by-offboard:emery");

    let handoff_id = co.transitions.keys.iter().find(|id| *id != park).unwrap().clone();
    let handoff = transition(&co, &handoff_id);
    assert_eq!(handoff.person_id, "emery");
    assert_eq!(handoff.action.as_str(), "offboard");
    assert_eq!(
        handoff.status.as_str(),
        "awaiting_handoff",
        "the newly inserted handoff must not self-cancel"
    );
    assert_eq!(
        pointer(&co, "emery"),
        Some(handoff_id),
        "desired-off points at the live replacement handoff"
    );
    let open = transitions_of(&co, "emery").iter().filter(|t| t.status.is_open()).count();
    assert_eq!(open, 1, "one-open-transition invariant survives the atomic reorg");
    assert_eq!(
        head_of(&co, "eng").as_deref(),
        Some("quinn"),
        "the successor is appointed atomically"
    );
    assert_eq!(employment(&co, "emery"), "departed", "the outgoing head is offboarded atomically");
}

#[test]
fn appoint_head_refusals() {
    let mut co = open_h2();
    let mut refuse = |dept: &str, who: &str| match appoint_department_head(
        &mut co, dept, who, None, "t1", "op",
    )
    .unwrap()
    {
        AppointOutcome::Refused { reason } => reason.code().to_string(),
        other => panic!("expected refusal, got {other:?}"),
    };
    assert_eq!(refuse("executive", "chief"), "root-head-not-reassignable");
    assert_eq!(refuse("nope", "quinn"), "unknown-department");
    assert_eq!(refuse("eng", "chief"), "not-a-member");
}

#[test]
fn appoint_head_refuses_reappointing_the_sitting_head() {
    let mut co = open_h2();
    match appoint_department_head(&mut co, "eng", "emery", None, "t1", "operator").unwrap() {
        AppointOutcome::Refused { reason } => assert_eq!(reason.code(), "already-sitting-head"),
        other => panic!("expected already-sitting-head, got {other:?}"),
    }
    assert_eq!(head_of(&co, "eng").as_deref(), Some("emery"));
    assert_eq!(kind(&co, "emery"), "head");
}

#[test]
fn appoint_head_refuses_the_departed_the_stranger_and_whoever_heads_elsewhere() {
    let mut co = open_h2();
    dept(&mut co, "ops", "executive", "Ops", "quinn", 2);
    assert_eq!(
        appoint_department_head(&mut co, "eng", "quinn", None, "t1", "op").unwrap(),
        AppointOutcome::Refused { reason: AppointRefusal::AlreadyHeadsElsewhere }
    );
    employ(&mut co, "quinn", EmploymentState::Departed);
    assert_eq!(
        appoint_department_head(&mut co, "eng", "quinn", None, "t1", "op").unwrap(),
        AppointOutcome::Refused { reason: AppointRefusal::DepartedSuccessor }
    );
    assert_eq!(
        appoint_department_head(&mut co, "eng", "nobody", None, "t1", "op").unwrap(),
        AppointOutcome::Refused { reason: AppointRefusal::NotAMember }
    );
}

#[test]
fn a_demotion_into_a_unit_that_is_not_there_is_an_error_and_changes_nothing() {
    let mut co = open_h2();
    let before = co.clone();
    assert_eq!(
        appoint_department_head(&mut co, "eng", "quinn", Some("nowhere"), "t1", "op"),
        Err(RowError::Constraint)
    );
    assert_eq!(co, before);
}

#[test]
fn a_create_beneath_the_unit_that_dissolves_is_an_error_and_changes_nothing() {
    let mut co = open_vacancy();
    let before = co.clone();
    let out = create_department_with_staff_unit(
        &mut co,
        "product",
        "office-of-the-ceo",
        "Product",
        "Ship product",
        &HeadDecision::AppointExisting { person_id: "cos".into() },
        &[],
        &DepartmentCreateUnit::Department,
        Some(&HeadVacancy::Dissolve),
        Some("chief"),
        "cos takes product",
        AT,
        "chief",
    );
    assert_eq!(out, Err(RowError::Constraint));
    assert_eq!(co, before);
}

#[test]
fn a_transfer_into_the_unit_that_dissolves_is_an_error_and_changes_nothing() {
    let mut co = open_vacancy();
    let before = co.clone();
    let out = transfer_person(
        &mut co,
        "cos",
        "office-of-the-ceo",
        "x",
        AT,
        "chief",
        Some(&HeadVacancy::Dissolve),
    );
    assert_eq!(out, Err(RowError::Constraint));
    assert_eq!(co, before);
}

#[test]
fn a_new_head_whose_id_a_unit_already_names_is_an_error_and_changes_nothing() {
    let mut co = open_vacancy();
    dept(&mut co, "ghosts", "executive", "Ghosts", "nora", 3);
    let before = co.clone();
    let out = create_department(
        &mut co,
        "product",
        "executive",
        "Product",
        "Ship product",
        &HeadDecision::HireNew {
            person_id: "nora".into(),
            seed: Box::new(OwnedNewPersonSeed {
                name: "Nora".into(),
                title: "Head".into(),
                mandate: "lead".into(),
                kind: PersonKind::Head,
                employment_state: EmploymentState::Active,
                activation: "resident".into(),
                tools: Vec::new(),
                prompts: Vec::new(),
            }),
        },
        "chief",
        "new",
        AT,
        "chief",
    );
    assert_eq!(out, Err(RowError::Constraint));
    assert_eq!(co, before);
}

#[test]
fn replacing_a_head_is_refused_for_the_wrong_people() {
    let mut co = open_vacancy();
    let mut code = |head: &str, successor: &str| match replace_head_and_offboard(
        &mut co, head, successor, AT, "operator",
    )
    .unwrap()
    {
        DirectOutcome::Refused { code, .. } => code,
        other => panic!("expected refusal, got {other:?}"),
    };
    assert_eq!(code("emery", "emery"), "same-successor");
    assert_eq!(code("chief", "quinn"), "exec-root-protected");
    assert_eq!(code("quinn", "emery"), "not-a-department-head");
    assert_eq!(code("emery", "nobody"), "unknown-successor");
    assert_eq!(code("emery", "gone"), "departed-successor");
    assert_eq!(code("emery", "cos"), "not-a-member");
}

#[test]
fn replacing_a_head_feeds_one_event_to_a_thing_in_order() {
    let mut co = open_h2();
    replace_head_and_offboard(&mut co, "emery", "quinn", "t1", "operator").unwrap();
    let rows: Vec<(String, String)> = feed(&co).into_iter().map(|(_, e, id, _)| (e, id)).collect();
    assert_eq!(
        rows,
        vec![
            ("department".to_string(), "eng".to_string()),
            ("person".to_string(), "quinn".to_string()),
            ("person".to_string(), "emery".to_string()),
            ("transition".to_string(), "transition:1:emery:offboard".to_string()),
            ("person-activity".to_string(), "emery".to_string()),
        ]
    );
    assert_eq!(actions(&co, "quinn"), vec!["appointed-head"]);
    assert_eq!(actions(&co, "emery"), vec!["stepped-down", "offboarded"]);
    assert_eq!(staffing(&co, "emery")[0].3, "head replaced by operator");
}
