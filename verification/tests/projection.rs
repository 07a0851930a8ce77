#![allow(dead_code, unused_imports)]

use chiefd_core::company::{
    ActivityRow, Company, DepartmentRow, Entity, EventOp, EventRow, Fence, OrgSettings, PersonRow,
    SettingsRow, StaffingEntry, TransitionAction, TransitionRow, TransitionStatus,
};
use chiefd_core::org_ops::{
    appoint_department_head, bench_person, bench_person_lifecycle, create_department,
    create_department_with_staff, create_department_with_staff_unit, department_is_company_root,
    hire_person, hire_person_authorized, is_ceo, move_department_members, offboard_person,
    pause_department, prepare_ceo_only, reactivate_executive_root, recall_person,
    remove_department_tree, reparent_department, replace_head_and_offboard, resume_department,
    resume_departments, shutdown_person, start_person, transfer_person, validate_new_person_seed,
    wake_person, AppointOutcome, AppointRefusal, BenchLifecycleOutcome, BenchOutcome, BenchRefusal,
    CreateDepartmentOutcome, CreateDepartmentRefusal, DepartmentCreateUnit, DepartmentStaffSeed,
    DirectOutcome, HeadDecision, HeadIneligibility, HeadVacancy, HeadVacancyRefusal, HireOutcome,
    HireRefusal, NewPersonSeed, OffboardOutcome, OffboardRefusal, OwnedNewPersonSeed,
    PauseOutcome, PauseRefusal, RemoveDepartmentOutcome, ReparentOutcome, ReparentRefusal,
    RowError, SeedRejection, ShutdownKind, ShutdownOutcome, ShutdownRefusal, TransferOutcome,
    TransferRefusal, VacancyRefusal,
};
use chiefd_core::organization::{EmploymentState, PersonKind, UnitKind, UnitState};
use chiefd_core::rows::ledger::IDLE_AUTO_PARK_REASON;

fn some(s: &str) -> Option<String> {
    Some(s.to_string())
}

/// A company with a settings row and nothing else.
fn company() -> Company {
    let mut co = Company::new("acme");
    co.settings = Some(SettingsRow {
        display_slug: "acme".to_string(),
        settings: OrgSettings {
            launcher_root: None,
            supervision_interval_ms: 60000,
            acknowledgement_timeout_ms: 30000,
            acknowledgement_retry_limit: 3,
            replacement_limit: 3,
        },
    });
    co
}

fn dept(co: &mut Company, id: &str, parent: &str, name: &str, head: &str, ordinal: u64) {
    co.departments.put(
        id,
        DepartmentRow {
            parent_id: if parent.is_empty() { None } else { some(parent) },
            name: name.to_string(),
            purpose: String::new(),
            kind: if parent.is_empty() { UnitKind::Company } else { UnitKind::Department },
            transient: None,
            state: UnitState::Active,
            head_person_id: head.to_string(),
            ordinal,
            created_at: "t".to_string(),
            updated_at: "t".to_string(),
        },
    );
}

fn person(co: &mut Company, id: &str, kind: PersonKind, department: &str, ordinal: u64) {
    co.people.put(
        id,
        PersonRow {
            name: id.to_string(),
            title: "title".to_string(),
            mandate: "mandate".to_string(),
            kind,
            employment_state: EmploymentState::Active,
            department_id: department.to_string(),
            activation: "resident".to_string(),
            tools: Vec::new(),
            prompts: Vec::new(),
            ordinal,
            created_at: "t".to_string(),
            updated_at: "t".to_string(),
        },
    );
}

/// The executive root headed by `ada`, the office of the CEO headed by `cos`,
/// and engineering headed by `bo`.
fn open() -> Company {
    let mut co = company();
    dept(&mut co, "executive", "", "Executive", "ada", 0);
    dept(&mut co, "office-of-the-ceo", "executive", "Office of the CEO", "cos", 1);
    dept(&mut co, "eng", "executive", "Engineering", "bo", 2);
    person(&mut co, "ada", PersonKind::Executive, "executive", 0);
    person(&mut co, "cos", PersonKind::Head, "office-of-the-ceo", 1);
    person(&mut co, "bo", PersonKind::Worker, "eng", 2);
    co
}

fn person_mut<'a>(co: &'a mut Company, id: &str) -> &'a mut PersonRow {
    let i = co.people.find(id).expect("person");
    &mut co.people.values[i]
}

fn dept_mut<'a>(co: &'a mut Company, id: &str) -> &'a mut DepartmentRow {
    let i = co.departments.find(id).expect("department");
    &mut co.departments.values[i]
}

fn transition_mut<'a>(co: &'a mut Company, id: &str) -> &'a mut TransitionRow {
    let i = co.transitions.find(id).expect("transition");
    &mut co.transitions.values[i]
}

fn activity_mut<'a>(co: &'a mut Company, id: &str) -> &'a mut ActivityRow {
    let i = co.activity.find(id).expect("activity");
    &mut co.activity.values[i]
}

fn employ(co: &mut Company, id: &str, state: EmploymentState) {
    person_mut(co, id).employment_state = state;
}

fn pause_row(co: &mut Company, id: &str) {
    dept_mut(co, id).state = UnitState::Paused;
}

fn fence(co: &mut Company, id: &str) {
    co.fences.put(id, Fence {});
}

fn transition_row(
    co: &mut Company,
    id: &str,
    person: &str,
    action: TransitionAction,
    status: TransitionStatus,
) {
    co.transitions.put(
        id,
        TransitionRow {
            person_id: person.to_string(),
            action,
            status,
            intent_id: None,
            reason: String::new(),
            placement_department_id: None,
            requested_at: "t0".to_string(),
            handoff_deadline_at: None,
            applied_at: None,
            cancelled_at: None,
            abandoned_at: None,
        },
    );
}

fn activity_row(co: &mut Company, person: &str, desired: bool, pointer: Option<&str>) {
    co.activity.put(
        person,
        ActivityRow {
            last_desired_active: desired,
            last_operational: false,
            last_department_id: None,
            last_employment_state: None,
            agent_quiet_at: None,
            idle_since: None,
            agent_active_at: None,
            operator_wake_at: None,
            active_transition_id: pointer.map(|p| p.to_string()),
            updated_at: "t".to_string(),
        },
    );
}

/// One event already in the feed.
fn prior_event(co: &mut Company) {
    co.events.push(EventRow {
        entity: Entity::Person,
        entity_id: "x".to_string(),
        op: EventOp::Upsert,
        at: "t".to_string(),
        actor: String::new(),
    });
}

fn person_row<'a>(co: &'a Company, id: &str) -> &'a PersonRow {
    co.people.get(id).expect("person")
}

fn home(co: &Company, id: &str) -> String {
    person_row(co, id).department_id.clone()
}

fn employment(co: &Company, id: &str) -> &'static str {
    person_row(co, id).employment_state.as_str()
}

fn kind(co: &Company, id: &str) -> &'static str {
    person_row(co, id).kind.as_str()
}

fn dept_row<'a>(co: &'a Company, id: &str) -> &'a DepartmentRow {
    co.departments.get(id).expect("department")
}

fn head_of(co: &Company, id: &str) -> Option<String> {
    co.departments.get(id).map(|row| row.head_person_id.clone())
}

fn state_of(co: &Company, id: &str) -> &'static str {
    dept_row(co, id).state.as_str()
}

fn transition<'a>(co: &'a Company, id: &str) -> &'a TransitionRow {
    co.transitions.get(id).expect("transition")
}

fn transitions_of<'a>(co: &'a Company, person: &str) -> Vec<&'a TransitionRow> {
    co.transitions.values.iter().filter(|t| t.person_id == person).collect()
}

fn desired(co: &Company, person: &str) -> Option<i64> {
    co.activity.get(person).map(|row| if row.last_desired_active { 1 } else { 0 })
}

fn pointer(co: &Company, person: &str) -> Option<String> {
    co.activity.get(person).expect("activity").active_transition_id.clone()
}

/// The quiet, idle and active clocks of somebody.
fn clocks(co: &Company, person: &str) -> (Option<String>, Option<String>, Option<String>) {
    let row = co.activity.get(person).expect("activity");
    (row.agent_quiet_at.clone(), row.idle_since.clone(), row.agent_active_at.clone())
}

fn fenced(co: &Company) -> Vec<String> {
    co.fences.list()
}

/// What the staffing history says of somebody: action, from, to, reason.
fn staffing(co: &Company, person: &str) -> Vec<(String, Option<String>, Option<String>, String)> {
    co.staffing
        .iter()
        .filter(|e| e.person_id == person)
        .map(|e| {
            (
                e.action.as_str().to_string(),
                e.from_department_id.clone(),
                e.to_department_id.clone(),
                e.reason.clone(),
            )
        })
        .collect()
}

fn actions(co: &Company, person: &str) -> Vec<String> {
    staffing(co, person).into_iter().map(|(action, ..)| action).collect()
}

/// The feed: sequence, entity, entity id, op.
fn feed(co: &Company) -> Vec<(i64, String, String, String)> {
    co.events
        .iter()
        .enumerate()
        .map(|(i, e)| {
            (
                (co.event_base + i as u64 + 1) as i64,
                e.entity.name().to_string(),
                e.entity_id.clone(),
                e.op.as_str().to_string(),
            )
        })
        .collect()
}

fn dept_ids(co: &Company) -> Vec<String> {
    let mut rows: Vec<(u64, String)> = co
        .departments
        .keys
        .iter()
        .zip(co.departments.values.iter())
        .map(|(id, row)| (row.ordinal, id.clone()))
        .collect();
    rows.sort();
    rows.into_iter().map(|(_, id)| id).collect()
}

fn people_ids(co: &Company) -> Vec<String> {
    co.roster()
}

fn dept_ordinals(co: &Company) -> Vec<i64> {
    let mut v: Vec<i64> = co.departments.values.iter().map(|r| r.ordinal as i64).collect();
    v.sort();
    v
}

fn people_ordinals(co: &Company) -> Vec<i64> {
    let mut v: Vec<i64> = co.people.values.iter().map(|r| r.ordinal as i64).collect();
    v.sort();
    v
}

fn is_gapless_bijection(ordinals: &[i64]) -> bool {
    ordinals.iter().enumerate().all(|(i, o)| *o == i as i64)
}

/// A head for every unit, who is there, employed, at home in it and in one
/// headship; a unit for everybody; every parent there; the places without a
/// gap.
fn assert_chart_valid(co: &Company) {
    for (id, row) in co.departments.keys.iter().zip(co.departments.values.iter()) {
        let head = co.people.get(&row.head_person_id).expect("a head who is there");
        assert_eq!(&head.department_id, id, "a head is at home in the unit they head");
        assert_ne!(head.employment_state, EmploymentState::Departed);
        assert_ne!(head.kind, PersonKind::Worker, "a worker cannot head a department");
        match &row.parent_id {
            Some(parent) => assert!(co.departments.has(parent), "a parent that is there"),
            None => assert_eq!(id, "executive"),
        }
    }
    for (id, row) in co.people.keys.iter().zip(co.people.values.iter()) {
        assert!(co.departments.has(&row.department_id), "{id} has a unit");
        let heads = co.departments.values.iter().filter(|d| &d.head_person_id == id).count();
        match row.kind {
            PersonKind::Worker => assert_eq!(heads, 0),
            _ => assert_eq!(heads, 1, "{id} heads exactly one unit"),
        }
    }
    assert!(is_gapless_bijection(&dept_ordinals(co)));
    assert!(is_gapless_bijection(&people_ordinals(co)));
}

use chiefd_core::org_projection::{
    apply_head_vacancy, check_department_create, check_head_vacancy, check_hire, empty_manifest,
    project_department_create, project_hire, DepartmentCreateProposal, HireProposal, OrgView,
};
use chiefd_core::organization::{
    ContractMetadata, DepartmentRecord, OpenFields, OrganizationManifest, PersonRecord,
};

const AT: &str = "2026-07-25T00:00:00.000Z";

fn unit(m: &mut OrganizationManifest, id: &str, parent: Option<&str>, head: &str) {
    m.departments.put(
        id,
        DepartmentRecord {
            id: id.to_string(),
            name: id.to_string(),
            purpose: "purpose".to_string(),
            kind: None,
            transient: None,
            parent_department_id: parent.map(|p| p.to_string()),
            head_person_id: head.to_string(),
            state: UnitState::Active,
            created_at: "t".to_string(),
            extra: OpenFields::new(),
        },
    );
    m.department_order.push(id.to_string());
}

fn member(m: &mut OrganizationManifest, id: &str, kind: PersonKind, unit: &str) {
    m.people.put(
        id,
        PersonRecord {
            id: id.to_string(),
            name: id.to_string(),
            title: "title".to_string(),
            mandate: "mandate".to_string(),
            kind,
            department_id: unit.to_string(),
            employment_state: EmploymentState::Active,
            activation: "resident".to_string(),
            tools: Vec::new(),
            prompts: Vec::new(),
            created_at: "t".to_string(),
            staffing_history: None,
            extra: OpenFields::new(),
        },
    );
    m.people_order.push(id.to_string());
}

/// The manifest of the usual company, and `nita`, a plain engineer.
fn manifest() -> OrganizationManifest {
    let mut m = empty_manifest("acme");
    unit(&mut m, "executive", None, "ada");
    unit(&mut m, "office-of-the-ceo", Some("executive"), "cos");
    unit(&mut m, "eng", Some("executive"), "bo");
    member(&mut m, "ada", PersonKind::Executive, "executive");
    member(&mut m, "cos", PersonKind::Head, "office-of-the-ceo");
    member(&mut m, "bo", PersonKind::Head, "eng");
    member(&mut m, "nita", PersonKind::Worker, "eng");
    m
}

fn rows() -> Company {
    let mut co = open();
    person_mut(&mut co, "bo").kind = PersonKind::Head;
    person(&mut co, "nita", PersonKind::Worker, "eng", 3);
    co
}

fn proposal<'a>(
    id: &'a str,
    head: &'a HeadDecision,
    staff: &'a [DepartmentStaffSeed],
    unit: &'a DepartmentCreateUnit,
    vacates: Option<&'a HeadVacancy>,
) -> DepartmentCreateProposal<'a> {
    DepartmentCreateProposal {
        department_id: id,
        parent_id: "executive",
        name: "Product",
        purpose: "ship",
        head,
        staff,
        unit,
        requester_person_id: Some("ada"),
        audit_reason: "why",
        at: AT,
        head_vacates: vacates,
    }
}

fn worker_seed<'a>() -> NewPersonSeed<'a> {
    NewPersonSeed {
        name: "Zoe",
        title: "Engineer",
        mandate: "build",
        kind: PersonKind::Worker,
        employment_state: EmploymentState::Active,
        activation: "on-demand",
        tools: &[],
        prompts: &[],
    }
}

fn appoint(id: &str) -> HeadDecision {
    HeadDecision::AppointExisting { person_id: id.to_string() }
}

/// Units, what they hang from and who heads them, of a manifest and of rows.
fn shape(m: &OrganizationManifest) -> Vec<(String, Option<String>, String)> {
    m.departments
        .keys
        .iter()
        .zip(m.departments.values.iter())
        .map(|(id, u)| (id.clone(), u.parent_department_id.clone(), u.head_person_id.clone()))
        .collect()
}

fn shape_of_rows(co: &Company) -> Vec<(String, Option<String>, String)> {
    co.departments
        .keys
        .iter()
        .zip(co.departments.values.iter())
        .map(|(id, u)| (id.clone(), u.parent_id.clone(), u.head_person_id.clone()))
        .collect()
}

fn homes(m: &OrganizationManifest) -> Vec<(String, PersonKind, String)> {
    m.people
        .keys
        .iter()
        .zip(m.people.values.iter())
        .map(|(id, p)| (id.clone(), p.kind, p.department_id.clone()))
        .collect()
}

fn homes_of_rows(co: &Company) -> Vec<(String, PersonKind, String)> {
    co.people
        .keys
        .iter()
        .zip(co.people.values.iter())
        .map(|(id, p)| (id.clone(), p.kind, p.department_id.clone()))
        .collect()
}

#[test]
fn an_empty_manifest_refuses_a_create_for_its_parent_and_a_hire_for_its_department() {
    let m = empty_manifest("acme");
    let head = appoint("bo");
    let p = proposal("product", &head, &[], &DepartmentCreateUnit::Department, None);
    assert_eq!(project_department_create(&m, &p).unwrap_err().code(), "unknown-parent");
    let seed = worker_seed();
    let h = HireProposal {
        person_id: "zoe",
        department_id: "eng",
        seed: &seed,
        requester_person_id: None,
        at: AT,
    };
    assert_eq!(project_hire(&m, &h).unwrap_err().code(), "unknown-department");
    assert_eq!((m.slug.as_str(), m.kind.as_str()), ("acme", "organization"));
    assert_eq!(m.root_department_id, "executive");
}

#[test]
fn a_projected_hire_adds_the_person_last_and_leaves_the_manifest_alone() {
    let m = manifest();
    let seed = worker_seed();
    let h = HireProposal {
        person_id: "zoe",
        department_id: "eng",
        seed: &seed,
        requester_person_id: Some("bo"),
        at: AT,
    };
    let projected = project_hire(&m, &h).unwrap();
    assert_eq!(projected.people_order.last().map(|id| id.as_str()), Some("zoe"));
    let zoe = projected.people.get("zoe").unwrap();
    assert_eq!((zoe.department_id.as_str(), zoe.activation.as_str()), ("eng", "on-demand"));
    assert_eq!((zoe.created_at.as_str(), projected.updated_at.as_str()), (AT, AT));
    assert!(!m.people.has("zoe"));

    let mut co = rows();
    hire_person(&mut co, "zoe", "eng", &seed, "bo", AT, "bo").unwrap();
    assert_eq!(homes(&projected), homes_of_rows(&co));
}

#[test]
fn a_projected_create_has_the_chart_the_create_makes() {
    let m = manifest();
    let head = appoint("cos");
    let dissolve = HeadVacancy::Dissolve;
    let unit = DepartmentCreateUnit::Department;
    let p = proposal("product", &head, &[], &unit, Some(&dissolve));
    let projected = project_department_create(&m, &p).unwrap();
    assert!(!projected.departments.has("office-of-the-ceo"));
    assert_eq!(projected.department_order, vec!["executive", "eng", "product"]);
    assert_eq!(projected.people.get("cos").unwrap().department_id, "product");

    let mut co = rows();
    create_department_with_staff_unit(
        &mut co, "product", "executive", "Product", "ship", &head, &[], &unit, Some(&dissolve),
        Some("ada"), "why", AT, "ada",
    )
    .unwrap();
    assert_eq!(shape(&projected), shape_of_rows(&co));
    assert_eq!(homes(&projected), homes_of_rows(&co));
}

#[test]
fn whoever_rests_in_a_dissolved_unit_is_moved_by_the_create_and_not_by_the_projection() {
    let mut m = manifest();
    member(&mut m, "gone", PersonKind::Worker, "office-of-the-ceo");
    let i = m.people.find("gone").unwrap();
    m.people.values[i].employment_state = EmploymentState::Departed;
    let mut co = rows();
    person(&mut co, "gone", PersonKind::Worker, "office-of-the-ceo", 4);
    employ(&mut co, "gone", EmploymentState::Departed);
    let head = appoint("cos");
    let dissolve = HeadVacancy::Dissolve;
    let unit = DepartmentCreateUnit::Department;
    let p = proposal("product", &head, &[], &unit, Some(&dissolve));
    let projected = project_department_create(&m, &p).unwrap();
    assert_eq!(projected.people.get("gone").unwrap().department_id, "office-of-the-ceo");
    create_department_with_staff_unit(
        &mut co, "product", "executive", "Product", "ship", &head, &[], &unit, Some(&dissolve),
        Some("ada"), "why", AT, "ada",
    )
    .unwrap();
    assert_eq!(home(&co, "gone"), "executive");
}

#[test]
fn asking_first_gives_the_answer_the_create_gives() {
    let m = manifest();
    let view = OrgView::from_manifest(&m);
    let unit = DepartmentCreateUnit::Department;
    for (id, head) in [
        ("eng", appoint("nita")),
        ("product", appoint("nobody")),
        ("product", appoint("ada")),
        ("product", appoint("bo")),
        ("Product", appoint("nita")),
        ("product", appoint("nita")),
    ] {
        let p = proposal(id, &head, &[], &unit, None);
        let asked = check_department_create(&view, &p);
        let mut co = rows();
        let done = create_department(
            &mut co, id, "executive", "Product", "ship", &head, "ada", "why", AT, "ada",
        )
        .unwrap();
        match (asked, done) {
            (Ok(()), CreateDepartmentOutcome::Applied { .. }) => assert_eq!(id, "product"),
            (Err(a), CreateDepartmentOutcome::Refused { reason }) => assert_eq!(a, reason),
            (a, d) => panic!("{a:?} and {d:?}"),
        }
    }
}

#[test]
fn a_contract_is_projected_with_what_it_carries() {
    let m = manifest();
    let head = appoint("nita");
    let contract = DepartmentCreateUnit::Contract(ContractMetadata {
        engagement: "audit".to_string(),
        launched_at: AT.to_string(),
        expires_at: some("2026-07-26T00:00:00.000Z"),
    });
    let p = proposal("audit", &head, &[], &contract, None);
    let projected = project_department_create(&m, &p).unwrap();
    let record = projected.departments.get("audit").unwrap();
    assert_eq!(record.kind, Some(UnitKind::Contract));
    assert_eq!(record.transient.as_ref().unwrap().engagement, "audit");
    assert_eq!(projected.people.get("nita").unwrap().kind, PersonKind::Head);
}

#[test]
fn a_contract_that_ends_before_it_begins_or_says_nothing_is_refused_by_field() {
    let m = manifest();
    let head = appoint("nita");
    for (engagement, launched_at, expires_at, field) in [
        (" ", AT, None, "unit.transient.engagement"),
        ("audit", "yesterday", None, "unit.transient.launchedAt"),
        ("audit", AT, Some(AT), "unit.transient.expiresAt"),
        ("audit", AT, Some("never"), "unit.transient.expiresAt"),
    ] {
        let contract = DepartmentCreateUnit::Contract(ContractMetadata {
            engagement: engagement.to_string(),
            launched_at: launched_at.to_string(),
            expires_at: expires_at.map(|e| e.to_string()),
        });
        let p = proposal("audit", &head, &[], &contract, None);
        match project_department_create(&m, &p).unwrap_err() {
            CreateDepartmentRefusal::InvalidSeed { field: got, .. } => assert_eq!(got, field),
            other => panic!("{other:?}"),
        }
    }
}

#[test]
fn a_headship_ends_in_a_manifest_by_hand_over_or_by_dissolving() {
    let mut m = manifest();
    let decision = HeadVacancy::HandOver { successor_person_id: "nita".to_string() };
    apply_head_vacancy(&mut m, "eng", &decision);
    assert_eq!(m.departments.get("eng").unwrap().head_person_id, "nita");
    assert_eq!(m.people.get("nita").unwrap().kind, PersonKind::Head);
    apply_head_vacancy(&mut m, "office-of-the-ceo", &HeadVacancy::Dissolve);
    assert_eq!(m.department_order, vec!["executive", "eng"]);
    assert!(!m.departments.has("office-of-the-ceo"));
}

#[test]
fn a_vacancy_decision_is_asked_for_and_judged() {
    let m = manifest();
    let view = OrgView::from_manifest(&m);
    let dissolve = HeadVacancy::Dissolve;
    assert_eq!(check_head_vacancy(&view, None, "nita", None), Ok(()));
    assert_eq!(
        check_head_vacancy(&view, None, "nita", Some(&dissolve)),
        Err(HeadVacancyRefusal::Invalid {
            department_id: String::new(),
            because: VacancyRefusal::HeadsNothing,
        })
    );
    assert_eq!(
        check_head_vacancy(&view, Some("eng"), "bo", None),
        Err(HeadVacancyRefusal::Required {
            person_id: "bo".to_string(),
            department_id: "eng".to_string(),
            eligible_successor_ids: vec!["nita".to_string()],
        })
    );
    assert_eq!(
        check_head_vacancy(&view, Some("eng"), "bo", Some(&dissolve)),
        Err(HeadVacancyRefusal::Invalid {
            department_id: "eng".to_string(),
            because: VacancyRefusal::StillHasMembers {
                member_person_ids: vec!["nita".to_string()],
            },
        })
    );
    assert_eq!(
        check_head_vacancy(&view, Some("executive"), "ada", Some(&dissolve)),
        Err(HeadVacancyRefusal::Invalid {
            department_id: "executive".to_string(),
            because: VacancyRefusal::StillHasChildren {
                child_department_ids: vec!["eng".to_string(), "office-of-the-ceo".to_string()],
            },
        })
    );
    assert_eq!(check_head_vacancy(&view, Some("office-of-the-ceo"), "cos", Some(&dissolve)), Ok(()));
}

#[test]
fn a_hire_is_refused_for_its_unit_its_id_its_requester_and_its_seed() {
    let m = manifest();
    let view = OrgView::from_manifest(&m);
    let good = worker_seed();
    let mut head = good;
    head.kind = PersonKind::Head;
    for (person_id, department_id, requester, seed, code) in [
        ("zoe", "nowhere", Some("ada"), &good, "unknown-department"),
        ("nita", "eng", Some("ada"), &good, "duplicate-person-id"),
        ("zoe", "eng", Some("cos"), &good, "requester-out-of-scope"),
        ("zoe", "eng", Some("ada"), &head, "invalid-seed"),
        ("Zoe!", "eng", Some("ada"), &good, "invalid-seed"),
    ] {
        let h = HireProposal {
            person_id,
            department_id,
            seed,
            requester_person_id: requester,
            at: AT,
        };
        assert_eq!(check_hire(&view, &h).unwrap_err().code(), code, "{person_id}");
    }
}

#[test]
fn a_view_of_nothing_has_no_unit_to_hire_into() {
    let seed = worker_seed();
    let h = HireProposal {
        person_id: "zoe",
        department_id: "eng",
        seed: &seed,
        requester_person_id: None,
        at: AT,
    };
    assert_eq!(check_hire(&OrgView::default(), &h), Err(HireRefusal::UnknownDepartment));
}

/// Everybody but a worker heads the unit they belong to, and every unit's head
/// belongs to it.
fn assert_one_head_to_a_unit(m: &OrganizationManifest) {
    for (id, u) in m.departments.keys.iter().zip(m.departments.values.iter()) {
        let leading: Vec<&String> = m
            .people
            .keys
            .iter()
            .zip(m.people.values.iter())
            .filter(|(_, p)| &p.department_id == id && p.kind != PersonKind::Worker)
            .map(|(person_id, _)| person_id)
            .collect();
        assert_eq!(leading, vec![&u.head_person_id]);
    }
}

#[test]
fn a_projected_create_keeps_one_head_to_a_unit() {
    let m = manifest();
    assert_one_head_to_a_unit(&m);
    let unit = DepartmentCreateUnit::Department;
    let hand_over = HeadVacancy::HandOver { successor_person_id: "nita".to_string() };
    let bo = appoint("bo");
    let p = proposal("product", &bo, &[], &unit, Some(&hand_over));
    let projected = project_department_create(&m, &p).unwrap();
    assert_one_head_to_a_unit(&projected);
    assert_eq!(projected.departments.get("eng").unwrap().head_person_id, "nita");
    let cos = appoint("cos");
    let p = proposal("product", &cos, &[], &unit, Some(&HeadVacancy::Dissolve));
    assert_one_head_to_a_unit(&project_department_create(&m, &p).unwrap());
}

#[test]
fn asking_for_the_same_once_more_is_refused_as_a_duplicate() {
    let m = manifest();
    let unit = DepartmentCreateUnit::Department;
    let head = appoint("nita");
    let p = proposal("product", &head, &[], &unit, None);
    let once = project_department_create(&m, &p).unwrap();
    assert_eq!(
        project_department_create(&once, &p).unwrap_err(),
        CreateDepartmentRefusal::DuplicateDepartmentId
    );
    let seed = worker_seed();
    let h = HireProposal {
        person_id: "zoe",
        department_id: "eng",
        seed: &seed,
        requester_person_id: Some("bo"),
        at: AT,
    };
    let once = project_hire(&m, &h).unwrap();
    assert_eq!(project_hire(&once, &h).unwrap_err(), HireRefusal::DuplicatePersonId);
}

#[test]
fn a_create_that_did_away_with_its_parent_is_refused_for_it_the_second_time() {
    let m = manifest();
    let unit = DepartmentCreateUnit::Department;
    let head = appoint("cos");
    let mut p = proposal("product", &head, &[], &unit, Some(&HeadVacancy::Dissolve));
    p.parent_id = "office-of-the-ceo";
    let once = project_department_create(&m, &p).unwrap();
    assert_eq!(
        project_department_create(&once, &p).unwrap_err(),
        CreateDepartmentRefusal::UnknownParent
    );
}

#[test]
fn a_create_keeps_a_head_to_a_unit_where_others_in_it_are_more_than_workers() {
    let mut m = manifest();
    member(&mut m, "vi", PersonKind::Executive, "eng");
    let unit = DepartmentCreateUnit::Department;
    let hand_over = HeadVacancy::HandOver { successor_person_id: "nita".to_string() };
    let bo = appoint("bo");
    let p = proposal("product", &bo, &[], &unit, Some(&hand_over));
    let projected = project_department_create(&m, &p).unwrap();
    for id in projected.departments.list() {
        let head = &projected.departments.get(&id).unwrap().head_person_id;
        let row = projected.people.get(head).unwrap();
        assert_eq!(row.department_id, id);
        assert_ne!(row.kind, PersonKind::Worker);
    }
}

/// The usual manifest, with something beside the named fields of everything.
fn annotated() -> OrganizationManifest {
    let note = |of: &str| OpenFields::new().with("note", format!("{{\"of\":\"{of}\"}}"));
    let mut m = manifest();
    m.extra = note("acme");
    for id in m.departments.list() {
        let mut row = m.departments.get(&id).unwrap().clone();
        row.extra = note(&id);
        m.departments.put(&id, row);
    }
    for id in m.people.list() {
        let mut row = m.people.get(&id).unwrap().clone();
        row.extra = note(&id);
        row.staffing_history = Some(format!("[\"{id} hired\"]"));
        m.people.put(&id, row);
    }
    m
}

fn assert_carried(m: &OrganizationManifest, r: &OrganizationManifest) {
    assert_eq!(r.extra, m.extra);
    for id in m.departments.list() {
        if let Some(row) = r.departments.get(&id) {
            assert_eq!(row.extra, m.departments.get(&id).unwrap().extra);
        }
    }
    for id in m.people.list() {
        let row = r.people.get(&id).unwrap();
        assert_eq!(row.extra, m.people.get(&id).unwrap().extra);
        assert_eq!(row.staffing_history, m.people.get(&id).unwrap().staffing_history);
    }
}

#[test]
fn a_projection_carries_what_it_does_not_decide() {
    let m = annotated();
    let unit = DepartmentCreateUnit::Department;
    let hand_over = HeadVacancy::HandOver { successor_person_id: "nita".to_string() };
    let bo = appoint("bo");
    let p = proposal("product", &bo, &[], &unit, Some(&hand_over));
    let r = project_department_create(&m, &p).unwrap();
    assert_carried(&m, &r);
    let eng = r.departments.get("eng").unwrap();
    assert_eq!(eng.head_person_id, "nita");
    assert_eq!(eng.extra.get("note").map(String::as_str), Some("{\"of\":\"eng\"}"));
    let moved = r.people.get("bo").unwrap();
    assert_eq!(moved.department_id, "product");
    assert_eq!(moved.staffing_history.as_deref(), Some("[\"bo hired\"]"));
    assert_eq!(moved.extra.get("note").map(String::as_str), Some("{\"of\":\"bo\"}"));
    assert_eq!(r.departments.get("product").unwrap().extra, OpenFields::new());

    let seed = worker_seed();
    let h = HireProposal {
        person_id: "zoe",
        department_id: "eng",
        seed: &seed,
        requester_person_id: Some("bo"),
        at: AT,
    };
    let r = project_hire(&m, &h).unwrap();
    assert_carried(&m, &r);
    assert_eq!(r.extra.get("note").map(String::as_str), Some("{\"of\":\"acme\"}"));
    assert_eq!(r.people.get("zoe").unwrap().extra, OpenFields::new());
    assert_eq!(r.people.get("zoe").unwrap().staffing_history, None);
    assert_eq!(empty_manifest("acme").extra, OpenFields::new());
}

#[test]
fn an_open_field_has_one_value() {
    let none = OpenFields::new();
    assert_eq!(none.get("a"), None);
    let some = none.with("b", "1".to_string()).with("a", "2".to_string());
    assert_eq!(some.get("a").map(String::as_str), Some("2"));
    assert_eq!(some.get("b").map(String::as_str), Some("1"));
    assert_eq!(some.clone(), some);
    let again = some.with("b", "3".to_string());
    assert_eq!(again.get("b").map(String::as_str), Some("3"));
    assert_eq!(
        again,
        OpenFields::new().with("a", "2".to_string()).with("b", "3".to_string()),
        "the order in which fields are set makes no difference"
    );
}
