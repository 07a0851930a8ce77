#![allow(dead_code, unused_imports)]

use chiefd_core::company::{
    ActivityRow, Company, DepartmentRow, Entity, EventOp, EventRow, Fence, OrgSettings, PersonRow,
    SettingsRow, StaffingEntry, TransitionAction, TransitionRow, TransitionStatus,
};
use chiefd_core::org_ops::{
    appoint_department_head, bench_person, bench_person_lifecycle, create_department,
    create_department_with_staff, create_department_with_staff_unit, department_is_company_root,
    hire_person, hire_person_authorized, is_ceo, move_department_members, offboard_person,
    pause_department, prepare_ceo_only, reactivate_executive_root, recall_person,
    remove_department_tree, reparent_department, replace_head_and_offboard, resume_department,
    resume_departments, shutdown_person, start_person, transfer_person, validate_new_person_seed,
    wake_person, AppointOutcome, AppointRefusal, BenchLifecycleOutcome, BenchOutcome, BenchRefusal,
    CreateDepartmentOutcome, CreateDepartmentRefusal, DepartmentCreateUnit, DepartmentStaffSeed,
    DirectOutcome, HeadDecision, HeadIneligibility, HeadVacancy, HeadVacancyRefusal, HireOutcome,
    HireRefusal, NewPersonSeed, OffboardOutcome, OffboardRefusal, OwnedNewPersonSeed,
    PauseOutcome, PauseRefusal, RemoveDepartmentOutcome, ReparentOutcome, ReparentRefusal,
    RowError, SeedRejection, ShutdownKind, ShutdownOutcome, ShutdownRefusal, TransferOutcome,
    TransferRefusal, VacancyRefusal,
};
use chiefd_core::organization::{EmploymentState, PersonKind, UnitKind, UnitState};
use chiefd_core::rows::ledger::IDLE_AUTO_PARK_REASON;

fn some(s: &str) -> Option<String> {
    Some(s.to_string())
}

/// A company with a settings row and nothing else.
fn company() -> Company {
    let mut co = Company::new("acme");
    co.settings = Some(SettingsRow {
        display_slug: "acme".to_string(),
        settings: OrgSettings {
            launcher_root: None,
            supervision_interval_ms: 60000,
            acknowledgement_timeout_ms: 30000,
            acknowledgement_retry_limit: 3,
            replacement_limit: 3,
        },
    });
    co
}

fn dept(co: &mut Company, id: &str, parent: &str, name: &str, head: &str, ordinal: u64) {
    co.departments.put(
        id,
        DepartmentRow {
            parent_id: if parent.is_empty() { None } else { some(parent) },
            name: name.to_string(),
            purpose: String::new(),
            kind: if parent.is_empty() { UnitKind::Company } else { UnitKind::Department },
            transient: None,
            state: UnitState::Active,
            head_person_id: head.to_string(),
            ordinal,
            created_at: "t".to_string(),
            updated_at: "t".to_string(),
        },
    );
}

fn person(co: &mut Company, id: &str, kind: PersonKind, department: &str, ordinal: u64) {
    co.people.put(
        id,
        PersonRow {
            name: id.to_string(),
            title: "title".to_string(),
            mandate: "mandate".to_string(),
            kind,
            employment_state: EmploymentState::Active,
            department_id: department.to_string(),
            activation: "resident".to_string(),
            tools: Vec::new(),
            prompts: Vec::new(),
            ordinal,
            created_at: "t".to_string(),
            updated_at: "t".to_string(),
        },
    );
}

/// The executive root headed by `ada`, the office of the CEO headed by `cos`,
/// and engineering headed by `bo`.
fn open() -> Company {
    let mut co = company();
    dept(&mut co, "executive", "", "Executive", "ada", 0);
    dept(&mut co, "office-of-the-ceo", "executive", "Office of the CEO", "cos", 1);
    dept(&mut co, "eng", "executive", "Engineering", "bo", 2);
    person(&mut co, "ada", PersonKind::Executive, "executive", 0);
    person(&mut co, "cos", PersonKind::Head, "office-of-the-ceo", 1);
    person(&mut co, "bo", PersonKind::Worker, "eng", 2);
    co
}

fn person_mut<'a>(co: &'a mut Company, id: &str) -> &'a mut PersonRow {
    let i = co.people.find(id).expect("person");
    &mut co.people.values[i]
}

fn dept_mut<'a>(co: &'a mut Company, id: &str) -> &'a mut DepartmentRow {
    let i = co.departments.find(id).expect("department");
    &mut co.departments.values[i]
}

fn transition_mut<'a>(co: &'a mut Company, id: &str) -> &'a mut TransitionRow {
    let i = co.transitions.find(id).expect("transition");
    &mut co.transitions.values[i]
}

fn activity_mut<'a>(co: &'a mut Company, id: &str) -> &'a mut ActivityRow {
    let i = co.activity.find(id).expect("activity");
    &mut co.activity.values[i]
}

fn employ(co: &mut Company, id: &str, state: EmploymentState) {
    person_mut(co, id).employment_state = state;
}

fn pause_row(co: &mut Company, id: &str) {
    dept_mut(co, id).state = UnitState::Paused;
}

fn fence(co: &mut Company, id: &str) {
    co.fences.put(id, Fence {});
}

fn transition_row(
    co: &mut Company,
    id: &str,
    person: &str,
    action: TransitionAction,
    status: TransitionStatus,
) {
    co.transitions.put(
        id,
        TransitionRow {
            person_id: person.to_string(),
            action,
            status,
            intent_id: None,
            reason: String::new(),
            placement_department_id: None,
            requested_at: "t0".to_string(),
            handoff_deadline_at: None,
            applied_at: None,
            cancelled_at: None,
            abandoned_at: None,
        },
    );
}

fn activity_row(co: &mut Company, person: &str, desired: bool, pointer: Option<&str>) {
    co.activity.put(
        person,
        ActivityRow {
            last_desired_active: desired,
            last_operational: false,
            last_department_id: None,
            last_employment_state: None,
            agent_quiet_at: None,
            idle_since: None,
            agent_active_at: None,
            operator_wake_at: None,
            active_transition_id: pointer.map(|p| p.to_string()),
            updated_at: "t".to_string(),
        },
    );
}

/// One event already in the feed.
fn prior_event(co: &mut Company) {
    co.events.push(EventRow {
        entity: Entity::Person,
        entity_id: "x".to_string(),
        op: EventOp::Upsert,
        at: "t".to_string(),
        actor: String::new(),
    });
}

fn person_row<'a>(co: &'a Company, id: &str) -> &'a PersonRow {
    co.people.get(id).expect("person")
}

fn home(co: &Company, id: &str) -> String {
    person_row(co, id).department_id.clone()
}

fn employment(co: &Company, id: &str) -> &'static str {
    person_row(co, id).employment_state.as_str()
}

fn kind(co: &Company, id: &str) -> &'static str {
    person_row(co, id).kind.as_str()
}

fn dept_row<'a>(co: &'a Company, id: &str) -> &'a DepartmentRow {
    co.departments.get(id).expect("department")
}

fn head_of(co: &Company, id: &str) -> Option<String> {
    co.departments.get(id).map(|row| row.head_person_id.clone())
}

fn state_of(co: &Company, id: &str) -> &'static str {
    dept_row(co, id).state.as_str()
}

fn transition<'a>(co: &'a Company, id: &str) -> &'a TransitionRow {
    co.transitions.get(id).expect("transition")
}

fn transitions_of<'a>(co: &'a Company, person: &str) -> Vec<&'a TransitionRow> {
    co.transitions.values.iter().filter(|t| t.person_id == person).collect()
}

fn desired(co: &Company, person: &str) -> Option<i64> {
    co.activity.get(person).map(|row| if row.last_desired_active { 1 } else { 0 })
}

fn pointer(co: &Company, person: &str) -> Option<String> {
    co.activity.get(person).expect("activity").active_transition_id.clone()
}

/// The quiet, idle and active clocks of somebody.
fn clocks(co: &Company, person: &str) -> (Option<String>, Option<String>, Option<String>) {
    let row = co.activity.get(person).expect("activity");
    (row.agent_quiet_at.clone(), row.idle_since.clone(), row.agent_active_at.clone())
}

fn fenced(co: &Company) -> Vec<String> {
    co.fences.list()
}

/// What the staffing history says of somebody: action, from, to, reason.
fn staffing(co: &Company, person: &str) -> Vec<(String, Option<String>, Option<String>, String)> {
    co.staffing
        .iter()
        .filter(|e| e.person_id == person)
        .map(|e| {
            (
                e.action.as_str().to_string(),
                e.from_department_id.clone(),
                e.to_department_id.clone(),
                e.reason.clone(),
            )
        })
        .collect()
}

fn actions(co: &Company, person: &str) -> Vec<String> {
    staffing(co, person).into_iter().map(|(action, ..)| action).collect()
}

/// The feed: sequence, entity, entity id, op.
fn feed(co: &Company) -> Vec<(i64, String, String, String)> {
    co.events
        .iter()
        .enumerate()
        .map(|(i, e)| {
            (
                (co.event_base + i as u64 + 1) as i64,
                e.entity.name().to_string(),
                e.entity_id.clone(),
                e.op.as_str().to_string(),
            )
        })
        .collect()
}

fn dept_ids(co: &Company) -> Vec<String> {
    let mut rows: Vec<(u64, String)> = co
        .departments
        .keys
        .iter()
        .zip(co.departments.values.iter())
        .map(|(id, row)| (row.ordinal, id.clone()))
        .collect();
    rows.sort();
    rows.into_iter().map(|(_, id)| id).collect()
}

fn people_ids(co: &Company) -> Vec<String> {
    co.roster()
}

fn dept_ordinals(co: &Company) -> Vec<i64> {
    let mut v: Vec<i64> = co.departments.values.iter().map(|r| r.ordinal as i64).collect();
    v.sort();
    v
}

fn people_ordinals(co: &Company) -> Vec<i64> {
    let mut v: Vec<i64> = co.people.values.iter().map(|r| r.ordinal as i64).collect();
    v.sort();
    v
}

fn is_gapless_bijection(ordinals: &[i64]) -> bool {
    ordinals.iter().enumerate().all(|(i, o)| *o == i as i64)
}

/// A head for every unit, who is there, employed, at home in it and in one
/// headship; a unit for everybody; every parent there; the places without a
/// gap.
fn assert_chart_valid(co: &Company) {
    for (id, row) in co.departments.keys.iter().zip(co.departments.values.iter()) {
        let head = co.people.get(&row.head_person_id).expect("a head who is there");
        assert_eq!(&head.department_id, id, "a head is at home in the unit they head");
        assert_ne!(head.employment_state, EmploymentState::Departed);
        assert_ne!(head.kind, PersonKind::Worker, "a worker cannot head a department");
        match &row.parent_id {
            Some(parent) => assert!(co.departments.has(parent), "a parent that is there"),
            None => assert_eq!(id, "executive"),
        }
    }
    for (id, row) in co.people.keys.iter().zip(co.people.values.iter()) {
        assert!(co.departments.has(&row.department_id), "{id} has a unit");
        let heads = co.departments.values.iter().filter(|d| &d.head_person_id == id).count();
        match row.kind {
            PersonKind::Worker => assert_eq!(heads, 0),
            _ => assert_eq!(heads, 1, "{id} heads exactly one unit"),
        }
    }
    assert!(is_gapless_bijection(&dept_ordinals(co)));
    assert!(is_gapless_bijection(&people_ordinals(co)));
}

use chiefd_core::organization::ContractMetadata;

const AT: &str = "2026-07-25T00:00:00.000Z";

fn new_head_seed(name: &str, title: &str, mandate: &str) -> OwnedNewPersonSeed {
    OwnedNewPersonSeed {
        name: name.into(),
        title: title.into(),
        mandate: mandate.into(),
        kind: PersonKind::Head,
        employment_state: EmploymentState::Active,
        activation: "resident".into(),
        tools: vec![],
        prompts: vec![],
    }
}

fn new_staff_seed(person_id: &str, name: &str) -> DepartmentStaffSeed {
    let mut seed = new_head_seed(name, name, "own assigned work");
    seed.kind = PersonKind::Worker;
    seed.employment_state = EmploymentState::Benched;
    DepartmentStaffSeed { person_id: person_id.into(), seed }
}

fn hire_new(person_id: &str, seed: OwnedNewPersonSeed) -> HeadDecision {
    HeadDecision::HireNew { person_id: person_id.into(), seed: Box::new(seed) }
}

fn appoint(person_id: &str) -> HeadDecision {
    HeadDecision::AppointExisting { person_id: person_id.into() }
}

fn refused(reason: CreateDepartmentRefusal) -> CreateDepartmentOutcome {
    CreateDepartmentOutcome::Refused { reason }
}

/// The usual company, and `nita`, a plain engineer.
fn open_create() -> Company {
    let mut co = open();
    person(&mut co, "nita", PersonKind::Worker, "eng", 3);
    co
}

fn platform_with(
    co: &mut Company,
    head: HeadDecision,
    staff: &[DepartmentStaffSeed],
) -> CreateDepartmentOutcome {
    create_department_with_staff(
        co,
        "platform",
        "executive",
        "Platform",
        "Own platform",
        &head,
        staff,
        Some("ada"),
        "Create Platform and its initial roster.",
        AT,
        "ada",
    )
    .unwrap()
}

fn product_with(co: &mut Company, head: &str, reason: &str) -> CreateDepartmentOutcome {
    create_department(
        co,
        "product",
        "executive",
        "Product",
        "Ship product",
        &appoint(head),
        "ada",
        reason,
        AT,
        "chief",
    )
    .unwrap()
}

#[test]
fn a_head_seeded_with_bash_is_now_created_and_keeps_it() {
    let mut co = open_create();
    let mut head = new_head_seed("Pat", "Head of Platform", "lead platform");
    head.tools = vec!["read".to_string(), "bash".to_string()];
    let out = create_department(
        &mut co,
        "platform",
        "executive",
        "Platform",
        "Own platform",
        &hire_new("platform-head", head),
        "ada",
        "Create Platform.",
        AT,
        "ada",
    )
    .unwrap();
    assert_eq!(
        out,
        CreateDepartmentOutcome::Applied { department_id: "platform".to_string() },
        "a head seeded with bash must now be created"
    );
    assert_eq!(
        person_row(&co, "platform-head").tools,
        vec!["read", "bash"],
        "the head's bash must reach the row"
    );
}

#[test]
fn the_head_tools_refusal_detail_still_carries_the_vocabulary() {
    let mut co = open_create();
    let mut head = new_head_seed("Pat", "Head of Platform", "lead platform");
    head.tools = vec!["bahs".to_string()];
    let out = create_department(
        &mut co,
        "platform",
        "executive",
        "Platform",
        "Own platform",
        &hire_new("platform-head", head),
        "ada",
        "Create Platform.",
        AT,
        "ada",
    )
    .unwrap();
    let CreateDepartmentOutcome::Refused { reason } = out else {
        panic!("a mistyped tool name must be refused, got {out:?}");
    };
    assert_eq!(reason.code(), "invalid-seed");
    let detail = reason.detail();
    assert!(detail.starts_with("invalid department person seed: head.tools"), "{detail}");
    assert!(detail.contains("'bahs' is not a declarable tool name"), "{detail}");
    assert!(detail.contains("read, bash, edit, write, grep, find, ls"), "{detail}");
    assert!(detail.contains("granted to every person automatically"), "{detail}");
    assert!(!co.departments.has("platform"));
}

#[test]
fn create_with_existing_head_writes_dept_repoints_head_and_keeps_ordinals_bijective() {
    let mut co = open_create();
    let out = product_with(&mut co, "nita", "Create Product with Nita as head.");
    assert_eq!(out, CreateDepartmentOutcome::Applied { department_id: "product".into() });
    let row = dept_row(&co, "product");
    assert_eq!(row.parent_id.as_deref(), Some("executive"));
    assert_eq!(row.head_person_id, "nita");
    assert_eq!(row.ordinal, 3);
    assert_eq!(row.kind.as_str(), "department");
    assert_eq!(row.state.as_str(), "active");
    assert_eq!(home(&co, "nita"), "product");
    assert_eq!(kind(&co, "nita"), "head");
    assert_eq!(
        staffing(&co, "nita"),
        vec![
            (
                "transferred".to_string(),
                some("eng"),
                some("product"),
                "Create Product with Nita as head.".to_string(),
            ),
            (
                "appointed-head".to_string(),
                None,
                some("product"),
                "Create Product with Nita as head.".to_string(),
            ),
        ],
    );
    assert!(is_gapless_bijection(&dept_ordinals(&co)));
    assert!(is_gapless_bijection(&people_ordinals(&co)));
    assert_eq!(fenced(&co), vec!["nita".to_string()]);
    assert_eq!(co.activity.len(), 0);
}

#[test]
fn create_with_hire_new_inserts_head_at_people_append_ordinal() {
    let mut co = open_create();
    let out = create_department(
        &mut co,
        "finance",
        "executive",
        "Finance",
        "Money",
        &hire_new("fin-lead", new_head_seed("Fin", "Head of Finance", "own finance")),
        "ada",
        "Create Finance with a new head.",
        AT,
        "chief",
    )
    .unwrap();
    assert!(matches!(out, CreateDepartmentOutcome::Applied { .. }));
    assert_eq!(home(&co, "fin-lead"), "finance");
    assert_eq!(person_row(&co, "fin-lead").ordinal, 4);
    assert_eq!(employment(&co, "fin-lead"), "active");
    let activity = co.activity.get("fin-lead").unwrap();
    assert_eq!(activity.last_employment_state, Some(EmploymentState::Active));
    assert_eq!(activity.last_department_id, some("finance"));
    assert!(activity.last_operational);
    assert!(!activity.last_desired_active, "a create never presets who is wanted up");
    assert!(is_gapless_bijection(&dept_ordinals(&co)));
    assert!(is_gapless_bijection(&people_ordinals(&co)));
    assert_eq!(fenced(&co), vec!["fin-lead".to_string()]);
}

#[test]
fn create_under_non_last_subtree_normalizes_both_manifest_orders() {
    let mut co = open_create();
    let out = create_department(
        &mut co,
        "ceo-strategy",
        "office-of-the-ceo",
        "CEO Strategy",
        "Own CEO strategy",
        &appoint("nita"),
        "ada",
        "Create CEO Strategy with Nita as head.",
        AT,
        "chief",
    )
    .unwrap();
    assert!(matches!(out, CreateDepartmentOutcome::Applied { .. }));
    assert_eq!(
        dept_ids(&co),
        vec!["executive", "office-of-the-ceo", "ceo-strategy", "eng"],
        "the new child belongs immediately after its non-last parent subtree",
    );
    assert_eq!(
        people_ids(&co),
        vec!["ada", "cos", "nita", "bo"],
        "people remain grouped by department with every head first",
    );
}

#[test]
fn create_commits_complete_initial_staff_and_their_launch_fences_in_one_transaction() {
    let mut co = open_create();
    let staff = vec![
        new_staff_seed("platform-developer", "Developer"),
        new_staff_seed("platform-tester", "Tester"),
    ];
    let head = new_head_seed("Pat", "Head of Platform", "lead platform");
    let out = platform_with(&mut co, hire_new("platform-head", head), &staff);
    assert!(matches!(out, CreateDepartmentOutcome::Applied { .. }));
    let people: Vec<String> =
        people_ids(&co).into_iter().filter(|p| home(&co, p) == "platform").collect();
    assert_eq!(people, vec!["platform-head", "platform-developer", "platform-tester"]);
    for id in &people {
        assert_eq!(desired(&co, id), Some(0));
        assert_eq!(actions(&co, id), vec!["hired"]);
    }
    assert_eq!(fenced(&co), vec!["platform-head".to_string()]);
}

#[test]
fn create_launches_an_active_initial_staff_seed_with_the_department() {
    let mut co = open_create();
    let mut developer = new_staff_seed("platform-developer", "Developer");
    developer.seed.employment_state = EmploymentState::Active;
    let staff = vec![developer, new_staff_seed("platform-tester", "Tester")];
    let head = new_head_seed("Pat", "Head of Platform", "lead platform");
    let out = platform_with(&mut co, hire_new("platform-head", head), &staff);
    assert!(matches!(out, CreateDepartmentOutcome::Applied { .. }));
    assert_eq!(
        fenced(&co),
        vec!["platform-developer".to_string(), "platform-head".to_string()],
        "the active head and the active worker come up; the benched tester does not"
    );
}

#[test]
fn invalid_late_initial_staff_refuses_before_department_head_or_prior_staff_write() {
    let mut co = open_create();
    let before = co.clone();
    let mut invalid = new_staff_seed("platform-tester", "Tester");
    invalid.seed.kind = PersonKind::Head;
    let staff = vec![new_staff_seed("platform-developer", "Developer"), invalid];
    let head = new_head_seed("Pat", "Head of Platform", "lead platform");
    let out = platform_with(&mut co, hire_new("platform-head", head), &staff);
    assert!(matches!(
        out,
        CreateDepartmentOutcome::Refused {
            reason: CreateDepartmentRefusal::InvalidSeed { ref field, .. }
        } if field == "staff[1].kind"
    ));
    assert_eq!(co, before);
}

#[test]
fn duplicate_late_initial_staff_refuses_before_any_write() {
    let mut co = open_create();
    let before = co.clone();
    let staff = vec![
        new_staff_seed("platform-developer", "Developer"),
        new_staff_seed("platform-developer", "Duplicate Developer"),
    ];
    let head = new_head_seed("Pat", "Head of Platform", "lead platform");
    let out = platform_with(&mut co, hire_new("platform-head", head), &staff);
    assert_eq!(out, refused(CreateDepartmentRefusal::DuplicatePersonId));
    assert_eq!(co, before);
}

#[test]
fn refuses_unknown_parent_and_writes_nothing() {
    let mut co = open_create();
    let out = create_department(
        &mut co,
        "x",
        "does-not-exist",
        "X",
        "",
        &appoint("bo"),
        "ada",
        "test create",
        AT,
        "chief",
    )
    .unwrap();
    assert_eq!(out, refused(CreateDepartmentRefusal::UnknownParent));
    assert!(!co.departments.has("x"));
}

#[test]
fn refuses_paused_parent() {
    let mut co = open_create();
    pause_row(&mut co, "eng");
    let out = create_department(
        &mut co,
        "eng-sub",
        "eng",
        "Eng Sub",
        "",
        &appoint("bo"),
        "ada",
        "test create",
        AT,
        "chief",
    )
    .unwrap();
    assert_eq!(out, refused(CreateDepartmentRefusal::ParentPaused));
}

#[test]
fn refuses_an_active_parent_below_a_paused_ancestor() {
    let mut co = open_create();
    dept(&mut co, "eng-platform", "eng", "Platform", "nita", 3);
    pause_row(&mut co, "eng");
    let out = create_department(
        &mut co,
        "eng-platform-sub",
        "eng-platform",
        "Eng Platform Sub",
        "",
        &appoint("bo"),
        "ada",
        "test create",
        AT,
        "chief",
    )
    .unwrap();
    assert_eq!(out, refused(CreateDepartmentRefusal::ParentPaused));
}

#[test]
fn refuses_duplicate_department_id() {
    let mut co = open_create();
    let out = create_department(
        &mut co,
        "eng",
        "executive",
        "Eng Two",
        "",
        &appoint("bo"),
        "ada",
        "test create",
        AT,
        "chief",
    )
    .unwrap();
    assert_eq!(out, refused(CreateDepartmentRefusal::DuplicateDepartmentId));
}

#[test]
fn refuses_head_decision_when_appointee_absent() {
    let mut co = open_create();
    let out = product_with(&mut co, "ghost", "test create");
    assert_eq!(out, refused(CreateDepartmentRefusal::HeadDecisionRequired));
}

#[test]
fn only_the_ceo_is_refused_as_an_appointed_head() {
    let mut co = open_create();
    let ada = product_with(&mut co, "ada", "test create");
    assert_eq!(
        ada,
        refused(CreateDepartmentRefusal::ExecRootProtected { person_id: "ada".into() }),
        "the CEO is the one immovable node"
    );
    let CreateDepartmentOutcome::Refused { reason } = &ada else {
        panic!("the CEO must be refused");
    };
    let message = reason.detail();
    assert!(message.contains("'ada'"), "must name the person: {message}");
    assert!(message.contains("the CEO"), "must say WHY: {message}");
    assert!(
        message.contains("MOVES that person"),
        "must say the appointment is itself the move: {message}"
    );
    assert!(message.contains("NEW head"), "must name a way through: {message}");
    assert_eq!(reason.code(), "exec-root-protected", "the machine code is unchanged");

    let cos = product_with(&mut co, "cos", "test create");
    let CreateDepartmentOutcome::Refused { reason: CreateDepartmentRefusal::HeadVacancy(vacancy) } =
        &cos
    else {
        panic!("expected a vacancy refusal, got {cos:?}");
    };
    assert_eq!(vacancy.code(), "vacancy-decision-required");
    let HeadVacancyRefusal::Required { person_id, department_id, eligible_successor_ids } = vacancy
    else {
        panic!("expected the required arm, got {vacancy:?}");
    };
    assert_eq!(person_id, "cos");
    assert_eq!(department_id, "office-of-the-ceo");
    assert!(
        eligible_successor_ids.is_empty(),
        "cos is its only member, so there is nobody to hand it to: {eligible_successor_ids:?}"
    );
    let detail = vacancy.detail();
    assert!(
        detail.contains("dissolve") && !detail.contains("hand-over"),
        "a last member must be offered dissolve and never a hand-over: {detail}"
    );
    assert!(detail.contains("office-of-the-ceo"), "the refusal must name it: {detail}");
}

#[test]
fn a_worker_homed_in_the_root_becomes_a_head_and_engineering_moves_beneath_him() {
    let mut co = company();
    co.slug = "tribes-capital".to_string();
    dept(&mut co, "executive", "", "Tribes Capital", "chief", 0);
    dept(&mut co, "engineering", "executive", "Engineering", "head-of-engineering", 1);
    person(&mut co, "chief", PersonKind::Executive, "executive", 0);
    person(&mut co, "carlos", PersonKind::Worker, "executive", 1);
    person(&mut co, "head-of-engineering", PersonKind::Head, "engineering", 2);

    let created = create_department(
        &mut co,
        "leadership",
        "executive",
        "Leadership",
        "Carlos runs this",
        &appoint("carlos"),
        "chief",
        "the operator asked for it",
        "2026-08-13T01:01:04.000Z",
        "chief",
    )
    .unwrap();
    assert!(
        matches!(created, CreateDepartmentOutcome::Applied { .. }),
        "the operator's request must succeed: {created:?}"
    );
    assert_eq!(head_of(&co, "leadership"), some("carlos"));
    assert_eq!(home(&co, "carlos"), "leadership");

    let moved = reparent_department(
        &mut co,
        "engineering",
        "leadership",
        "2026-08-13T01:02:00.000Z",
        "under carlos",
    )
    .unwrap();
    assert_eq!(moved, ReparentOutcome::Applied { department_id: "engineering".into() });

    let ceo = create_department(
        &mut co,
        "office",
        "executive",
        "Office",
        "Nope",
        &appoint("chief"),
        "chief",
        "must refuse",
        "2026-08-13T01:03:00.000Z",
        "chief",
    )
    .unwrap();
    assert_eq!(
        ceo,
        refused(CreateDepartmentRefusal::ExecRootProtected { person_id: "chief".into() })
    );
    assert_chart_valid(&co);
}

#[test]
fn head_ineligibility_names_the_clause_that_fired_and_the_way_out() {
    for (why, expected) in
        [(HeadIneligibility::Departed, "re-hire"), (HeadIneligibility::NotAWorker, "WORKER")]
    {
        assert!(why.detail().contains(expected), "{why:?} must say {expected}: {}", why.detail());
    }
    let refusal = CreateDepartmentRefusal::HeadNotEligible {
        person_id: "cos".into(),
        because: HeadIneligibility::NotAWorker,
    };
    assert!(refusal.detail().contains("'cos'"), "{}", refusal.detail());
    assert_eq!(refusal.code(), "head-not-eligible", "the machine code is unchanged");
}

#[test]
fn the_reparent_refusal_is_about_a_unit_not_a_person() {
    let message = ReparentRefusal::ExecRootProtected.detail();
    assert!(message.contains("that department"), "{message}");
    assert!(!message.contains("the person"), "a department is not a person: {message}");
    assert!(message.contains("the company root"), "{message}");
    assert!(message.contains("Every department BENEATH it"), "{message}");
}

#[test]
fn the_transfer_refusal_names_the_person_and_a_way_through() {
    let message = TransferRefusal::ExecRootProtected.detail();
    assert!(message.contains("that person is the CEO"), "{message}");
    assert!(
        message.contains("Every other person may be transferred anywhere"),
        "the refusal must say who CAN move, now that it is only the CEO who cannot: {message}"
    );
}

#[test]
fn unrelated_prior_event_does_not_block_department_create() {
    let mut co = open_create();
    prior_event(&mut co);
    let out = product_with(&mut co, "nita", "test create");
    assert_eq!(out, CreateDepartmentOutcome::Applied { department_id: "product".into() });
    assert!(co.departments.has("product"));
    assert!(
        feed(&co)
            .iter()
            .any(|(seq, e, id, _)| *seq > 1 && e == "department" && id == "product"),
        "the create still emits its durable department audit event"
    );
}

#[test]
fn emits_department_then_person_touches_as_one_contiguous_seq_run() {
    let mut co = open_create();
    product_with(&mut co, "nita", "test create");
    let rows = feed(&co);
    let ops: Vec<(&str, &str)> = rows.iter().map(|(_, e, _, o)| (e.as_str(), o.as_str())).collect();
    assert_eq!(
        ops,
        vec![("department", "upsert"), ("person", "upsert"), ("launch-intent", "upsert")],
    );
    let seqs: Vec<i64> = rows.iter().map(|(s, ..)| *s).collect();
    assert_eq!(seqs, vec![1, 2, 3]);
}

fn platform_under(co: &mut Company, parent: &str, requester: &str) -> CreateDepartmentOutcome {
    create_department(
        co,
        "eng-platform",
        parent,
        "Platform",
        "Own platform",
        &hire_new("platform-head", new_head_seed("Pat", "Platform Head", "own platform")),
        requester,
        "Create Platform.",
        AT,
        requester,
    )
    .unwrap()
}

#[test]
fn a_leaf_may_create_a_department_beneath_the_unit_it_sits_in() {
    let mut co = open_create();
    dept_mut(&mut co, "eng").head_person_id = "nita".to_string();
    let headed = co.departments.values.iter().filter(|d| d.head_person_id == "bo").count();
    assert_eq!(headed, 0, "the premise: Bo heads nothing at all");
    let out = platform_under(&mut co, "eng", "bo");
    assert!(
        matches!(out, CreateDepartmentOutcome::Applied { .. }),
        "a leaf grows a unit beneath the unit it sits in: {out:?}"
    );
    assert_eq!(dept_row(&co, "eng-platform").parent_id, some("eng"));
    assert_eq!(home(&co, "bo"), "eng", "creating a child unit moves nobody, its creator included");
}

#[test]
fn a_leaf_cannot_create_beneath_a_unit_it_neither_heads_nor_sits_in() {
    for parent in ["office-of-the-ceo", "executive"] {
        let mut co = open_create();
        dept_mut(&mut co, "eng").head_person_id = "nita".to_string();
        let out = platform_under(&mut co, parent, "bo");
        assert_eq!(
            out,
            refused(CreateDepartmentRefusal::RequesterOutOfScope),
            "a leaf must not grow sideways or upward: parent '{parent}'"
        );
        assert!(!co.departments.has("eng-platform"));
    }
}

#[test]
fn a_departed_person_cannot_create_a_department_anywhere() {
    let mut co = open_create();
    dept_mut(&mut co, "eng").head_person_id = "nita".to_string();
    employ(&mut co, "bo", EmploymentState::Departed);
    let out = platform_under(&mut co, "eng", "bo");
    assert_eq!(
        out,
        refused(CreateDepartmentRefusal::RequesterOutOfScope),
        "leaving the company ends the authority to grow one"
    );
}

#[test]
fn stale_manager_scope_refuses_department_create_without_writes() {
    let mut co = open_create();
    person_mut(&mut co, "bo").kind = PersonKind::Head;
    dept_mut(&mut co, "eng").head_person_id = "nita".to_string();
    let before = co.clone();
    let out = platform_under(&mut co, "office-of-the-ceo", "bo");
    assert_eq!(
        out,
        refused(CreateDepartmentRefusal::RequesterOutOfScope),
        "a person whose head row is stale reaches no unit outside the one it sits in"
    );
    assert_eq!(co, before);
}

#[test]
fn manager_cannot_appoint_a_head_from_an_out_of_scope_sibling() {
    let mut co = open_create();
    let before = co.clone();
    let out = create_department(
        &mut co,
        "ceo-strategy",
        "office-of-the-ceo",
        "CEO Strategy",
        "Own CEO strategy",
        &appoint("nita"),
        "cos",
        "Create CEO Strategy with Nita as head.",
        AT,
        "cos",
    )
    .unwrap();
    assert_eq!(out, refused(CreateDepartmentRefusal::RequesterOutOfScope));
    assert_eq!(co, before);
}

#[test]
fn blank_fields_and_bad_ids_are_named() {
    let mut co = open_create();
    let mut field = |id: &str, name: &str, purpose: &str, head: HeadDecision| match create_department(
        &mut co, id, "executive", name, purpose, &head, "ada", "why", AT, "ada",
    )
    .unwrap()
    {
        CreateDepartmentOutcome::Refused {
            reason: CreateDepartmentRefusal::InvalidSeed { field, .. },
        } => field,
        other => panic!("expected an invalid seed, got {other:?}"),
    };
    assert_eq!(field(" ", "Name", "Purpose", appoint("nita")), "departmentId");
    assert_eq!(field("product", "", "Purpose", appoint("nita")), "name");
    assert_eq!(field("product", "Name", " ", appoint("nita")), "purpose");
    assert_eq!(field("Product", "Name", "Purpose", appoint("nita")), "departmentId");
    let head = new_head_seed("Pat", "Head", "lead");
    assert_eq!(field("product", "Name", "Purpose", hire_new("Bad Id", head)), "head.personId");
}

#[test]
fn a_contract_unit_keeps_its_engagement_and_its_end_must_come_after_its_launch() {
    let contract = |launched: &str, expires: Option<&str>| {
        DepartmentCreateUnit::Contract(ContractMetadata {
            engagement: "Audit the ledger".to_string(),
            launched_at: launched.to_string(),
            expires_at: expires.map(|e| e.to_string()),
        })
    };
    let create = |co: &mut Company, unit: &DepartmentCreateUnit| {
        create_department_with_staff_unit(
            co,
            "audit",
            "executive",
            "Audit",
            "Audit",
            &hire_new("auditor", new_head_seed("Au", "Auditor", "audit")),
            &[],
            unit,
            None,
            Some("ada"),
            "why",
            AT,
            "ada",
        )
        .unwrap()
    };
    let mut co = open_create();
    for (unit, expected) in [
        (contract("soon", None), "unit.transient.launchedAt"),
        (contract(AT, Some("later")), "unit.transient.expiresAt"),
        (contract(AT, Some(AT)), "unit.transient.expiresAt"),
    ] {
        let CreateDepartmentOutcome::Refused {
            reason: CreateDepartmentRefusal::InvalidSeed { field, .. },
        } = create(&mut co, &unit)
        else {
            panic!("expected an invalid seed");
        };
        assert_eq!(field, expected);
    }
    let unit = contract(AT, Some("2026-07-25T00:00:00.001Z"));
    assert!(matches!(create(&mut co, &unit), CreateDepartmentOutcome::Applied { .. }));
    let row = dept_row(&co, "audit");
    assert_eq!(row.kind.as_str(), "contract");
    assert_eq!(row.transient.as_ref().unwrap().engagement, "Audit the ledger");
}
