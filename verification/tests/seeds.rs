#![allow(dead_code, unused_imports)]

use chiefd_core::company::{
    ActivityRow, Company, DepartmentRow, Entity, EventOp, EventRow, Fence, OrgSettings, PersonRow,
    SettingsRow, StaffingEntry, TransitionAction, TransitionRow, TransitionStatus,
};
use chiefd_core::org_ops::{
    appoint_department_head, bench_person, bench_person_lifecycle, create_department,
    create_department_with_staff, create_department_with_staff_unit, department_is_company_root,
    hire_person, hire_person_authorized, is_ceo, move_department_members, offboard_person,
    pause_department, prepare_ceo_only, reactivate_executive_root, recall_person,
    remove_department_tree, reparent_department, replace_head_and_offboard, resume_department,
    resume_departments, shutdown_person, start_person, transfer_person, validate_new_person_seed,
    wake_person, AppointOutcome, AppointRefusal, BenchLifecycleOutcome, BenchOutcome, BenchRefusal,
    CreateDepartmentOutcome, CreateDepartmentRefusal, DepartmentCreateUnit, DepartmentStaffSeed,
    DirectOutcome, HeadDecision, HeadIneligibility, HeadVacancy, HeadVacancyRefusal, HireOutcome,
    HireRefusal, NewPersonSeed, OffboardOutcome, OffboardRefusal, OwnedNewPersonSeed,
    PauseOutcome, PauseRefusal, RemoveDepartmentOutcome, ReparentOutcome, ReparentRefusal,
    RowError, SeedRejection, ShutdownKind, ShutdownOutcome, ShutdownRefusal, TransferOutcome,
    TransferRefusal, VacancyRefusal,
};
use chiefd_core::organization::{EmploymentState, PersonKind, UnitKind, UnitState};
use chiefd_core::rows::ledger::IDLE_AUTO_PARK_REASON;

fn some(s: &str) -> Option<String> {
    Some(s.to_string())
}

/// A company with a settings row and nothing else.
fn company() -> Company {
    let mut co = Company::new("acme");
    co.settings = Some(SettingsRow {
        display_slug: "acme".to_string(),
        settings: OrgSettings {
            launcher_root: None,
            supervision_interval_ms: 60000,
            acknowledgement_timeout_ms: 30000,
            acknowledgement_retry_limit: 3,
            replacement_limit: 3,
        },
    });
    co
}

fn dept(co: &mut Company, id: &str, parent: &str, name: &str, head: &str, ordinal: u64) {
    co.departments.put(
        id,
        DepartmentRow {
            parent_id: if parent.is_empty() { None } else { some(parent) },
            name: name.to_string(),
            purpose: String::new(),
            kind: if parent.is_empty() { UnitKind::Company } else { UnitKind::Department },
            transient: None,
            state: UnitState::Active,
            head_person_id: head.to_string(),
            ordinal,
            created_at: "t".to_string(),
            updated_at: "t".to_string(),
        },
    );
}

fn person(co: &mut Company, id: &str, kind: PersonKind, department: &str, ordinal: u64) {
    co.people.put(
        id,
        PersonRow {
            name: id.to_string(),
            title: "title".to_string(),
            mandate: "mandate".to_string(),
            kind,
            employment_state: EmploymentState::Active,
            department_id: department.to_string(),
            activation: "resident".to_string(),
            tools: Vec::new(),
            prompts: Vec::new(),
            ordinal,
            created_at: "t".to_string(),
            updated_at: "t".to_string(),
        },
    );
}

/// The executive root headed by `ada`, the office of the CEO headed by `cos`,
/// and engineering headed by `bo`.
fn open() -> Company {
    let mut co = company();
    dept(&mut co, "executive", "", "Executive", "ada", 0);
    dept(&mut co, "office-of-the-ceo", "executive", "Office of the CEO", "cos", 1);
    dept(&mut co, "eng", "executive", "Engineering", "bo", 2);
    person(&mut co, "ada", PersonKind::Executive, "executive", 0);
    person(&mut co, "cos", PersonKind::Head, "office-of-the-ceo", 1);
    person(&mut co, "bo", PersonKind::Worker, "eng", 2);
    co
}

fn person_mut<'a>(co: &'a mut Company, id: &str) -> &'a mut PersonRow {
    let i = co.people.find(id).expect("person");
    &mut co.people.values[i]
}

fn dept_mut<'a>(co: &'a mut Company, id: &str) -> &'a mut DepartmentRow {
    let i = co.departments.find(id).expect("department");
    &mut co.departments.values[i]
}

fn transition_mut<'a>(co: &'a mut Company, id: &str) -> &'a mut TransitionRow {
    let i = co.transitions.find(id).expect("transition");
    &mut co.transitions.values[i]
}

fn activity_mut<'a>(co: &'a mut Company, id: &str) -> &'a mut ActivityRow {
    let i = co.activity.find(id).expect("activity");
    &mut co.activity.values[i]
}

fn employ(co: &mut Company, id: &str, state: EmploymentState) {
    person_mut(co, id).employment_state = state;
}

fn pause_row(co: &mut Company, id: &str) {
    dept_mut(co, id).state = UnitState::Paused;
}

fn fence(co: &mut Company, id: &str) {
    co.fences.put(id, Fence {});
}

fn transition_row(
    co: &mut Company,
    id: &str,
    person: &str,
    action: TransitionAction,
    status: TransitionStatus,
) {
    co.transitions.put(
        id,
        TransitionRow {
            person_id: person.to_string(),
            action,
            status,
            intent_id: None,
            reason: String::new(),
            placement_department_id: None,
            requested_at: "t0".to_string(),
            handoff_deadline_at: None,
            applied_at: None,
            cancelled_at: None,
            abandoned_at: None,
        },
    );
}

fn activity_row(co: &mut Company, person: &str, desired: bool, pointer: Option<&str>) {
    co.activity.put(
        person,
        ActivityRow {
            last_desired_active: desired,
            last_operational: false,
            last_department_id: None,
            last_employment_state: None,
            agent_quiet_at: None,
            idle_since: None,
            agent_active_at: None,
            operator_wake_at: None,
            active_transition_id: pointer.map(|p| p.to_string()),
            updated_at: "t".to_string(),
        },
    );
}

/// One event already in the feed.
fn prior_event(co: &mut Company) {
    co.events.push(EventRow {
        entity: Entity::Person,
        entity_id: "x".to_string(),
        op: EventOp::Upsert,
        at: "t".to_string(),
        actor: String::new(),
    });
}

fn person_row<'a>(co: &'a Company, id: &str) -> &'a PersonRow {
    co.people.get(id).expect("person")
}

fn home(co: &Company, id: &str) -> String {
    person_row(co, id).department_id.clone()
}

fn employment(co: &Company, id: &str) -> &'static str {
    person_row(co, id).employment_state.as_str()
}

fn kind(co: &Company, id: &str) -> &'static str {
    person_row(co, id).kind.as_str()
}

fn dept_row<'a>(co: &'a Company, id: &str) -> &'a DepartmentRow {
    co.departments.get(id).expect("department")
}

fn head_of(co: &Company, id: &str) -> Option<String> {
    co.departments.get(id).map(|row| row.head_person_id.clone())
}

fn state_of(co: &Company, id: &str) -> &'static str {
    dept_row(co, id).state.as_str()
}

fn transition<'a>(co: &'a Company, id: &str) -> &'a TransitionRow {
    co.transitions.get(id).expect("transition")
}

fn transitions_of<'a>(co: &'a Company, person: &str) -> Vec<&'a TransitionRow> {
    co.transitions.values.iter().filter(|t| t.person_id == person).collect()
}

fn desired(co: &Company, person: &str) -> Option<i64> {
    co.activity.get(person).map(|row| if row.last_desired_active { 1 } else { 0 })
}

fn pointer(co: &Company, person: &str) -> Option<String> {
    co.activity.get(person).expect("activity").active_transition_id.clone()
}

/// The quiet, idle and active clocks of somebody.
fn clocks(co: &Company, person: &str) -> (Option<String>, Option<String>, Option<String>) {
    let row = co.activity.get(person).expect("activity");
    (row.agent_quiet_at.clone(), row.idle_since.clone(), row.agent_active_at.clone())
}

fn fenced(co: &Company) -> Vec<String> {
    co.fences.list()
}

/// What the staffing history says of somebody: action, from, to, reason.
fn staffing(co: &Company, person: &str) -> Vec<(String, Option<String>, Option<String>, String)> {
    co.staffing
        .iter()
        .filter(|e| e.person_id == person)
        .map(|e| {
            (
                e.action.as_str().to_string(),
                e.from_department_id.clone(),
                e.to_department_id.clone(),
                e.reason.clone(),
            )
        })
        .collect()
}

fn actions(co: &Company, person: &str) -> Vec<String> {
    staffing(co, person).into_iter().map(|(action, ..)| action).collect()
}

/// The feed: sequence, entity, entity id, op.
fn feed(co: &Company) -> Vec<(i64, String, String, String)> {
    co.events
        .iter()
        .enumerate()
        .map(|(i, e)| {
            (
                (co.event_base + i as u64 + 1) as i64,
                e.entity.name().to_string(),
                e.entity_id.clone(),
                e.op.as_str().to_string(),
            )
        })
        .collect()
}

fn dept_ids(co: &Company) -> Vec<String> {
    let mut rows: Vec<(u64, String)> = co
        .departments
        .keys
        .iter()
        .zip(co.departments.values.iter())
        .map(|(id, row)| (row.ordinal, id.clone()))
        .collect();
    rows.sort();
    rows.into_iter().map(|(_, id)| id).collect()
}

fn people_ids(co: &Company) -> Vec<String> {
    co.roster()
}

fn dept_ordinals(co: &Company) -> Vec<i64> {
    let mut v: Vec<i64> = co.departments.values.iter().map(|r| r.ordinal as i64).collect();
    v.sort();
    v
}

fn people_ordinals(co: &Company) -> Vec<i64> {
    let mut v: Vec<i64> = co.people.values.iter().map(|r| r.ordinal as i64).collect();
    v.sort();
    v
}

fn is_gapless_bijection(ordinals: &[i64]) -> bool {
    ordinals.iter().enumerate().all(|(i, o)| *o == i as i64)
}

/// A head for every unit, who is there, employed, at home in it and in one
/// headship; a unit for everybody; every parent there; the places without a
/// gap.
fn assert_chart_valid(co: &Company) {
    for (id, row) in co.departments.keys.iter().zip(co.departments.values.iter()) {
        let head = co.people.get(&row.head_person_id).expect("a head who is there");
        assert_eq!(&head.department_id, id, "a head is at home in the unit they head");
        assert_ne!(head.employment_state, EmploymentState::Departed);
        assert_ne!(head.kind, PersonKind::Worker, "a worker cannot head a department");
        match &row.parent_id {
            Some(parent) => assert!(co.departments.has(parent), "a parent that is there"),
            None => assert_eq!(id, "executive"),
        }
    }
    for (id, row) in co.people.keys.iter().zip(co.people.values.iter()) {
        assert!(co.departments.has(&row.department_id), "{id} has a unit");
        let heads = co.departments.values.iter().filter(|d| &d.head_person_id == id).count();
        match row.kind {
            PersonKind::Worker => assert_eq!(heads, 0),
            _ => assert_eq!(heads, 1, "{id} heads exactly one unit"),
        }
    }
    assert!(is_gapless_bijection(&dept_ordinals(co)));
    assert!(is_gapless_bijection(&people_ordinals(co)));
}

use chiefd_core::org_ops::{valid_entity_id, valid_prompt_template};
use chiefd_core::organization_spec::{echo, BUILTIN_TOOLS};

fn seed<'a>(kind: PersonKind, tools: &'a [String]) -> NewPersonSeed<'a> {
    NewPersonSeed {
        name: "Pat",
        title: "Head of Platform",
        mandate: "lead platform",
        kind,
        employment_state: EmploymentState::Active,
        activation: "resident",
        tools,
        prompts: &[],
    }
}

#[test]
fn bash_is_accepted_on_every_kind_of_seed() {
    let tools = vec!["bash".to_string()];
    for kind in [PersonKind::Head, PersonKind::Worker, PersonKind::Executive] {
        assert!(
            validate_new_person_seed(&seed(kind, &tools), kind).is_ok(),
            "bash must be declarable on {kind:?}"
        );
    }
}

#[test]
fn a_tools_refusal_still_enumerates_the_builtins_and_the_resource_rule() {
    let tools = vec!["bahs".to_string()];
    let rejection = validate_new_person_seed(&seed(PersonKind::Head, &tools), PersonKind::Head)
        .expect_err("a mistyped name is still refused");
    assert_eq!(rejection.field, "tools");
    assert!(
        rejection.detail.contains("read, bash, edit, write, grep, find, ls"),
        "the builtin list is still shown: {}",
        rejection.detail
    );
    assert!(
        rejection.detail.contains("granted to every person automatically"),
        "the refusal must say the builtins are automatic: {}",
        rejection.detail
    );
    assert!(
        !rejection.detail.contains("grants NO builtin"),
        "the old omission warning is false now that the floor is unconditional: {}",
        rejection.detail
    );
    assert!(
        !rejection.detail.contains("WORKER only"),
        "the worker-only clause must be gone: {}",
        rejection.detail
    );
}

#[test]
fn a_worker_tools_refusal_lists_bash_among_the_declarable_names() {
    let tools = vec![String::new()];
    let rejection = validate_new_person_seed(&seed(PersonKind::Worker, &tools), PersonKind::Worker)
        .expect_err("a blank tool name is invalid");
    assert_eq!(rejection.field, "tools");
    assert!(
        rejection.detail.contains("read, bash, edit, write, grep, find, ls"),
        "the builtin list is shown: {}",
        rejection.detail
    );
}

#[test]
fn a_mistyped_tool_name_is_refused_and_names_the_declarable_set() {
    let tools = vec!["bahs".to_string()];
    let rejection = validate_new_person_seed(&seed(PersonKind::Worker, &tools), PersonKind::Worker)
        .expect_err("a mistyped tool name must be refused, not stored");
    assert_eq!(rejection.field, "tools");
    assert!(
        rejection.detail.contains("'bahs' is not a declarable tool name"),
        "{}",
        rejection.detail
    );
    assert!(
        rejection.detail.contains("read, bash, edit, write, grep, find, ls"),
        "the refusal must name the valid ids: {}",
        rejection.detail
    );
}

#[test]
fn a_composed_org_tool_may_not_be_declared() {
    let tools = vec!["org_send".to_string()];
    let rejection = validate_new_person_seed(&seed(PersonKind::Worker, &tools), PersonKind::Worker)
        .expect_err("a composed manager tool is not declarable");
    assert_eq!(rejection.field, "tools");
    assert!(
        rejection.detail.contains("must NEVER be declared"),
        "the refusal must teach the declared/composed split: {}",
        rejection.detail
    );
}

#[test]
fn every_builtin_name_is_declarable_by_a_worker() {
    let tools: Vec<String> = BUILTIN_TOOLS.iter().map(|t| (*t).to_string()).collect();
    assert!(
        validate_new_person_seed(&seed(PersonKind::Worker, &tools), PersonKind::Worker).is_ok()
    );
}

#[test]
fn a_rejection_re_roots_under_its_seed_path_without_losing_the_detail() {
    let rejection = SeedRejection::new("tools", "why").under("staff[2].");
    assert_eq!((rejection.field.as_str(), rejection.detail.as_str()), ("staff[2].tools", "why"));
}

#[test]
fn ids_are_lowercase_words_that_start_with_a_letter() {
    for good in ["a", "eng", "eng-2", "office-of-the-ceo", &"a".repeat(64)] {
        assert!(valid_entity_id(good), "{good}");
    }
    for bad in ["", "2eng", "-eng", "Eng", "eng_2", "eng 2", "\u{e9}ng", &"a".repeat(65)] {
        assert!(!valid_entity_id(bad), "{bad}");
    }
}

#[test]
fn prompt_templates_are_plain_paths_under_prompts() {
    for good in ["prompts/a.md", "prompts/deep/er.md", "prompts/..a.md"] {
        assert!(valid_prompt_template(good), "{good}");
    }
    for bad in [
        "",
        "a.md",
        "prompts/a.txt",
        "/prompts/a.md",
        "prompts/../a.md",
        "prompts/./a.md",
        "prompts//a.md",
        "prompts\\a.md",
        " prompts/a.md",
        "prompts/a.md ",
    ] {
        assert!(!valid_prompt_template(bad), "{bad}");
    }
}

#[test]
fn each_bad_field_is_named_in_turn() {
    let reject = |s: NewPersonSeed<'_>, kind: PersonKind| {
        let e = validate_new_person_seed(&s, kind).expect_err("refused");
        (e.field, e.detail)
    };
    let good = seed(PersonKind::Worker, &[]);
    assert!(validate_new_person_seed(&good, PersonKind::Worker).is_ok());
    assert_eq!(
        reject(good, PersonKind::Head),
        (
            "kind".to_string(),
            "this seed position requires kind Head, got Worker".to_string()
        )
    );
    assert_eq!(
        reject(NewPersonSeed { name: " ", ..good }, PersonKind::Worker),
        ("name".to_string(), "name is required and must not be blank".to_string())
    );
    assert_eq!(reject(NewPersonSeed { title: "", ..good }, PersonKind::Worker).0, "title");
    assert_eq!(reject(NewPersonSeed { mandate: "\t", ..good }, PersonKind::Worker).0, "mandate");
    assert_eq!(
        reject(NewPersonSeed { activation: "often", ..good }, PersonKind::Worker),
        (
            "activation".to_string(),
            "activation must be one of resident, on-demand; got 'often'".to_string()
        )
    );
    let prompts = vec!["prompts/ok.md".to_string(), "nope".to_string()];
    assert_eq!(
        reject(NewPersonSeed { prompts: &prompts, ..good }, PersonKind::Worker).0,
        "prompts[1]"
    );
}

#[test]
fn what_a_refusal_echoes_is_bounded() {
    let long = "x".repeat(5000);
    assert!(echo(&long).len() < 200);
    assert_eq!(echo("short"), "'short'");
}
