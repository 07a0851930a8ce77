#![allow(dead_code, unused_imports)]

use chiefd_core::company::{
    ActivityRow, Company, DepartmentRow, Entity, EventOp, EventRow, Fence, OrgSettings, PersonRow,
    SettingsRow, StaffingEntry, TransitionAction, TransitionRow, TransitionStatus,
};
use chiefd_core::org_ops::{
    appoint_department_head, bench_person, bench_person_lifecycle, create_department,
    create_department_with_staff, create_department_with_staff_unit, department_is_company_root,
    hire_person, hire_person_authorized, is_ceo, move_department_members, offboard_person,
    pause_department, prepare_ceo_only, reactivate_executive_root, recall_person,
    remove_department_tree, reparent_department, replace_head_and_offboard, resume_department,
    resume_departments, shutdown_person, start_person, transfer_person, validate_new_person_seed,
    wake_person, AppointOutcome, AppointRefusal, BenchLifecycleOutcome, BenchOutcome, BenchRefusal,
    CreateDepartmentOutcome, CreateDepartmentRefusal, DepartmentCreateUnit, DepartmentStaffSeed,
    DirectOutcome, HeadDecision, HeadIneligibility, HeadVacancy, HeadVacancyRefusal, HireOutcome,
    HireRefusal, NewPersonSeed, OffboardOutcome, OffboardRefusal, OwnedNewPersonSeed,
    PauseOutcome, PauseRefusal, RemoveDepartmentOutcome, ReparentOutcome, ReparentRefusal,
    RowError, SeedRejection, ShutdownKind, ShutdownOutcome, ShutdownRefusal, TransferOutcome,
    TransferRefusal, VacancyRefusal,
};
use chiefd_core::organization::{EmploymentState, PersonKind, UnitKind, UnitState};
use chiefd_core::rows::ledger::IDLE_AUTO_PARK_REASON;

fn some(s: &str) -> Option<String> {
    Some(s.to_string())
}

/// A company with a settings row and nothing else.
fn company() -> Company {
    let mut co = Company::new("acme");
    co.settings = Some(SettingsRow {
        display_slug: "acme".to_string(),
        settings: OrgSettings {
            launcher_root: None,
            supervision_interval_ms: 60000,
            acknowledgement_timeout_ms: 30000,
            acknowledgement_retry_limit: 3,
            replacement_limit: 3,
        },
    });
    co
}

fn dept(co: &mut Company, id: &str, parent: &str, name: &str, head: &str, ordinal: u64) {
    co.departments.put(
        id,
        DepartmentRow {
            parent_id: if parent.is_empty() { None } else { some(parent) },
            name: name.to_string(),
            purpose: String::new(),
            kind: if parent.is_empty() { UnitKind::Company } else { UnitKind::Department },
            transient: None,
            state: UnitState::Active,
            head_person_id: head.to_string(),
            ordinal,
            created_at: "t".to_string(),
            updated_at: "t".to_string(),
        },
    );
}

fn person(co: &mut Company, id: &str, kind: PersonKind, department: &str, ordinal: u64) {
    co.people.put(
        id,
        PersonRow {
            name: id.to_string(),
            title: "title".to_string(),
            mandate: "mandate".to_string(),
            kind,
            employment_state: EmploymentState::Active,
            department_id: department.to_string(),
            activation: "resident".to_string(),
            tools: Vec::new(),
            prompts: Vec::new(),
            ordinal,
            created_at: "t".to_string(),
            updated_at: "t".to_string(),
        },
    );
}

/// The executive root headed by `ada`, the office of the CEO headed by `cos`,
/// and engineering headed by `bo`.
fn open() -> Company {
    let mut co = company();
    dept(&mut co, "executive", "", "Executive", "ada", 0);
    dept(&mut co, "office-of-the-ceo", "executive", "Office of the CEO", "cos", 1);
    dept(&mut co, "eng", "executive", "Engineering", "bo", 2);
    person(&mut co, "ada", PersonKind::Executive, "executive", 0);
    person(&mut co, "cos", PersonKind::Head, "office-of-the-ceo", 1);
    person(&mut co, "bo", PersonKind::Worker, "eng", 2);
    co
}

fn person_mut<'a>(co: &'a mut Company, id: &str) -> &'a mut PersonRow {
    let i = co.people.find(id).expect("person");
    &mut co.people.values[i]
}

fn dept_mut<'a>(co: &'a mut Company, id: &str) -> &'a mut DepartmentRow {
    let i = co.departments.find(id).expect("department");
    &mut co.departments.values[i]
}

fn transition_mut<'a>(co: &'a mut Company, id: &str) -> &'a mut TransitionRow {
    let i = co.transitions.find(id).expect("transition");
    &mut co.transitions.values[i]
}

fn activity_mut<'a>(co: &'a mut Company, id: &str) -> &'a mut ActivityRow {
    let i = co.activity.find(id).expect("activity");
    &mut co.activity.values[i]
}

fn employ(co: &mut Company, id: &str, state: EmploymentState) {
    person_mut(co, id).employment_state = state;
}

fn pause_row(co: &mut Company, id: &str) {
    dept_mut(co, id).state = UnitState::Paused;
}

fn fence(co: &mut Company, id: &str) {
    co.fences.put(id, Fence {});
}

fn transition_row(
    co: &mut Company,
    id: &str,
    person: &str,
    action: TransitionAction,
    status: TransitionStatus,
) {
    co.transitions.put(
        id,
        TransitionRow {
            person_id: person.to_string(),
            action,
            status,
            intent_id: None,
            reason: String::new(),
            placement_department_id: None,
            requested_at: "t0".to_string(),
            handoff_deadline_at: None,
            applied_at: None,
            cancelled_at: None,
            abandoned_at: None,
        },
    );
}

fn activity_row(co: &mut Company, person: &str, desired: bool, pointer: Option<&str>) {
    co.activity.put(
        person,
        ActivityRow {
            last_desired_active: desired,
            last_operational: false,
            last_department_id: None,
            last_employment_state: None,
            agent_quiet_at: None,
            idle_since: None,
            agent_active_at: None,
            operator_wake_at: None,
            active_transition_id: pointer.map(|p| p.to_string()),
            updated_at: "t".to_string(),
        },
    );
}

/// One event already in the feed.
fn prior_event(co: &mut Company) {
    co.events.push(EventRow {
        entity: Entity::Person,
        entity_id: "x".to_string(),
        op: EventOp::Upsert,
        at: "t".to_string(),
        actor: String::new(),
    });
}

fn person_row<'a>(co: &'a Company, id: &str) -> &'a PersonRow {
    co.people.get(id).expect("person")
}

fn home(co: &Company, id: &str) -> String {
    person_row(co, id).department_id.clone()
}

fn employment(co: &Company, id: &str) -> &'static str {
    person_row(co, id).employment_state.as_str()
}

fn kind(co: &Company, id: &str) -> &'static str {
    person_row(co, id).kind.as_str()
}

fn dept_row<'a>(co: &'a Company, id: &str) -> &'a DepartmentRow {
    co.departments.get(id).expect("department")
}

fn head_of(co: &Company, id: &str) -> Option<String> {
    co.departments.get(id).map(|row| row.head_person_id.clone())
}

fn state_of(co: &Company, id: &str) -> &'static str {
    dept_row(co, id).state.as_str()
}

fn transition<'a>(co: &'a Company, id: &str) -> &'a TransitionRow {
    co.transitions.get(id).expect("transition")
}

fn transitions_of<'a>(co: &'a Company, person: &str) -> Vec<&'a TransitionRow> {
    co.transitions.values.iter().filter(|t| t.person_id == person).collect()
}

fn desired(co: &Company, person: &str) -> Option<i64> {
    co.activity.get(person).map(|row| if row.last_desired_active { 1 } else { 0 })
}

fn pointer(co: &Company, person: &str) -> Option<String> {
    co.activity.get(person).expect("activity").active_transition_id.clone()
}

/// The quiet, idle and active clocks of somebody.
fn clocks(co: &Company, person: &str) -> (Option<String>, Option<String>, Option<String>) {
    let row = co.activity.get(person).expect("activity");
    (row.agent_quiet_at.clone(), row.idle_since.clone(), row.agent_active_at.clone())
}

fn fenced(co: &Company) -> Vec<String> {
    co.fences.list()
}

/// What the staffing history says of somebody: action, from, to, reason.
fn staffing(co: &Company, person: &str) -> Vec<(String, Option<String>, Option<String>, String)> {
    co.staffing
        .iter()
        .filter(|e| e.person_id == person)
        .map(|e| {
            (
                e.action.as_str().to_string(),
                e.from_department_id.clone(),
                e.to_department_id.clone(),
                e.reason.clone(),
            )
        })
        .collect()
}

fn actions(co: &Company, person: &str) -> Vec<String> {
    staffing(co, person).into_iter().map(|(action, ..)| action).collect()
}

/// The feed: sequence, entity, entity id, op.
fn feed(co: &Company) -> Vec<(i64, String, String, String)> {
    co.events
        .iter()
        .enumerate()
        .map(|(i, e)| {
            (
                (co.event_base + i as u64 + 1) as i64,
                e.entity.name().to_string(),
                e.entity_id.clone(),
                e.op.as_str().to_string(),
            )
        })
        .collect()
}

fn dept_ids(co: &Company) -> Vec<String> {
    let mut rows: Vec<(u64, String)> = co
        .departments
        .keys
        .iter()
        .zip(co.departments.values.iter())
        .map(|(id, row)| (row.ordinal, id.clone()))
        .collect();
    rows.sort();
    rows.into_iter().map(|(_, id)| id).collect()
}

fn people_ids(co: &Company) -> Vec<String> {
    co.roster()
}

fn dept_ordinals(co: &Company) -> Vec<i64> {
    let mut v: Vec<i64> = co.departments.values.iter().map(|r| r.ordinal as i64).collect();
    v.sort();
    v
}

fn people_ordinals(co: &Company) -> Vec<i64> {
    let mut v: Vec<i64> = co.people.values.iter().map(|r| r.ordinal as i64).collect();
    v.sort();
    v
}

fn is_gapless_bijection(ordinals: &[i64]) -> bool {
    ordinals.iter().enumerate().all(|(i, o)| *o == i as i64)
}

/// A head for every unit, who is there, employed, at home in it and in one
/// headship; a unit for everybody; every parent there; the places without a
/// gap.
fn assert_chart_valid(co: &Company) {
    for (id, row) in co.departments.keys.iter().zip(co.departments.values.iter()) {
        let head = co.people.get(&row.head_person_id).expect("a head who is there");
        assert_eq!(&head.department_id, id, "a head is at home in the unit they head");
        assert_ne!(head.employment_state, EmploymentState::Departed);
        assert_ne!(head.kind, PersonKind::Worker, "a worker cannot head a department");
        match &row.parent_id {
            Some(parent) => assert!(co.departments.has(parent), "a parent that is there"),
            None => assert_eq!(id, "executive"),
        }
    }
    for (id, row) in co.people.keys.iter().zip(co.people.values.iter()) {
        assert!(co.departments.has(&row.department_id), "{id} has a unit");
        let heads = co.departments.values.iter().filter(|d| &d.head_person_id == id).count();
        match row.kind {
            PersonKind::Worker => assert_eq!(heads, 0),
            _ => assert_eq!(heads, 1, "{id} heads exactly one unit"),
        }
    }
    assert!(is_gapless_bijection(&dept_ordinals(co)));
    assert!(is_gapless_bijection(&people_ordinals(co)));
}

const AT: &str = "2026-07-25T00:00:00.000Z";

/// Two engineers besides the one who heads engineering.
fn seed_eng_workers(co: &mut Company) {
    person(co, "dana", PersonKind::Worker, "eng", 3);
    person(co, "eli", PersonKind::Worker, "eng", 4);
}

/// A released transfer of `dana`, which their activity points at.
fn seed_released_transfer(co: &mut Company) {
    let id = "transition:9:dana:transfer";
    transition_row(co, id, "dana", TransitionAction::Transfer, TransitionStatus::Ready);
    let row = transition_mut(co, id);
    row.reason = "transferred dana".to_string();
    row.handoff_deadline_at = some("t9");
    row.placement_department_id = some("eng");
    activity_row(co, "dana", false, Some(id));
}

fn to_the_office(co: &mut Company, person: &str, intent: &str, actor: &str) -> TransferOutcome {
    transfer_person(co, person, "office-of-the-ceo", intent, AT, actor, None).unwrap()
}

fn move_to_the_office(co: &mut Company, people: &[&str], intent: &str) -> TransferOutcome {
    let people: Vec<String> = people.iter().map(|p| p.to_string()).collect();
    move_department_members(co, "eng", "office-of-the-ceo", &people, intent, AT, "chief").unwrap()
}

fn moved(people: &[&str]) -> TransferOutcome {
    TransferOutcome::Applied { moved: people.iter().map(|p| p.to_string()).collect() }
}

fn refused(reason: TransferRefusal) -> TransferOutcome {
    TransferOutcome::Refused { reason }
}

#[test]
fn transfer_moves_home_assigned_records_staffing_and_keeps_the_bijection() {
    let mut co = open();
    seed_eng_workers(&mut co);
    let out = to_the_office(&mut co, "dana", "person-transfer:1", "chief");
    assert_eq!(out, moved(&["dana"]));
    assert_eq!(home(&co, "dana"), "office-of-the-ceo");
    assert!(is_gapless_bijection(&people_ordinals(&co)));
    assert_eq!(
        staffing(&co, "dana"),
        vec![(
            "transferred".to_string(),
            some("eng"),
            some("office-of-the-ceo"),
            "transferred by chief".to_string(),
        )],
        "the ledger line is authored from the act and names the actor"
    );
}

#[test]
fn transfer_authors_its_ledger_line_from_the_act_and_the_actor() {
    let mut co = open();
    seed_eng_workers(&mut co);
    let out = to_the_office(&mut co, "dana", "person-transfer:actor-test", "chief");
    assert_eq!(out, moved(&["dana"]));
    assert_eq!(staffing(&co, "dana")[0].3, "transferred by chief");
    let actor = co
        .events
        .iter()
        .find(|e| e.entity == Entity::Person && e.entity_id == "dana")
        .map(|e| e.actor.clone());
    assert_eq!(actor, some("chief"));
}

#[test]
fn transfer_with_no_actor_records_the_act_alone() {
    let mut co = open();
    seed_eng_workers(&mut co);
    to_the_office(&mut co, "dana", "person-transfer:no-actor", "");
    assert_eq!(staffing(&co, "dana")[0].3, "transferred");
}

#[test]
fn transfer_refuses_unknown_person_destination_and_exec_root_and_head() {
    let mut co = open();
    dept(&mut co, "sink", "executive", "Sink", "sink-head", 3);
    pause_row(&mut co, "sink");
    let mut go = |person: &str, to: &str| {
        transfer_person(&mut co, person, to, "i", "t", "a", None).unwrap()
    };
    assert_eq!(go("ghost", "eng"), refused(TransferRefusal::UnknownPerson));
    assert_eq!(go("bo", "does-not-exist"), refused(TransferRefusal::UnknownDestination));
    assert_eq!(go("bo", "sink"), refused(TransferRefusal::DestinationPaused));
    assert_eq!(go("ada", "eng"), refused(TransferRefusal::ExecRootProtected));
    assert_eq!(
        go("bo", "office-of-the-ceo"),
        refused(TransferRefusal::HeadVacancy(HeadVacancyRefusal::Required {
            person_id: "bo".into(),
            department_id: "eng".into(),
            eligible_successor_ids: Vec::new(),
        }))
    );
}

#[test]
fn transfer_refuses_an_active_destination_below_a_paused_ancestor() {
    let mut co = open();
    dept(&mut co, "sink", "eng", "Sink", "sink-head", 3);
    pause_row(&mut co, "eng");
    assert_eq!(
        transfer_person(&mut co, "bo", "sink", "i", "t", "a", None).unwrap(),
        refused(TransferRefusal::DestinationPaused),
    );
}

#[test]
fn transfer_supersedes_an_open_transition_with_the_transfer_marker() {
    let mut co = open();
    seed_eng_workers(&mut co);
    transition_row(&mut co, "open-1", "dana", TransitionAction::Park, TransitionStatus::Ready);
    activity_row(&mut co, "dana", false, Some("open-1"));
    to_the_office(&mut co, "dana", "person-transfer:9", "chief");
    let row = transition(&co, "open-1");
    assert_eq!(row.status, TransitionStatus::Cancelled);
    assert_eq!(row.reason, "superseded-by-transfer:person-transfer:9");
    assert_eq!(
        pointer(&co, "dana"),
        None,
        "the superseded transition cannot remain dana's active pointer"
    );
}

#[test]
fn transfer_adopts_a_released_transition_instead_of_superseding_it() {
    let mut co = open();
    seed_eng_workers(&mut co);
    seed_released_transfer(&mut co);
    let out = to_the_office(&mut co, "dana", "person-transfer:9", "chief");
    assert_eq!(out, moved(&["dana"]));
    assert_eq!(transitions_of(&co, "dana").len(), 1, "adoption mints no replacement transition");
    assert_eq!(
        transition(&co, "transition:9:dana:transfer").status,
        TransitionStatus::Ready,
        "a released transition is consumed by the reconcile, never superseded"
    );
    assert_eq!(
        pointer(&co, "dana"),
        some("transition:9:dana:transfer"),
        "the ADOPTED handoff stays dana's active pointer"
    );
    assert_eq!(home(&co, "dana"), "office-of-the-ceo");
}

#[test]
fn move_department_members_still_supersedes_a_ready_transition_unconditionally() {
    let mut co = open();
    seed_eng_workers(&mut co);
    seed_released_transfer(&mut co);
    move_to_the_office(&mut co, &["dana"], "unit-move:9");
    assert_eq!(
        transition(&co, "transition:9:dana:transfer").status,
        TransitionStatus::Cancelled,
        "the batch move keeps its unconditional supersede"
    );
}

#[test]
fn transfer_preserves_launch_intent_and_never_touches_supervision() {
    let mut co = open();
    seed_eng_workers(&mut co);
    fence(&mut co, "dana");
    to_the_office(&mut co, "dana", "person-transfer:2", "chief");
    assert_eq!(
        fenced(&co),
        vec!["dana".to_string()],
        "launch-intent membership is preserved by a transfer"
    );
}

#[test]
fn transfer_emits_row_level_touches_as_one_contiguous_seq_run() {
    let mut co = open();
    seed_eng_workers(&mut co);
    transition_row(&mut co, "open-1", "dana", TransitionAction::Park, TransitionStatus::Ready);
    to_the_office(&mut co, "dana", "person-transfer:7", "chief");
    let rows = feed(&co);
    let ops: Vec<(&str, &str, &str)> = rows
        .iter()
        .map(|(_, entity, id, op)| (entity.as_str(), id.as_str(), op.as_str()))
        .collect();
    assert_eq!(
        ops,
        vec![
            ("transition", "open-1", "upsert"),
            ("person", "dana", "upsert"),
            ("person", "bo", "upsert"),
        ],
    );
    assert_eq!(rows.iter().map(|(seq, ..)| *seq).collect::<Vec<_>>(), vec![1, 2, 3]);
}

#[test]
fn unrelated_prior_event_does_not_reject_a_direct_transfer() {
    let mut co = open();
    seed_eng_workers(&mut co);
    prior_event(&mut co);
    let out = to_the_office(&mut co, "dana", "i", "chief");
    assert_eq!(out, moved(&["dana"]));
    assert_eq!(home(&co, "dana"), "office-of-the-ceo");
}

#[test]
fn move_members_moves_all_listed_and_keeps_bijection() {
    let mut co = open();
    seed_eng_workers(&mut co);
    let out = move_to_the_office(&mut co, &["dana", "eli"], "dept-move:1");
    assert_eq!(out, moved(&["dana", "eli"]));
    assert_eq!(home(&co, "dana"), "office-of-the-ceo");
    assert_eq!(home(&co, "eli"), "office-of-the-ceo");
    assert!(is_gapless_bijection(&people_ordinals(&co)));
}

#[test]
fn move_members_is_all_or_nothing_when_one_is_not_a_member() {
    let mut co = open();
    seed_eng_workers(&mut co);
    let out = move_to_the_office(&mut co, &["dana", "cos"], "dept-move:2");
    assert_eq!(out, refused(TransferRefusal::NotAMember));
    assert_eq!(home(&co, "dana"), "eng", "nothing moved: all or nothing");
}

#[test]
fn move_members_derives_every_ordinary_member_when_the_batch_is_empty() {
    let mut co = open();
    seed_eng_workers(&mut co);
    let out = move_to_the_office(&mut co, &[], "dept-move:derived");
    assert_eq!(out, moved(&["dana", "eli"]));
    assert_eq!(home(&co, "dana"), "office-of-the-ceo");
    assert_eq!(home(&co, "eli"), "office-of-the-ceo");
    assert_eq!(home(&co, "bo"), "eng", "the head stays");
    assert!(is_gapless_bijection(&people_ordinals(&co)));
}

#[test]
fn move_members_derivation_skips_the_departed() {
    let mut co = open();
    seed_eng_workers(&mut co);
    person(&mut co, "gone", PersonKind::Worker, "eng", 5);
    employ(&mut co, "gone", EmploymentState::Departed);
    let out = move_to_the_office(&mut co, &[], "dept-move:derived-2");
    assert_eq!(out, moved(&["dana", "eli"]));
    assert_eq!(home(&co, "gone"), "eng", "a departed person is left in place");
}

#[test]
fn move_members_honours_an_explicit_batch_rather_than_deriving_one() {
    let mut co = open();
    seed_eng_workers(&mut co);
    let out = move_to_the_office(&mut co, &["dana"], "dept-move:explicit");
    assert_eq!(out, moved(&["dana"]));
    assert_eq!(home(&co, "eli"), "eng", "eli was not named, so eli did not move");
}

#[test]
fn move_members_refuses_listing_the_head() {
    let mut co = open();
    seed_eng_workers(&mut co);
    let out = move_to_the_office(&mut co, &["dana", "bo"], "dept-move:3");
    assert_eq!(out, refused(TransferRefusal::HeadNeedsSuccessor));
    assert_eq!(home(&co, "dana"), "eng");
}

#[test]
fn a_departed_mover_is_refused() {
    let mut co = open();
    seed_eng_workers(&mut co);
    employ(&mut co, "dana", EmploymentState::Departed);
    let before = co.clone();
    let out = to_the_office(&mut co, "dana", "i", "chief");
    let TransferOutcome::Refused { reason } = out else {
        panic!("a departed person does not move");
    };
    assert_eq!(reason.code(), "person-departed");
    assert_eq!(co, before);
}

#[test]
fn a_transfer_with_a_decision_for_somebody_who_heads_nothing_is_refused() {
    for role in [PersonKind::Worker, PersonKind::Executive] {
        let mut co = open();
        person(&mut co, "quinn", role, "eng", 3);
        let before = co.copy_all();
        for decision in [
            HeadVacancy::Dissolve,
            HeadVacancy::HandOver { successor_person_id: "bo".into() },
        ] {
            let out = transfer_person(
                &mut co,
                "quinn",
                "office-of-the-ceo",
                "intent",
                "2026-07-25T00:00:00.000Z",
                "operator",
                Some(&decision),
            )
            .unwrap();
            let reason = TransferRefusal::HeadVacancy(HeadVacancyRefusal::Invalid {
                department_id: String::new(),
                because: VacancyRefusal::HeadsNothing,
            });
            assert_eq!(reason.code(), "vacancy-decision-invalid");
            assert!(reason.detail().contains("nothing to vacate"));
            assert_eq!(out, TransferOutcome::Refused { reason });
            assert_eq!(co, before);
        }
    }
}

#[test]
fn a_transfer_asks_about_the_unit_somebody_heads_wherever_they_sit() {
    let mut co = open();
    person_mut(&mut co, "cos").department_id = "executive".into();
    dept(&mut co, "archive", "office-of-the-ceo", "Archive", "ari", 3);
    person(&mut co, "ari", PersonKind::Head, "archive", 3);
    let before = co.copy_all();
    let stranger = HeadVacancy::HandOver { successor_person_id: "nobody".into() };
    for (decision, because) in [
        (
            HeadVacancy::Dissolve,
            VacancyRefusal::StillHasChildren { child_department_ids: vec!["archive".into()] },
        ),
        (stranger, VacancyRefusal::SuccessorNotAMember { successor_person_id: "nobody".into() }),
    ] {
        let out =
            transfer_person(&mut co, "cos", "eng", "intent", "t1", "", Some(&decision)).unwrap();
        let reason = TransferRefusal::HeadVacancy(HeadVacancyRefusal::Invalid {
            department_id: "office-of-the-ceo".into(),
            because,
        });
        assert_eq!(out, TransferOutcome::Refused { reason });
        assert_eq!(co, before);
    }
    let out = transfer_person(&mut co, "cos", "eng", "intent", "t1", "", None).unwrap();
    assert!(matches!(
        out,
        TransferOutcome::Refused {
            reason: TransferRefusal::HeadVacancy(HeadVacancyRefusal::Required { .. })
        }
    ));
    assert_eq!(co, before);
}
