//! What a decision tells: one event for each thing it touched.

use vstd::prelude::*;

use crate::company::{CompanyModel, Entity, EventModel, SettingsModel, TouchModel};
use crate::laws::decision::Decision;
use crate::laws::frames::{
    lemma_delete_departments, lemma_left_behind_all, lemma_move_all, lemma_number_departments,
    lemma_number_people, lemma_rehome, lemma_seeded_all,
};
use crate::org_ops::create::hire_line;
use crate::org_ops::decisions::{HeadDecisionModel, HeadVacancyModel};
use crate::org_ops::guards::ledger_line;
use crate::org_projection::CreateModel;
use crate::organization::PersonKind;
use crate::organization_spec::{bounded_text, echo_text, text_bytes, MAX_REFUSAL_ECHO_BYTES};
use crate::rows::feed::{event_of, first_touches, lemma_first_touches};
use crate::text::Text;

verus! {

/// Every row change of a decision becomes an event by the end of it: nothing is
/// left untold.
pub proof fn law_nothing_is_left_untold(c: CompanyModel, d: Decision, at: Text, actor: Text)
    ensures
        c.decided(d, at, actor).touches == Seq::<TouchModel>::empty(),
{
}

/// Whether a decision tells of each thing at most once, whatever it did to it.
pub open spec fn tells_once(d: Decision) -> bool {
    d is Create || d is Hire || d is Appoint || d is Transfer || d is Offboard || d is ReplaceHead
        || d is RemoveTree || d is Bench || d is Start || d is Wake || d is Recall || d
        is ReactivateRoot
}

/// The clock a decision is made by.
pub open spec fn clock(d: Decision, at: Text) -> Text {
    match d {
        Decision::Create { proposal } => proposal.at,
        Decision::Hire { newcomer } => newcomer.at,
        _ => at,
    }
}

/// Whether the events added after the first `from` each name another thing, and
/// carry this clock and this actor.
pub open spec fn told_once(events: Seq<EventModel>, from: int, at: Text, actor: Text) -> bool {
    &&& forall|i: int, j: int|
        from <= i < j < events.len() ==> !(events[i].entity == events[j].entity
            && #[trigger] events[i].entity_id == #[trigger] events[j].entity_id)
    &&& forall|i: int|
        from <= i < events.len() ==> (#[trigger] events[i]).at == at && events[i].actor == actor
}

proof fn lemma_emitted_once(x: CompanyModel, c: CompanyModel, at: Text, actor: Text)
    requires
        x.events == c.events,
    ensures
        told_once(x.deduped().emitted(at, actor).events, c.events.len() as int, at, actor),
{
    let r = x.deduped().emitted(at, actor);
    let n = c.events.len() as int;
    let t = first_touches(x.touches);
    lemma_first_touches(x.touches);
    assert forall|i: int| n <= i < r.events.len() implies #[trigger] r.events[i]
        == event_of(t[i - n], at, actor) by {}
    assert forall|i: int, j: int| n <= i < j < r.events.len() implies !(r.events[i].entity
        == r.events[j].entity && #[trigger] r.events[i].entity_id
        == #[trigger] r.events[j].entity_id) by {
        assert(r.events[i] == event_of(t[i - n], at, actor));
        assert(r.events[j] == event_of(t[j - n], at, actor));
        assert(!(t[i - n].entity == t[j - n].entity && t[i - n].entity_id == t[j - n].entity_id));
    }
}

proof fn lemma_vacated_events(
    c: CompanyModel,
    person: Text,
    decision: HeadVacancyModel,
    reason: Text,
    at: Text,
)
    ensures
        c.vacated(person, decision, reason, at).events == c.events,
{
    if let Some(unit) = c.headed_by(person) {
        if decision is Dissolve {
            let left = match c.departments[unit].parent_id {
                Some(parent) => {
                    lemma_rehome(c, c.people_in(seq![unit]), person, unit, parent, reason, at);
                    c.rehome(c.people_in(seq![unit]), person, unit, parent, reason, at)
                },
                None => c,
            };
            let cut = left.delete_department(unit);
            lemma_number_departments(cut, cut.department_order(), at);
        }
    }
}

proof fn lemma_created_once(c: CompanyModel, p: CreateModel, actor: Text)
    ensures
        told_once(
            c.department_created(p, actor).events,
            c.events.len() as int,
            p.at,
            actor,
        ),
{
    let head = p.head.person_id();
    let there = match p.vacates {
        Some(HeadVacancyModel::Dissolve) => c.move_person(head, p.parent_id, p.at),
        _ => c,
    };
    if let Some(decision) = p.vacates {
        lemma_vacated_events(there, head, decision, p.audit_reason, p.at);
    }
    let unit = c.head_freed(p).insert_department(
        p.department_id,
        p.parent_id,
        p.name,
        p.purpose,
        p.unit,
        head,
        p.at,
    );
    let headed = match p.head {
        HeadDecisionModel::AppointExisting { person_id } => unit.head_appointed(
            person_id,
            if c.people.dom().contains(person_id) {
                Some(c.people[person_id].department_id)
            } else {
                None
            },
            p,
        ),
        HeadDecisionModel::HireNew { person_id, seed } => unit.seeded(
            person_id,
            p.department_id,
            seed,
            p.audit_reason,
            p.at,
        ),
    };
    assert(headed.events == c.events);
    lemma_seeded_all(headed, p.staff, p.department_id, p.audit_reason, p.at);
    let staffed = headed.seeded_all(p.staff, p.department_id, p.audit_reason, p.at);
    lemma_number_departments(staffed, staffed.department_order(), p.at);
    let ordered = staffed.refresh_department_order(p.at);
    lemma_number_people(ordered, ordered.people_order(), p.at);
    lemma_emitted_once(ordered.refresh_people_order(p.at), c, p.at, actor);
}

proof fn lemma_transferred_once(
    c: CompanyModel,
    person: Text,
    destination: Text,
    intent: Text,
    at: Text,
    actor: Text,
    vacates: Option<HeadVacancyModel>,
)
    ensures
        told_once(
            c.transferred(person, destination, intent, at, actor, vacates).events,
            c.events.len() as int,
            at,
            actor,
        ),
{
    let reason = ledger_line("transferred"@, actor);
    lemma_move_all(c, seq![person], destination, intent, reason, true, at);
    let there = c.move_all(seq![person], destination, intent, reason, true, at);
    lemma_number_people(there, there.people_order(), at);
    let moved = there.refresh_people_order(at);
    let last = match vacates {
        Some(decision) => {
            lemma_vacated_events(moved, person, decision, reason, at);
            moved.vacated(person, decision, reason, at).set_person_kind(
                person,
                PersonKind::Worker,
                at,
            )
        },
        None => moved,
    };
    lemma_emitted_once(last, c, at, actor);
}

proof fn lemma_removed_once(c: CompanyModel, department: Text, at: Text, actor: Text)
    ensures
        told_once(
            c.department_removed(department, at, actor).events,
            c.events.len() as int,
            at,
            actor,
        ),
{
    let units = c.subtree_descending(department);
    let people = c.people_in(units);
    let rests = c.departments[department].parent_id->0;
    let reason = "department "@ + department + " removed"@;
    lemma_left_behind_all(c, people, rests, reason, at);
    let left = c.left_behind_all(people, rests, reason, at);
    lemma_delete_departments(left, units);
    let cut = left.delete_departments(units);
    lemma_number_departments(cut, cut.department_order(), at);
    let ordered = cut.refresh_department_order(at);
    lemma_number_people(ordered, ordered.people_order(), at);
    lemma_emitted_once(ordered.refresh_people_order(at), c, at, actor);
}

/// Whether the last thing on the way to `r` was to tell of each thing once.
spec fn tells(r: CompanyModel, c: CompanyModel, at: Text, actor: Text) -> bool {
    exists|x: CompanyModel| #[trigger] x.deduped().emitted(at, actor) == r && x.events == c.events
}

proof fn lemma_tells(r: CompanyModel, c: CompanyModel, at: Text, actor: Text)
    requires
        tells(r, c, at, actor),
    ensures
        told_once(r.events, c.events.len() as int, at, actor),
{
    let x = choose|x: CompanyModel| #[trigger]
        x.deduped().emitted(at, actor) == r && x.events == c.events;
    lemma_emitted_once(x, c, at, actor);
}

proof fn lemma_appointed_once(
    c: CompanyModel,
    department: Text,
    successor: Text,
    demote_to: Option<Text>,
    at: Text,
    actor: Text,
)
    ensures
        tells(c.appointed(department, successor, demote_to, at, actor), c, at, actor),
{
}

proof fn lemma_offboarded_once(c: CompanyModel, person: Text, at: Text, actor: Text)
    ensures
        tells(c.offboarded(person, at, actor), c, at, actor),
{
}

proof fn lemma_head_replaced_once(
    c: CompanyModel,
    head: Text,
    successor: Text,
    at: Text,
    actor: Text,
)
    ensures
        tells(c.head_replaced(head, successor, at, actor), c, at, actor),
{
}

proof fn lemma_benched_once(c: CompanyModel, person: Text, at: Text, actor: Text)
    ensures
        tells(c.benched(person, at, actor), c, at, actor),
{
}

proof fn lemma_started_once(c: CompanyModel, person: Text, at: Text, actor: Text)
    ensures
        tells(c.started(person, at, actor), c, at, actor),
{
}

proof fn lemma_woken_once(c: CompanyModel, person: Text, at: Text, actor: Text)
    ensures
        tells(c.woken(person, at, actor), c, at, actor),
{
}

proof fn lemma_recalled_once(c: CompanyModel, person: Text, at: Text, actor: Text)
    ensures
        tells(c.recalled(person, at, actor), c, at, actor),
{
}

proof fn lemma_reactivated_once(c: CompanyModel, at: Text, actor: Text)
    ensures
        tells(c.reactivated(at, actor), c, at, actor),
{
}

/// Where a decision tells of a thing once, the events it adds each name another
/// thing, and carry its clock and its actor.
pub proof fn law_one_event_to_a_thing(c: CompanyModel, d: Decision, at: Text, actor: Text)
    requires
        tells_once(d),
    ensures
        told_once(
            c.decided(d, at, actor).events,
            c.events.len() as int,
            clock(d, at),
            actor,
        ),
{
    match d {
        Decision::Create { proposal } => {
            lemma_created_once(c, proposal, actor);
        },
        Decision::Hire { newcomer } => {
            let line = hire_line(newcomer.person_id, newcomer.department_id);
            let there = c.seeded(
                newcomer.person_id,
                newcomer.department_id,
                newcomer.seed,
                line,
                newcomer.at,
            );
            lemma_number_people(there, there.people_order(), newcomer.at);
            lemma_emitted_once(there.refresh_people_order(newcomer.at), c, newcomer.at, actor);
        },
        Decision::Transfer { person, destination, intent, vacates } => {
            lemma_transferred_once(c, person, destination, intent, at, actor, vacates);
        },
        Decision::RemoveTree { department } => {
            lemma_removed_once(c, department, at, actor);
        },
        Decision::Appoint { department, successor, demote_to } => {
            lemma_appointed_once(c, department, successor, demote_to, at, actor);
            lemma_tells(c.appointed(department, successor, demote_to, at, actor), c, at, actor);
        },
        Decision::Offboard { person } => {
            lemma_offboarded_once(c, person, at, actor);
            lemma_tells(c.offboarded(person, at, actor), c, at, actor);
        },
        Decision::ReplaceHead { head, successor } => {
            lemma_head_replaced_once(c, head, successor, at, actor);
            lemma_tells(c.head_replaced(head, successor, at, actor), c, at, actor);
        },
        Decision::Bench { person } => {
            lemma_benched_once(c, person, at, actor);
            lemma_tells(c.benched(person, at, actor), c, at, actor);
        },
        Decision::Start { person } => {
            lemma_started_once(c, person, at, actor);
            lemma_tells(c.started(person, at, actor), c, at, actor);
        },
        Decision::Wake { person } => {
            lemma_woken_once(c, person, at, actor);
            lemma_tells(c.woken(person, at, actor), c, at, actor);
        },
        Decision::Recall { person } => {
            lemma_recalled_once(c, person, at, actor);
            lemma_tells(c.recalled(person, at, actor), c, at, actor);
        },
        Decision::ReactivateRoot => {
            lemma_reactivated_once(c, at, actor);
            lemma_tells(c.reactivated(at, actor), c, at, actor);
        },
        _ => {},
    }
}

// ---------------------------------------------------------------------------
// Settings
// ---------------------------------------------------------------------------

/// Publishing a launcher root and reading the settings gives it back, with the
/// policy and the name as they were; one event says so, and nothing else
/// changes.
pub proof fn law_a_published_root_is_read_back(
    c: CompanyModel,
    at: Text,
    launcher_root: Text,
)
    requires
        c.settings is Some,
        c.touches.len() == 0,
    ensures
        ({
            let r = c.launcher_root_published(at, launcher_root);
            &&& r.org_settings() == Some(
                SettingsModel { launcher_root: Some(launcher_root), ..c.org_settings()->0 },
            )
            &&& r.display_slug() == c.display_slug()
            &&& r.last_seq() == c.last_seq() + 1
            &&& r.events.drop_last() == c.events
            &&& r.events.last().entity == Entity::Org
            &&& r.events.last().entity_id == c.slug
            &&& r == CompanyModel { settings: r.settings, events: r.events, ..c }
        }),
{
    let r = c.launcher_root_published(at, launcher_root);
    assert(r.events.drop_last() =~= c.events);
    assert(r.touches =~= c.touches);
}

// ---------------------------------------------------------------------------
// What a refusal repeats
// ---------------------------------------------------------------------------

proof fn lemma_bytes_of_both(a: Text, b: Text)
    ensures
        text_bytes(a + b) == text_bytes(a) + text_bytes(b),
    decreases b.len(),
{
    if b.len() == 0 {
        assert(a + b =~= a);
    } else {
        lemma_bytes_of_both(a, b.drop_last());
        assert((a + b).drop_last() =~= a + b.drop_last());
        assert((a + b).last() == b.last());
    }
}

proof fn lemma_bounded(t: Text)
    ensures
        text_bytes(bounded_text(t)) <= MAX_REFUSAL_ECHO_BYTES,
        bounded_text(t).is_prefix_of(t),
    decreases t.len(),
{
    if text_bytes(t) > MAX_REFUSAL_ECHO_BYTES {
        lemma_bounded(t.drop_last());
    }
}

/// A refusal repeats no more of a caller's value than its bound, and the two
/// quotes and the ellipsis around it.
pub proof fn law_an_echo_is_bounded(t: Text)
    ensures
        text_bytes(echo_text(t)) <= MAX_REFUSAL_ECHO_BYTES + 5,
        bounded_text(t).is_prefix_of(t),
{
    lemma_bounded(t);
    reveal_strlit("'");
    reveal_strlit("'…");
    let q = "'"@;
    let e = "'…"@;
    reveal_with_fuel(text_bytes, 3);
    assert(text_bytes(q) == 1) by {
        assert(q.drop_last() =~= Seq::empty());
    }
    assert(text_bytes(e) == 4) by {
        assert(e.drop_last() =~= q);
        assert(e.last() == '…');
    }
    lemma_bytes_of_both(q, t);
    lemma_bytes_of_both(q + t, q);
    lemma_bytes_of_both(q, bounded_text(t));
    lemma_bytes_of_both(q + bounded_text(t), e);
}

} // verus!
