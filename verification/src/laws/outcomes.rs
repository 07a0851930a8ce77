//! What the rows say once a decision about one person or one unit is applied.

use vstd::prelude::*;

use crate::company::{
    ActivityModel, CompanyModel, DepartmentModel, PersonModel, StaffingAction, StaffingModel,
    TransitionAction, TransitionModel, TransitionStatus,
};
use crate::laws::decision::Decision;
use crate::laws::frames::{
    lemma_clear_fences_in, lemma_resume_all, lemma_retract_in, lemma_swept_all, lemma_with_last,
};
use crate::laws::ledger::lemma_open_transition;
use crate::laws::seats::lemma_first_of;
use crate::org_ops::guards::ledger_line;
use crate::org_ops::shutdown::ShutdownKindModel;
use crate::org_view::first_where;
use crate::organization::{EmploymentState, PersonKind, UnitState};
use crate::rows::ledger::{handoff_deadline, transition_id};
use crate::table::{lemma_finite_listing, listing};
use crate::text::{text_lt, Text};

verus! {

// ---------------------------------------------------------------------------
// Words
// ---------------------------------------------------------------------------

/// The activity of somebody before a decision: nothing but an empty row where
/// nothing is known of them.
pub open spec fn known_of(c: CompanyModel, p: Text) -> ActivityModel {
    if c.activity.dom().contains(p) {
        c.activity[p]
    } else {
        ActivityModel {
            last_desired_active: false,
            last_operational: false,
            last_department_id: None,
            last_employment_state: None,
            agent_quiet_at: None,
            idle_since: None,
            agent_active_at: None,
            operator_wake_at: None,
            active_transition_id: None,
            updated_at: Seq::empty(),
        }
    }
}

/// Whether nothing of a company is other than it was but its units, its people,
/// their history and their lifecycle.
pub open spec fn rest_kept(c: CompanyModel, r: CompanyModel) -> bool {
    &&& r.slug == c.slug
    &&& r.settings == c.settings
    &&& r.activity_ledger == c.activity_ledger
    &&& r.stood_down == c.stood_down
    &&& r.event_base == c.event_base
}

/// Whether the lifecycle of everybody is as it was: what is open, what is known of
/// them and who is to be started.
pub open spec fn lifecycle_kept(c: CompanyModel, r: CompanyModel) -> bool {
    &&& r.transitions == c.transitions
    &&& r.activity == c.activity
    &&& r.fences.dom() == c.fences.dom()
    &&& r.transition_seq == c.transition_seq
    &&& r.quiesce_since == c.quiesce_since
}

/// What a transition that gave way says: cancelled, when, and for what.
pub open spec fn given_way(t: TransitionModel, reason: Text, at: Text) -> TransitionModel {
    TransitionModel {
        status: TransitionStatus::Cancelled,
        reason,
        cancelled_at: Some(at),
        ..t
    }
}

/// Whether somebody's open transition gave way, and every other is as it was.
pub open spec fn gave_way(
    c: CompanyModel,
    r: CompanyModel,
    person: Text,
    reason: Text,
    at: Text,
) -> bool {
    forall|t: Text| #[trigger]
        c.transitions.dom().contains(t) ==> r.transitions.dom().contains(t) && r.transitions[t]
            == if c.open_transition(person) == Some(t) {
            given_way(c.transitions[t], reason, at)
        } else {
            c.transitions[t]
        }
}

/// A line of the staffing history.
pub open spec fn line(
    person_id: Text,
    action: StaffingAction,
    from: Option<Text>,
    to: Option<Text>,
    reason: Text,
    at: Text,
) -> StaffingModel {
    StaffingModel {
        person_id,
        action,
        from_department_id: from,
        to_department_id: to,
        reason,
        at,
    }
}

/// Somebody's open transition is the first in id order that is theirs and waits
/// for a handoff, is overdue or is ready; the one that stands ready for an action
/// is the first that is theirs, is about it and is ready.
pub proof fn law_what_is_open(c: CompanyModel, person: Text, action: TransitionAction, t: Text)
    requires
        c.finite(),
    ensures
        c.open_transition(person) == Some(t) <==> open_for(c, person, t) && forall|s: Text|
            #[trigger] open_for(c, person, s) && s != t ==> text_lt(t, s),
        c.open_transition(person) is None <==> forall|s: Text| !#[trigger] open_for(c, person, s),
        c.ready_transition(person, action) == Some(t) <==> ready_for(c, person, action, t)
            && forall|s: Text| #[trigger]
            ready_for(c, person, action, s) && s != t ==> text_lt(t, s),
        c.ready_transition(person, action) is None <==> forall|s: Text| !#[trigger] ready_for(
            c,
            person,
            action,
            s,
        ),
{
    let f = |t: Text| c.transitions[t].person_id == person && c.transitions[t].status.open();
    lemma_first_of(c.transitions.dom(), f, t);
    assert(c.open_transition(person) == first_where(
        listing(c.transitions.dom()),
        f,
    ));
    assert forall|s: Text| #[trigger] open_for(c, person, s) <==> c.transitions.dom().contains(s)
        && f(s) by {}
    assert forall|s: Text| #[trigger] c.transitions.dom().contains(s) && f(s) implies open_for(
        c,
        person,
        s,
    ) by {}
    let g = |t: Text|
        c.transitions[t].person_id == person && c.transitions[t].action == action
            && c.transitions[t].status == TransitionStatus::Ready;
    lemma_first_of(c.transitions.dom(), g, t);
    assert(c.ready_transition(person, action) == first_where(
        listing(c.transitions.dom()),
        g,
    ));
    assert forall|s: Text| #[trigger]
        ready_for(c, person, action, s) <==> c.transitions.dom().contains(s) && g(s) by {}
    assert forall|s: Text| #[trigger] c.transitions.dom().contains(s) && g(s) implies ready_for(
        c,
        person,
        action,
        s,
    ) by {}
}

/// Whether a transition is somebody's and has not come out.
pub open spec fn open_for(c: CompanyModel, person: Text, t: Text) -> bool {
    &&& c.transitions.dom().contains(t)
    &&& c.transitions[t].person_id == person
    &&& c.transitions[t].status == TransitionStatus::AwaitingHandoff || c.transitions[t].status
        == TransitionStatus::Overdue || c.transitions[t].status == TransitionStatus::Ready
}

/// Whether a transition is somebody's, about an action, and ready.
pub open spec fn ready_for(
    c: CompanyModel,
    person: Text,
    action: TransitionAction,
    t: Text,
) -> bool {
    &&& c.transitions.dom().contains(t)
    &&& c.transitions[t].person_id == person
    &&& c.transitions[t].action == action
    &&& c.transitions[t].status == TransitionStatus::Ready
}

/// The routine park that somebody's activity points at: one nobody asked for.
pub open spec fn idles_under(c: CompanyModel, person: Text, t: Text) -> bool {
    &&& c.activity.dom().contains(person)
    &&& c.activity[person].active_transition_id == Some(t)
    &&& c.transitions.dom().contains(t)
    &&& c.transitions[t].action == TransitionAction::Park
    &&& c.transitions[t].intent_id is None
    &&& c.transitions[t].reason == "idle-auto-park"@
}

// ---------------------------------------------------------------------------
// Stopping
// ---------------------------------------------------------------------------

/// Benching somebody writes them benched where they are, and one line of history
/// that says so. They are not to be started and not wanted up. A park that stands
/// ready is kept and pointed at; else their open transition gives way.
pub proof fn law_what_benching_writes(c: CompanyModel, person: Text, at: Text, actor: Text)
    requires
        c.finite(),
        c.allows(Decision::Bench { person }, actor),
    ensures
        ({
            let r = c.benched(person, at, actor);
            let row = c.people[person];
            let park = c.ready_transition(person, TransitionAction::Park);
            &&& r.departments == c.departments
            &&& r.people == c.people.insert(
                person,
                PersonModel {
                    employment_state: EmploymentState::Benched,
                    updated_at: at,
                    ..row
                },
            )
            &&& r.staffing == c.staffing.push(
                line(
                    person,
                    StaffingAction::Benched,
                    Some(row.department_id),
                    None,
                    "benched "@ + person,
                    at,
                ),
            )
            &&& r.fences.dom() == c.fences.dom().remove(person)
            &&& r.transitions.dom() == c.transitions.dom()
            &&& park is Some ==> r.transitions == c.transitions
            &&& park is None ==> gave_way(c, r, person, "superseded-by-bench:"@ + person, at)
            &&& r.activity == c.activity.insert(
                person,
                ActivityModel {
                    last_desired_active: false,
                    active_transition_id: park,
                    updated_at: at,
                    ..known_of(c, person)
                },
            )
            &&& r.transition_seq == c.transition_seq
            &&& r.quiesce_since == c.quiesce_since
            &&& rest_kept(c, r)
        }),
{
    let r = c.benched(person, at, actor);
    lemma_open_transition(c, person);
    assert(r.transitions.dom() =~= c.transitions.dom());
    assert(r.activity =~= c.activity.insert(person, r.activity[person]));
    assert(r.fences.dom() =~= c.fences.dom().remove(person));
}

/// Shutting somebody down changes nothing of the chart or the history. Their open
/// transition gives way to a park under the next number, which nobody was awake
/// to release and which carries the command, if there was one. They are not to be
/// started and not wanted up.
pub proof fn law_what_shutting_down_writes(
    c: CompanyModel,
    person: Text,
    kind: ShutdownKindModel,
    at: Text,
    actor: Text,
)
    requires
        c.finite(),
        c.allows(Decision::Shutdown { person, kind }, actor),
        c.transition_seq < u64::MAX,
    ensures
        ({
            let r = c.shut_down(person, kind, at, actor);
            let id = transition_id((c.transition_seq + 1) as nat, person, TransitionAction::Park);
            &&& r.departments == c.departments
            &&& r.people == c.people
            &&& r.staffing == c.staffing
            &&& r.fences.dom() == c.fences.dom().remove(person)
            &&& r.transitions.dom() == c.transitions.dom().insert(id)
            &&& gave_way(
                c,
                r,
                person,
                match kind {
                    ShutdownKindModel::Commanded { intent_id } => "superseded-by-shutdown:"@
                        + intent_id,
                    ShutdownKindModel::AutomaticSettle => "superseded-by-settle"@,
                },
                at,
            )
            &&& r.transitions[id] == TransitionModel {
                person_id: person,
                action: TransitionAction::Park,
                status: TransitionStatus::Cancelled,
                intent_id: match kind {
                    ShutdownKindModel::Commanded { intent_id } => Some(intent_id),
                    ShutdownKindModel::AutomaticSettle => None,
                },
                reason: match kind {
                    ShutdownKindModel::Commanded { intent_id } => "stopped "@ + person + " ("@
                        + intent_id + ")"@,
                    ShutdownKindModel::AutomaticSettle => "settled idle "@ + person,
                },
                placement_department_id: Some(c.people[person].department_id),
                requested_at: at,
                handoff_deadline_at: Some(at),
                applied_at: None,
                cancelled_at: Some(at),
                abandoned_at: Some(at),
            }
            &&& r.activity == c.activity.insert(
                person,
                ActivityModel {
                    last_desired_active: false,
                    active_transition_id: None,
                    updated_at: at,
                    ..known_of(c, person)
                },
            )
            &&& r.transition_seq == c.transition_seq + 1
            &&& r.quiesce_since == c.quiesce_since
            &&& rest_kept(c, r)
        }),
{
    let r = c.shut_down(person, kind, at, actor);
    let id = transition_id((c.transition_seq + 1) as nat, person, TransitionAction::Park);
    lemma_open_transition(c, person);
    assert(c.counted().open_transition(person) == c.open_transition(person));
    assert(r.transitions.dom() =~= c.transitions.dom().insert(id));
    assert(r.activity =~= c.activity.insert(person, r.activity[person]));
    assert(r.fences.dom() =~= c.fences.dom().remove(person));
}

// ---------------------------------------------------------------------------
// Coming up
// ---------------------------------------------------------------------------

/// Recalling somebody writes them at work again where they are, and one line of
/// history that says so. Nobody starts.
pub proof fn law_what_recalling_writes(c: CompanyModel, person: Text, at: Text, actor: Text)
    requires
        c.allows(Decision::Recall { person }, actor),
    ensures
        ({
            let r = c.recalled(person, at, actor);
            let row = c.people[person];
            &&& r.departments == c.departments
            &&& r.people == c.people.insert(
                person,
                PersonModel { employment_state: EmploymentState::Active, updated_at: at, ..row },
            )
            &&& r.staffing == c.staffing.push(
                line(
                    person,
                    StaffingAction::Recalled,
                    Some(row.department_id),
                    Some(row.department_id),
                    "recalled"@,
                    at,
                ),
            )
            &&& lifecycle_kept(c, r)
            &&& rest_kept(c, r)
        }),
{
}

/// Waking somebody recalls them where they are benched, and lets anybody but the
/// CEO be started. A routine park they idle under lets go of them, and is
/// cancelled where it is open; their quiet interval is over. Who is wanted up is
/// as it was.
pub proof fn law_what_waking_writes(c: CompanyModel, person: Text, at: Text, actor: Text)
    requires
        c.allows(Decision::Wake { person }, actor),
    ensures
        ({
            let r = c.woken(person, at, actor);
            let row = c.people[person];
            let before = c.activity[person];
            let idle = before.active_transition_id is Some && idles_under(
                c,
                person,
                before.active_transition_id->0,
            );
            let benched = row.employment_state == EmploymentState::Benched;
            &&& r.departments == c.departments
            &&& r.people == if benched {
                c.people.insert(
                    person,
                    PersonModel {
                        employment_state: EmploymentState::Active,
                        updated_at: at,
                        ..row
                    },
                )
            } else {
                c.people
            }
            &&& r.staffing == if benched {
                c.staffing.push(
                    line(
                        person,
                        StaffingAction::Recalled,
                        Some(row.department_id),
                        Some(row.department_id),
                        "recalled"@,
                        at,
                    ),
                )
            } else {
                c.staffing
            }
            &&& r.fences.dom() == if c.is_ceo(person) {
                c.fences.dom()
            } else {
                c.fences.dom().insert(person)
            }
            &&& r.activity.dom() == c.activity.dom()
            &&& forall|p: Text| p != person ==> #[trigger] r.activity[p] == c.activity[p]
            &&& c.activity.dom().contains(person) ==> r.activity[person] == ActivityModel {
                agent_quiet_at: None,
                idle_since: None,
                operator_wake_at: Some(at),
                active_transition_id: if idle {
                    None
                } else {
                    before.active_transition_id
                },
                updated_at: r.activity[person].updated_at,
                ..before
            }
            &&& r.transitions.dom() == c.transitions.dom()
            &&& forall|t: Text| #[trigger]
                c.transitions.dom().contains(t) ==> r.transitions[t] == if idles_under(
                    c,
                    person,
                    t,
                ) && c.transitions[t].status.open() {
                    given_way(c.transitions[t], "superseded-by-wake:"@ + person, at)
                } else {
                    c.transitions[t]
                }
            &&& r.transition_seq == c.transition_seq
            &&& r.quiesce_since == c.quiesce_since
            &&& rest_kept(c, r)
        }),
{
    let r = c.woken(person, at, actor);
    assert(r.transitions.dom() =~= c.transitions.dom());
    assert(r.activity.dom() =~= c.activity.dom());
    assert(r.fences.dom() =~= if c.is_ceo(person) {
        c.fences.dom()
    } else {
        c.fences.dom().insert(person)
    });
}

/// Starting somebody puts them at work where they are: recalled from the bench, or
/// rehired as a worker. They are wanted up. Anybody but the CEO is to be started,
/// with their idle clock set anew, and let go of by a routine park; a departure
/// that is still open gives way to the rehire.
pub proof fn law_what_starting_writes(c: CompanyModel, person: Text, at: Text, actor: Text)
    requires
        c.finite(),
        c.allows(Decision::Start { person }, actor),
    ensures
        ({
            let r = c.started(person, at, actor);
            let row = c.people[person];
            let home = row.department_id;
            let before = known_of(c, person);
            let chief = c.is_ceo(person);
            let rehired = row.employment_state == EmploymentState::Departed;
            let idle = before.active_transition_id is Some && idles_under(
                c,
                person,
                before.active_transition_id->0,
            );
            &&& r.departments == c.departments
            &&& r.people == match row.employment_state {
                EmploymentState::Active => c.people,
                EmploymentState::Benched => c.people.insert(
                    person,
                    PersonModel {
                        employment_state: EmploymentState::Active,
                        updated_at: at,
                        ..row
                    },
                ),
                EmploymentState::Departed => c.people.insert(
                    person,
                    PersonModel {
                        employment_state: EmploymentState::Active,
                        kind: PersonKind::Worker,
                        updated_at: at,
                        ..row
                    },
                ),
            }
            &&& r.staffing == match row.employment_state {
                EmploymentState::Active => c.staffing,
                EmploymentState::Benched => c.staffing.push(
                    line(
                        person,
                        StaffingAction::Recalled,
                        Some(home),
                        Some(home),
                        "recalled"@,
                        at,
                    ),
                ),
                EmploymentState::Departed => c.staffing.push(
                    line(
                        person,
                        StaffingAction::Rehired,
                        Some(home),
                        Some(home),
                        "rehired"@,
                        at,
                    ),
                ),
            }
            &&& r.fences.dom() == if chief {
                c.fences.dom()
            } else {
                c.fences.dom().insert(person)
            }
            &&& r.activity.dom() == c.activity.dom().insert(person)
            &&& forall|p: Text| p != person ==> #[trigger] r.activity[p] == c.activity[p]
            &&& r.activity[person] == ActivityModel {
                last_desired_active: true,
                active_transition_id: if rehired || idle && !chief {
                    None
                } else {
                    before.active_transition_id
                },
                agent_quiet_at: if chief {
                    before.agent_quiet_at
                } else {
                    Some(at)
                },
                idle_since: if chief {
                    before.idle_since
                } else {
                    Some(at)
                },
                agent_active_at: if chief {
                    before.agent_active_at
                } else {
                    None
                },
                operator_wake_at: if chief {
                    before.operator_wake_at
                } else {
                    Some(at)
                },
                updated_at: r.activity[person].updated_at,
                ..before
            }
            &&& r.transitions.dom() == c.transitions.dom()
            &&& forall|t: Text| #[trigger]
                c.transitions.dom().contains(t) ==> r.transitions[t] == if rehired
                    && c.open_transition(person) == Some(t) {
                    given_way(c.transitions[t], "superseded-by-rehire:"@ + person, at)
                } else if !rehired && !chief && idles_under(c, person, t)
                    && c.transitions[t].status.open() {
                    given_way(c.transitions[t], "superseded-by-start:"@ + person, at)
                } else {
                    c.transitions[t]
                }
            &&& r.transition_seq == c.transition_seq
            &&& r.quiesce_since == c.quiesce_since
            &&& rest_kept(c, r)
        }),
{
    let r = c.started(person, at, actor);
    lemma_open_transition(c, person);
    if c.people[person].employment_state == EmploymentState::Departed {
        let back = c.returned(person, StaffingAction::Rehired, at).set_person_kind(
            person,
            PersonKind::Worker,
            at,
        );
        assert(back.open_transition(person) == c.open_transition(person));
        assert(r.people =~= c.people.insert(person, r.people[person]));
    }
    assert(r.transitions.dom() =~= c.transitions.dom());
    assert(r.activity.dom() =~= c.activity.dom().insert(person));
    assert(r.fences.dom() =~= if c.is_ceo(person) {
        c.fences.dom()
    } else {
        c.fences.dom().insert(person)
    });
}

// ---------------------------------------------------------------------------
// Leaving
// ---------------------------------------------------------------------------

/// The transition by which somebody hands off before they leave.
pub open spec fn handing_off(
    person: Text,
    home: Text,
    reason: Text,
    at: Text,
) -> TransitionModel {
    TransitionModel {
        person_id: person,
        action: TransitionAction::Offboard,
        status: TransitionStatus::AwaitingHandoff,
        intent_id: None,
        reason,
        placement_department_id: Some(home),
        requested_at: at,
        handoff_deadline_at: Some(handoff_deadline(at)),
        applied_at: None,
        cancelled_at: None,
        abandoned_at: None,
    }
}

/// Offboarding somebody writes them departed, where they are and in the role they
/// have, and one line of history that says so. They are not wanted up, but keep
/// their start decision. Their activity points at an offboarding of theirs that
/// stands ready, else at a new one that waits for their handoff, to which their
/// open transition gives way.
pub proof fn law_what_offboarding_writes(c: CompanyModel, person: Text, at: Text, actor: Text)
    requires
        c.finite(),
        c.allows(Decision::Offboard { person }, actor),
        c.transition_seq < u64::MAX,
    ensures
        ({
            let r = c.offboarded(person, at, actor);
            let row = c.people[person];
            let home = row.department_id;
            let reason = ledger_line("offboarded"@, actor);
            let ready = c.ready_transition(person, TransitionAction::Offboard);
            let id = transition_id(
                (c.transition_seq + 1) as nat,
                person,
                TransitionAction::Offboard,
            );
            &&& r.departments == c.departments
            &&& r.people == c.people.insert(
                person,
                PersonModel {
                    employment_state: EmploymentState::Departed,
                    updated_at: at,
                    ..row
                },
            )
            &&& r.staffing == c.staffing.push(
                line(person, StaffingAction::Offboarded, Some(home), None, reason, at),
            )
            &&& r.fences == c.fences
            &&& ready is Some ==> r.transitions == c.transitions && r.transition_seq
                == c.transition_seq
            &&& ready is None ==> r.transitions.dom() == c.transitions.dom().insert(id)
                && r.transitions[id] == handing_off(person, home, reason, at) && gave_way(
                c,
                r,
                person,
                "superseded-by-offboard:"@ + person,
                at,
            ) && r.transition_seq == c.transition_seq + 1
            &&& r.activity == c.activity.insert(
                person,
                ActivityModel {
                    last_desired_active: false,
                    active_transition_id: if ready is Some {
                        ready
                    } else {
                        Some(id)
                    },
                    updated_at: at,
                    ..known_of(c, person)
                },
            )
            &&& r.quiesce_since == c.quiesce_since
            &&& rest_kept(c, r)
        }),
{
    let r = c.offboarded(person, at, actor);
    let id = transition_id((c.transition_seq + 1) as nat, person, TransitionAction::Offboard);
    lemma_open_transition(c, person);
    assert(c.counted().open_transition(person) == c.open_transition(person));
    assert(r.people =~= c.people.insert(person, r.people[person]));
    assert(r.activity =~= c.activity.insert(person, r.activity[person]));
    if c.ready_transition(person, TransitionAction::Offboard) is None {
        assert(r.transitions.dom() =~= c.transitions.dom().insert(id));
    }
}

/// Replacing a head gives their unit to the successor, and writes the old head a
/// worker and departed where they are, with a handoff to wait for, to which their
/// open transition gives way. The history says who came to head it, who stepped
/// down and who left.
pub proof fn law_what_replacing_a_head_writes(
    c: CompanyModel,
    head: Text,
    successor: Text,
    at: Text,
    actor: Text,
)
    requires
        c.finite(),
        c.allows(Decision::ReplaceHead { head, successor }, actor),
        c.transition_seq < u64::MAX,
    ensures
        ({
            let r = c.head_replaced(head, successor, at, actor);
            let unit = c.headed_by(head)->0;
            let row = c.people[head];
            let home = row.department_id;
            let reason = ledger_line("head replaced"@, actor);
            let id = transition_id((c.transition_seq + 1) as nat, head, TransitionAction::Offboard);
            &&& c.departments.dom().contains(unit) ==> r.departments == c.departments.insert(
                unit,
                DepartmentModel {
                    head_person_id: successor,
                    updated_at: at,
                    ..c.departments[unit]
                },
            )
            &&& r.people == c.people.insert(
                successor,
                PersonModel { kind: PersonKind::Head, updated_at: at, ..c.people[successor] },
            ).insert(
                head,
                PersonModel {
                    kind: PersonKind::Worker,
                    employment_state: EmploymentState::Departed,
                    updated_at: at,
                    ..row
                },
            )
            &&& r.staffing == c.staffing.push(
                line(
                    successor,
                    StaffingAction::AppointedHead,
                    Some(unit),
                    Some(unit),
                    reason,
                    at,
                ),
            ).push(
                line(head, StaffingAction::SteppedDown, Some(unit), Some(home), reason, at),
            ).push(line(head, StaffingAction::Offboarded, Some(home), None, reason, at))
            &&& r.fences == c.fences
            &&& r.transitions.dom() == c.transitions.dom().insert(id)
            &&& r.transitions[id] == handing_off(head, home, "offboarded "@ + head, at)
            &&& gave_way(c, r, head, "superseded-by-offboard:"@ + head, at)
            &&& r.activity == c.activity.insert(
                head,
                ActivityModel {
                    last_desired_active: false,
                    active_transition_id: Some(id),
                    updated_at: at,
                    ..known_of(c, head)
                },
            )
            &&& r.transition_seq == c.transition_seq + 1
            &&& r.quiesce_since == c.quiesce_since
            &&& rest_kept(c, r)
        }),
{
    let r = c.head_replaced(head, successor, at, actor);
    let id = transition_id((c.transition_seq + 1) as nat, head, TransitionAction::Offboard);
    lemma_open_transition(c, head);
    assert(r.people =~= c.people.insert(successor, r.people[successor]).insert(
        head,
        r.people[head],
    ));
    assert(r.activity =~= c.activity.insert(head, r.activity[head]));
    assert(r.transitions.dom() =~= c.transitions.dom().insert(id));
}

// ---------------------------------------------------------------------------
// Headships
// ---------------------------------------------------------------------------

/// Appointing somebody gives the unit to them and makes them a head. The old head
/// is a worker, in the unit or where they are sent, and the history says who came
/// to head it, who stepped down and, where somebody was sent, to where. Nobody's
/// lifecycle changes.
pub proof fn law_what_appointing_writes(
    c: CompanyModel,
    department: Text,
    successor: Text,
    demote_to: Option<Text>,
    at: Text,
    actor: Text,
)
    requires
        c.allows(Decision::Appoint { department, successor, demote_to }, actor),
    ensures
        ({
            let r = c.appointed(department, successor, demote_to, at, actor);
            let old_head = c.departments[department].head_person_id;
            let reason = "appointed "@ + successor + " to head "@ + department;
            let lands = if demote_to is Some {
                demote_to->0
            } else {
                department
            };
            let told = c.staffing.push(
                line(
                    successor,
                    StaffingAction::AppointedHead,
                    Some(department),
                    Some(department),
                    reason,
                    at,
                ),
            ).push(
                line(
                    old_head,
                    StaffingAction::SteppedDown,
                    Some(department),
                    Some(lands),
                    reason,
                    at,
                ),
            );
            &&& r.departments == c.departments.insert(
                department,
                DepartmentModel {
                    head_person_id: successor,
                    updated_at: at,
                    ..c.departments[department]
                },
            )
            &&& r.people.dom() == c.people.dom()
            &&& r.people[successor] == PersonModel {
                kind: PersonKind::Head,
                updated_at: at,
                ..c.people[successor]
            }
            &&& c.people.dom().contains(old_head) ==> r.people[old_head] == PersonModel {
                kind: PersonKind::Worker,
                department_id: if demote_to is Some {
                    demote_to->0
                } else {
                    c.people[old_head].department_id
                },
                updated_at: at,
                ..c.people[old_head]
            }
            &&& forall|p: Text|
                p != successor && p != old_head ==> #[trigger] r.people[p] == c.people[p]
            &&& r.staffing == if demote_to is Some {
                told.push(
                    line(
                        old_head,
                        StaffingAction::Transferred,
                        Some(department),
                        Some(lands),
                        reason,
                        at,
                    ),
                )
            } else {
                told
            }
            &&& lifecycle_kept(c, r)
            &&& rest_kept(c, r)
        }),
{
    let r = c.appointed(department, successor, demote_to, at, actor);
    assert(r.people.dom() =~= c.people.dom());
}

// ---------------------------------------------------------------------------
// Running and not
// ---------------------------------------------------------------------------

/// Resuming a unit, or the root, writes its state and nothing else.
pub proof fn law_what_resuming_writes(c: CompanyModel, department: Text, at: Text, actor: Text)
    requires
        c.departments.dom().contains(department),
    ensures
        ({
            let run = c.departments.insert(
                department,
                DepartmentModel {
                    state: UnitState::Active,
                    updated_at: at,
                    ..c.departments[department]
                },
            );
            let r = c.resumed(department, at, actor);
            let a = c.reactivated(at, actor);
            &&& r.departments == run
            &&& r.people == c.people
            &&& r.staffing == c.staffing
            &&& lifecycle_kept(c, r)
            &&& rest_kept(c, r)
            &&& c.company_root() == Some(department) ==> a.departments == (if c.departments[department].state
                == UnitState::Paused {
                run
            } else {
                c.departments
            }) && a.people == c.people && a.staffing == c.staffing && lifecycle_kept(c, a)
                && rest_kept(c, a)
        }),
{
}

proof fn lemma_resumed_rows(c: CompanyModel, departments: Seq<Text>, at: Text, d: Text)
    requires
        c.departments.dom().contains(d),
    ensures
        c.resume_all(departments, at).departments[d] == if departments.contains(d)
            && c.departments[d].state == UnitState::Paused {
            DepartmentModel { state: UnitState::Active, updated_at: at, ..c.departments[d] }
        } else {
            c.departments[d]
        },
    decreases departments.len(),
{
    if departments.len() > 0 {
        lemma_resume_all(c, departments.drop_last(), at);
        lemma_resumed_rows(c, departments.drop_last(), at, d);
        lemma_with_last(departments);
    }
}

/// Resuming a set of units writes the state of those among them that are paused,
/// and nothing else.
pub proof fn law_what_resuming_many_writes(
    c: CompanyModel,
    departments: Seq<Text>,
    skip_active: bool,
    at: Text,
    actor: Text,
)
    ensures
        ({
            let r = c.decided(Decision::ResumeMany { departments, skip_active }, at, actor);
            &&& r.departments.dom() == c.departments.dom()
            &&& forall|d: Text| #[trigger]
                c.departments.dom().contains(d) ==> r.departments[d] == if departments.contains(d)
                    && c.departments[d].state == UnitState::Paused {
                    DepartmentModel { state: UnitState::Active, updated_at: at, ..c.departments[d] }
                } else {
                    c.departments[d]
                }
            &&& r.people == c.people
            &&& r.staffing == c.staffing
            &&& lifecycle_kept(c, r)
            &&& rest_kept(c, r)
        }),
{
    let r = c.decided(Decision::ResumeMany { departments, skip_active }, at, actor);
    lemma_resume_all(c, departments, at);
    assert forall|d: Text| #[trigger] c.departments.dom().contains(d) implies r.departments[d]
        == if departments.contains(d) && c.departments[d].state == UnitState::Paused {
        DepartmentModel { state: UnitState::Active, updated_at: at, ..c.departments[d] }
    } else {
        c.departments[d]
    } by {
        lemma_resumed_rows(c, departments, at, d);
    }
}

/// Pausing a unit writes its own state and no other unit's, and changes nobody's
/// row and no line of the history.
pub proof fn law_what_pausing_writes(c: CompanyModel, department: Text, at: Text, actor: Text)
    requires
        c.departments.dom().contains(department),
    ensures
        ({
            let r = c.paused(department, at, actor);
            &&& r.departments == c.departments.insert(
                department,
                DepartmentModel {
                    state: UnitState::Paused,
                    updated_at: at,
                    ..c.departments[department]
                },
            )
            &&& r.people == c.people
            &&& r.staffing == c.staffing
            &&& r.slug == c.slug
            &&& r.settings == c.settings
            &&& r.stood_down == c.stood_down
        }),
{
    let flipped = c.set_department_state(department, UnitState::Paused, at);
    lemma_swept_all(
        flipped,
        flipped.subtree_members(department),
        flipped.root_head(),
        department,
        at,
    );
}

/// Preparing a company for an operator who attaches leaves the CEO alone to be
/// started and takes back that anybody else is wanted up; what is known of the CEO
/// stays. Mail from before is not delivered. Nothing else changes.
pub proof fn law_what_attaching_writes(c: CompanyModel, at: Text, actor: Text, chief: Text)
    requires
        c.finite(),
        c.allows(Decision::CeoOnly, actor),
        c.root_head() == Some(chief),
    ensures
        ({
            let r = c.ceo_only(at, actor);
            &&& r.departments == c.departments
            &&& r.people == c.people
            &&& r.staffing == c.staffing
            &&& r.transitions == c.transitions
            &&& r.transition_seq == c.transition_seq
            &&& r.fences.dom() == set![chief]
            &&& r.activity.dom() == c.activity.dom()
            &&& forall|p: Text| #[trigger]
                c.activity.dom().contains(p) ==> r.activity[p] == if p == chief
                    || !c.activity[p].last_desired_active {
                    c.activity[p]
                } else {
                    ActivityModel { last_desired_active: false, updated_at: at, ..c.activity[p] }
                }
            &&& r.quiesce_since == Some(at)
            &&& rest_kept(c, r)
        }),
{
    let r = c.ceo_only(at, actor);
    let q = listing(c.activity.dom());
    lemma_finite_listing(c.activity.dom());
    lemma_retract_in(c, q, chief, at);
    let quiet = c.retract_non_kept(chief, at);
    lemma_finite_listing(quiet.fences.dom());
    lemma_clear_fences_in(quiet, listing(quiet.fences.dom()), chief);
    let alone = quiet.clear_fences_but(chief);
    assert forall|p: Text| #[trigger] alone.fences.dom().contains(p) implies p == chief by {
        assert(quiet.fences.dom().contains(p));
        assert(listing(quiet.fences.dom()).contains(p));
    }
    assert(r.fences.dom() =~= set![chief]);
    assert forall|p: Text| #[trigger] c.activity.dom().contains(p) implies r.activity[p] == if p
        == chief || !c.activity[p].last_desired_active {
        c.activity[p]
    } else {
        ActivityModel { last_desired_active: false, updated_at: at, ..c.activity[p] }
    } by {
        lemma_retracted_row(c, q, chief, at, p);
        assert(q.contains(p));
    }
}

proof fn lemma_retracted_row(c: CompanyModel, people: Seq<Text>, keep: Text, at: Text, p: Text)
    requires
        c.activity.dom().contains(p),
    ensures
        c.retract_in(people, keep, at).activity[p] == if p == keep
            || !c.activity[p].last_desired_active || !people.contains(p) {
            c.activity[p]
        } else {
            ActivityModel { last_desired_active: false, updated_at: at, ..c.activity[p] }
        },
    decreases people.len(),
{
    if people.len() > 0 {
        lemma_retracted_row(c, people.drop_last(), keep, at, p);
        lemma_retract_in(c, people.drop_last(), keep, at);
        lemma_with_last(people);
    }
}

} // verus!
