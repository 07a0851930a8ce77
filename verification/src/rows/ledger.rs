//! The ledger's rows: transitions, activity, start decisions and the mail
//! watermark.

use vstd::prelude::*;

use crate::company::{
    ActivityModel, ActivityRow, Company, CompanyModel, Entity, EventOp, Fence, TransitionAction,
    TransitionModel, TransitionRow, TransitionStatus,
};
use crate::isotime::{iso_millis, iso_text, iso_value, nameable, parse_iso_millis};
use crate::org_view::{first_where, lemma_first_skip};
use crate::organization::EmploymentState;
use crate::rows::chart::owned_option;
use crate::table::{listing, Duplicate};
use crate::text::{cat2, cat3, decimal, decimal_text, opt, owned, owned_opt, same, seen, Text};

verus! {

/// How long somebody has to release a transition, in milliseconds.
pub const HANDOFF_GRACE_MS: i64 = 120000;

/// The reason a routine idle park carries.
pub const IDLE_AUTO_PARK_REASON: &'static str = "idle-auto-park";

// ---------------------------------------------------------------------------
// What the rows say
// ---------------------------------------------------------------------------

/// The id of the transition with this number.
pub open spec fn transition_id(seq: nat, person: Text, action: TransitionAction) -> Text {
    "transition:"@ + decimal(seq) + ":"@ + person + ":"@ + action.as_str_text()
}

/// When the grace window of a transition asked for at `at` runs out: that much
/// later, or at once where the clock cannot be read or the end cannot be
/// written.
pub open spec fn handoff_deadline(at: Text) -> Text {
    match iso_value(at) {
        Some(ms) => if nameable(ms + HANDOFF_GRACE_MS) {
            iso_text(ms + HANDOFF_GRACE_MS)
        } else {
            at
        },
        None => at,
    }
}

/// Whether a transition is a park nobody asked for.
pub open spec fn routine_park(t: TransitionModel) -> bool {
    t.action == TransitionAction::Park && t.intent_id is None && t.reason
        == IDLE_AUTO_PARK_REASON@
}

/// The activity of somebody of whom nothing is known.
pub open spec fn blank_activity(at: Text) -> ActivityModel {
    ActivityModel {
        last_desired_active: false,
        last_operational: false,
        last_department_id: None,
        last_employment_state: None,
        agent_quiet_at: None,
        idle_since: None,
        agent_active_at: None,
        operator_wake_at: None,
        active_transition_id: None,
        updated_at: at,
    }
}

impl CompanyModel {
    /// The open transition of somebody: the first in id order.
    pub open spec fn open_transition(self, person: Text) -> Option<Text> {
        first_where(
            listing(self.transitions.dom()),
            |t: Text|
                self.transitions[t].person_id == person && self.transitions[t].status.open(),
        )
    }

    /// The transition of somebody that waits, released, to go through.
    pub open spec fn ready_transition(self, person: Text, action: TransitionAction) -> Option<
        Text,
    > {
        first_where(
            listing(self.transitions.dom()),
            |t: Text|
                self.transitions[t].person_id == person && self.transitions[t].action == action
                    && self.transitions[t].status == TransitionStatus::Ready,
        )
    }

    /// The activity of somebody.
    pub open spec fn activity_of(self, person: Text, at: Text) -> ActivityModel {
        if self.activity.dom().contains(person) {
            self.activity[person]
        } else {
            blank_activity(at)
        }
    }

    /// Whether somebody was wanted up.
    pub open spec fn desired(self, person: Text) -> bool {
        self.activity.dom().contains(person) && self.activity[person].last_desired_active
    }

    /// Whether somebody is in the middle of something: wanted up, or with a
    /// transition still open.
    pub open spec fn lifecycle_active(self, person: Text) -> bool {
        self.desired(person) || self.open_transition(person) is Some
    }
}

// ---------------------------------------------------------------------------
// What a change makes of them
// ---------------------------------------------------------------------------

impl CompanyModel {
    /// The next transition's number is taken.
    pub open spec fn counted(self) -> CompanyModel {
        CompanyModel { transition_seq: (self.transition_seq + 1) as u64, ..self }
    }

    /// The id the next transition gets.
    pub open spec fn next_transition_id(self, person: Text, action: TransitionAction) -> Text {
        transition_id((self.transition_seq + 1) as nat, person, action)
    }

    /// Whether the id the next transition gets has a row already.
    pub open spec fn next_taken(self, person: Text, action: TransitionAction) -> bool {
        self.transitions.dom().contains(self.next_transition_id(person, action))
    }

    /// A transition's row says it is cancelled, with the reason why.
    pub open spec fn cancel_row(self, id: Text, reason: Text, at: Text) -> CompanyModel {
        CompanyModel {
            transitions: self.transitions.insert(
                id,
                TransitionModel {
                    status: TransitionStatus::Cancelled,
                    reason,
                    cancelled_at: Some(at),
                    ..self.transitions[id]
                },
            ),
            ..self
        }
    }

    /// A transition is cancelled, with the reason why.
    pub open spec fn cancel_transition(self, id: Text, reason: Text, at: Text) -> CompanyModel {
        self.cancel_row(id, reason, at).touch(Entity::Transition, id, EventOp::Upsert)
    }

    /// Somebody's activity no longer points at a transition, if it did.
    pub open spec fn release_pointer(self, person: Text, id: Text, at: Text) -> CompanyModel {
        if self.activity.dom().contains(person) && self.activity[person].active_transition_id
            == Some(id) {
            CompanyModel {
                activity: self.activity.insert(
                    person,
                    ActivityModel {
                        active_transition_id: None,
                        updated_at: at,
                        ..self.activity[person]
                    },
                ),
                ..self
            }
        } else {
            self
        }
    }

    /// Somebody's open transition, if there is one, gives way.
    pub open spec fn supersede_open_transition(self, person: Text, marker: Text, at: Text) -> CompanyModel {
        match self.open_transition(person) {
            Some(id) => self.release_pointer(person, id, at).cancel_transition(id, marker, at),
            None => self,
        }
    }

    /// One more transition.
    pub open spec fn insert_transition(self, id: Text, row: TransitionModel) -> CompanyModel {
        CompanyModel { transitions: self.transitions.insert(id, row), ..self }.touch(
            Entity::Transition,
            id,
            EventOp::Upsert,
        )
    }

    /// Somebody is wanted up or not, under a transition or none.
    pub open spec fn upsert_desired(
        self,
        person: Text,
        desired: bool,
        under: Option<Text>,
        at: Text,
    ) -> CompanyModel {
        CompanyModel {
            activity: self.activity.insert(
                person,
                ActivityModel {
                    last_desired_active: desired,
                    active_transition_id: under,
                    updated_at: at,
                    ..self.activity_of(person, at)
                },
            ),
            ..self
        }.touch(Entity::PersonActivity, person, EventOp::Upsert)
    }

    /// Somebody is not wanted up, with their placement written anew.
    pub open spec fn upsert_desired_off(
        self,
        person: Text,
        employment: EmploymentState,
        department: Text,
        operational: bool,
        at: Text,
    ) -> CompanyModel {
        CompanyModel {
            activity: self.activity.insert(
                person,
                ActivityModel {
                    last_desired_active: false,
                    last_operational: operational,
                    last_department_id: Some(department),
                    last_employment_state: Some(employment),
                    active_transition_id: None,
                    updated_at: at,
                    ..self.activity_of(person, at)
                },
            ),
            ..self
        }.touch(Entity::PersonActivity, person, EventOp::Upsert)
    }

    /// Somebody is wanted up, whatever transition they are under.
    pub open spec fn ensure_desired_active(self, person: Text, at: Text) -> CompanyModel {
        if self.desired(person) {
            self
        } else {
            CompanyModel {
                activity: self.activity.insert(
                    person,
                    ActivityModel {
                        last_desired_active: true,
                        updated_at: at,
                        ..self.activity_of(person, at)
                    },
                ),
                ..self
            }.touch(Entity::PersonActivity, person, EventOp::Upsert)
        }
    }

    /// Somebody's idle clock starts over.
    pub open spec fn begin_idle_lease(self, person: Text, at: Text) -> CompanyModel {
        if !self.activity.dom().contains(person) {
            self
        } else {
            let row = self.activity[person];
            if row.agent_quiet_at == Some(at) && row.idle_since == Some(at) && row.agent_active_at
                is None {
                self
            } else {
                CompanyModel {
                    activity: self.activity.insert(
                        person,
                        ActivityModel {
                            agent_quiet_at: Some(at),
                            idle_since: Some(at),
                            agent_active_at: None,
                            updated_at: at,
                            ..row
                        },
                    ),
                    ..self
                }.touch(Entity::PersonActivity, person, EventOp::Upsert)
            }
        }
    }

    /// The routine park somebody's activity points at.
    pub open spec fn parked_under(self, person: Text) -> Option<Text> {
        if self.activity.dom().contains(person) {
            match self.activity[person].active_transition_id {
                Some(t) => if self.transitions.dom().contains(t) && routine_park(
                    self.transitions[t],
                ) {
                    Some(t)
                } else {
                    None
                },
                None => None,
            }
        } else {
            None
        }
    }

    /// Somebody is let go of by the routine park they are under, and their
    /// quiet interval is over. A park still open is cancelled, with the reason
    /// why; any other transition stays.
    pub open spec fn release_idle_park(self, person: Text, at: Text, override_fact: Text) -> CompanyModel {
        if !self.activity.dom().contains(person) {
            self
        } else {
            let row = self.activity[person];
            let park = self.parked_under(person);
            let freed = match park {
                Some(t) => if self.transitions[t].status.open() {
                    self.cancel_transition(t, override_fact, at)
                } else {
                    self
                },
                None => self,
            };
            if park is None && row.agent_quiet_at is None && row.idle_since is None
                && row.operator_wake_at == Some(at) {
                freed
            } else {
                CompanyModel {
                    activity: freed.activity.insert(
                        person,
                        ActivityModel {
                            agent_quiet_at: None,
                            idle_since: None,
                            operator_wake_at: Some(at),
                            active_transition_id: if park is Some {
                                None
                            } else {
                                row.active_transition_id
                            },
                            updated_at: at,
                            ..row
                        },
                    ),
                    ..freed
                }.touch(Entity::PersonActivity, person, EventOp::Upsert)
            }
        }
    }

    /// Somebody, if it is anybody else, is no longer wanted up.
    pub open spec fn retract_one(self, person: Text, keep: Text, at: Text) -> CompanyModel {
        if person != keep && self.desired(person) {
            CompanyModel {
                activity: self.activity.insert(
                    person,
                    ActivityModel {
                        last_desired_active: false,
                        updated_at: at,
                        ..self.activity[person]
                    },
                ),
                ..self
            }.touch(Entity::PersonActivity, person, EventOp::Upsert)
        } else {
            self
        }
    }

    /// Of these people nobody else is wanted up any more.
    pub open spec fn retract_in(self, people: Seq<Text>, keep: Text, at: Text) -> CompanyModel
        decreases people.len(),
    {
        if people.len() == 0 {
            self
        } else {
            self.retract_in(people.drop_last(), keep, at).retract_one(people.last(), keep, at)
        }
    }

    /// Nobody else is wanted up any more.
    pub open spec fn retract_non_kept(self, keep: Text, at: Text) -> CompanyModel {
        self.retract_in(listing(self.activity.dom()), keep, at)
    }

    /// Somebody is to be started.
    pub open spec fn insert_fence(self, person: Text) -> CompanyModel {
        if self.fences.dom().contains(person) {
            self
        } else {
            CompanyModel { fences: self.fences.insert(person, ()), ..self }.touch(
                Entity::LaunchIntent,
                person,
                EventOp::Upsert,
            )
        }
    }

    /// Somebody is no longer to be started.
    pub open spec fn delete_fence(self, person: Text) -> CompanyModel {
        if self.fences.dom().contains(person) {
            CompanyModel { fences: self.fences.remove(person), ..self }.touch(
                Entity::LaunchIntent,
                person,
                EventOp::Delete,
            )
        } else {
            self
        }
    }

    /// Somebody new is to be started, unless the company is stood down.
    pub open spec fn fence_started(self, person: Text) -> CompanyModel {
        if self.stood_down {
            self
        } else {
            self.insert_fence(person)
        }
    }

    /// Of these people nobody else is to be started any more.
    pub open spec fn clear_fences_in(self, people: Seq<Text>, keep: Text) -> CompanyModel
        decreases people.len(),
    {
        if people.len() == 0 {
            self
        } else {
            let before = self.clear_fences_in(people.drop_last(), keep);
            if people.last() == keep {
                before
            } else {
                before.delete_fence(people.last())
            }
        }
    }

    /// Nobody else is to be started any more.
    pub open spec fn clear_fences_but(self, keep: Text) -> CompanyModel {
        self.clear_fences_in(listing(self.fences.dom()), keep)
    }

    /// Mail from before `at` is not delivered.
    pub open spec fn upsert_quiesce(self, display: Text, at: Text) -> CompanyModel {
        if self.quiesce_since == Some(at) {
            self
        } else {
            CompanyModel { quiesce_since: Some(at), ..self }.touch(
                Entity::GoalDeliveryQuiesce,
                display,
                EventOp::Upsert,
            )
        }
    }
}

/// A transition given up with nobody left to release it.
pub open spec fn abandoned_transition(
    person: Text,
    action: TransitionAction,
    placement: Text,
    intent: Option<Text>,
    reason: Text,
    at: Text,
) -> TransitionModel {
    TransitionModel {
        person_id: person,
        action,
        status: TransitionStatus::Cancelled,
        intent_id: intent,
        reason,
        placement_department_id: Some(placement),
        requested_at: at,
        handoff_deadline_at: Some(at),
        applied_at: None,
        cancelled_at: Some(at),
        abandoned_at: Some(at),
    }
}

/// A transition cut short by a decision about somebody running.
pub open spec fn cancelled_transition(
    person: Text,
    action: TransitionAction,
    placement: Text,
    intent: Text,
    reason: Text,
    at: Text,
) -> TransitionModel {
    TransitionModel {
        person_id: person,
        action,
        status: TransitionStatus::Cancelled,
        intent_id: Some(intent),
        reason,
        placement_department_id: Some(placement),
        requested_at: at,
        handoff_deadline_at: Some(at),
        applied_at: None,
        cancelled_at: Some(at),
        abandoned_at: None,
    }
}

/// A transition that waits for the person to release it.
pub open spec fn awaiting_transition(
    person: Text,
    action: TransitionAction,
    placement: Text,
    reason: Text,
    at: Text,
    deadline: Text,
) -> TransitionModel {
    TransitionModel {
        person_id: person,
        action,
        status: TransitionStatus::AwaitingHandoff,
        intent_id: None,
        reason,
        placement_department_id: Some(placement),
        requested_at: at,
        handoff_deadline_at: Some(deadline),
        applied_at: None,
        cancelled_at: None,
        abandoned_at: None,
    }
}

/// A transition released by whoever asked for it, with no grace window.
pub open spec fn released_transition(
    person: Text,
    action: TransitionAction,
    placement: Option<Text>,
    reason: Text,
    at: Text,
) -> TransitionModel {
    TransitionModel {
        person_id: person,
        action,
        status: TransitionStatus::Ready,
        intent_id: None,
        reason,
        placement_department_id: placement,
        requested_at: at,
        handoff_deadline_at: Some(at),
        applied_at: None,
        cancelled_at: None,
        abandoned_at: None,
    }
}

// ---------------------------------------------------------------------------
// Reading
// ---------------------------------------------------------------------------

/// When the grace window of a transition asked for at `at` runs out.
pub fn deadline_after(at: &str) -> (r: String)
    ensures
        r@ == handoff_deadline(at@),
{
    match parse_iso_millis(at) {
        Some(ms) => {
            match ms.checked_add(HANDOFF_GRACE_MS) {
                Some(end) => match iso_millis(end) {
                    Some(text) => text,
                    None => owned(at),
                },
                None => owned(at),
            }
        },
        None => owned(at),
    }
}

/// The id of the transition with this number.
pub fn transition_text(number: u64, person: &str, action: TransitionAction) -> (r: String)
    ensures
        r@ == transition_id(number as nat, person@, action),
{
    let number = decimal_text(number);
    let front = cat3("transition:", number.as_str(), ":");
    let named = cat3(front.as_str(), person, ":");
    cat2(named.as_str(), action.as_str())
}

impl Company {
    /// The open transition of somebody.
    pub fn open_transition(&self, person: &str) -> (r: Option<String>)
        requires
            self.wf(),
        ensures
            opt(r) == self@.open_transition(person@),
            r matches Some(t) ==> self@.transitions.dom().contains(t@),
    {
        let ghost m = self@.transitions;
        let ghost q = self.transitions.ids();
        let ghost p = |t: Text| m[t].person_id == person@ && m[t].status.open();
        proof {
            self.transitions.lemma_listing();
        }
        let mut i: usize = 0;
        while i < self.transitions.keys.len()
            invariant
                i <= self.transitions.keys@.len(),
                self.wf(),
                m == self@.transitions,
                q == self.transitions.ids(),
                q == listing(m.dom()),
                p == (|t: Text| m[t].person_id == person@ && m[t].status.open()),
                forall|j: int| 0 <= j < i ==> !p(#[trigger] q[j]),
            decreases self.transitions.keys@.len() - i,
        {
            proof {
                self.transitions.lemma_at(i as int);
                assert(q[i as int] == self.transitions.keys@[i as int]@);
            }
            let row = &self.transitions.values[i];
            if same(row.person_id.as_str(), person) && row.status.is_open() {
                proof {
                    lemma_first_skip(q, p, i as int);
                    assert(q.skip(i as int)[0] == q[i as int]);
                }
                return Some(self.transitions.keys[i].clone());
            }
            i = i + 1;
        }
        proof {
            lemma_first_skip(q, p, i as int);
            assert(q.skip(i as int).len() == 0);
        }
        None
    }

    /// The transition of somebody that waits, released, to go through.
    pub fn ready_transition(&self, person: &str, action: TransitionAction) -> (r: Option<String>)
        requires
            self.wf(),
        ensures
            opt(r) == self@.ready_transition(person@, action),
    {
        let ghost m = self@.transitions;
        let ghost q = self.transitions.ids();
        let ghost p = |t: Text|
            m[t].person_id == person@ && m[t].action == action && m[t].status
                == TransitionStatus::Ready;
        proof {
            self.transitions.lemma_listing();
        }
        let mut i: usize = 0;
        while i < self.transitions.keys.len()
            invariant
                i <= self.transitions.keys@.len(),
                self.wf(),
                m == self@.transitions,
                q == self.transitions.ids(),
                q == listing(m.dom()),
                p == (|t: Text|
                    m[t].person_id == person@ && m[t].action == action && m[t].status
                        == TransitionStatus::Ready),
                forall|j: int| 0 <= j < i ==> !p(#[trigger] q[j]),
            decreases self.transitions.keys@.len() - i,
        {
            proof {
                self.transitions.lemma_at(i as int);
                assert(q[i as int] == self.transitions.keys@[i as int]@);
            }
            let row = &self.transitions.values[i];
            if same(row.person_id.as_str(), person) && row.action == action && row.status
                == TransitionStatus::Ready {
                proof {
                    lemma_first_skip(q, p, i as int);
                    assert(q.skip(i as int)[0] == q[i as int]);
                }
                return Some(self.transitions.keys[i].clone());
            }
            i = i + 1;
        }
        proof {
            lemma_first_skip(q, p, i as int);
            assert(q.skip(i as int).len() == 0);
        }
        None
    }

    /// The activity of somebody.
    pub fn activity_of(&self, person: &str, at: &str) -> (r: ActivityRow)
        requires
            self.wf(),
        ensures
            r@ == self@.activity_of(person@, at@),
    {
        match self.activity.get(person) {
            Some(row) => row.duplicate(),
            None => ActivityRow {
                last_desired_active: false,
                last_operational: false,
                last_department_id: None,
                last_employment_state: None,
                agent_quiet_at: None,
                idle_since: None,
                agent_active_at: None,
                operator_wake_at: None,
                active_transition_id: None,
                updated_at: owned(at),
            },
        }
    }

    /// Whether somebody was wanted up.
    pub fn desired(&self, person: &str) -> (r: bool)
        requires
            self.wf(),
        ensures
            r == self@.desired(person@),
    {
        match self.activity.get(person) {
            Some(row) => row.last_desired_active,
            None => false,
        }
    }

    /// Whether somebody is in the middle of something.
    pub fn lifecycle_active(&self, person: &str) -> (r: bool)
        requires
            self.wf(),
        ensures
            r == self@.lifecycle_active(person@),
    {
        self.desired(person) || self.open_transition(person).is_some()
    }

    /// The id the next transition gets.
    pub fn next_transition_id(&self, person: &str, action: TransitionAction) -> (r: String)
        requires
            self.transition_seq < u64::MAX,
        ensures
            r@ == self@.next_transition_id(person@, action),
    {
        transition_text(self.transition_seq + 1, person, action)
    }

    /// Whether the id the next transition gets has a row already.
    pub fn next_taken(&self, person: &str, action: TransitionAction) -> (r: bool)
        requires
            self.wf(),
            self.transition_seq < u64::MAX,
        ensures
            r == self@.next_taken(person@, action),
    {
        let id = self.next_transition_id(person, action);
        self.transitions.has(id.as_str())
    }

    /// The routine park somebody's activity points at.
    pub fn parked_under(&self, person: &str) -> (r: Option<String>)
        requires
            self.wf(),
        ensures
            opt(r) == self@.parked_under(person@),
    {
        match self.activity.get(person) {
            Some(row) => match &row.active_transition_id {
                Some(t) => match self.transitions.get(t.as_str()) {
                    Some(transition) => {
                        if transition.action == TransitionAction::Park
                            && transition.intent_id.is_none() && same(
                            transition.reason.as_str(),
                            IDLE_AUTO_PARK_REASON,
                        ) {
                            Some(t.clone())
                        } else {
                            None
                        }
                    },
                    None => None,
                },
                None => None,
            },
            None => None,
        }
    }
}

// ---------------------------------------------------------------------------
// Writing
// ---------------------------------------------------------------------------

/// Whether a moment that may be missing is this one.
fn is_at(o: &Option<String>, at: &str) -> (r: bool)
    ensures
        r == (opt(*o) == Some(at@)),
{
    match o {
        Some(t) => same(t.as_str(), at),
        None => false,
    }
}

impl Company {
    /// Take the next transition's number.
    pub fn count_transition(&mut self)
        requires
            old(self).wf(),
            old(self)@.transition_seq < u64::MAX,
        ensures
            final(self).wf(),
            final(self)@ == old(self)@.counted(),
    {
        self.transition_seq = self.transition_seq + 1;
    }

    /// Write that a transition is cancelled, with the reason why.
    pub fn cancel_row(&mut self, id: &str, reason: &str, at: &str)
        requires
            old(self).wf(),
            old(self)@.transitions.dom().contains(id@),
        ensures
            final(self).wf(),
            final(self)@ == old(self)@.cancel_row(id@, reason@, at@),
    {
        if let Some(row) = self.transitions.get(id) {
            let mut row = row.duplicate();
            row.status = TransitionStatus::Cancelled;
            row.reason = owned(reason);
            row.cancelled_at = Some(owned(at));
            self.transitions.put(id, row);
        }
    }

    /// Cancel a transition, with the reason why.
    pub fn cancel_transition(&mut self, id: &str, reason: &str, at: &str)
        requires
            old(self).wf(),
            old(self)@.transitions.dom().contains(id@),
        ensures
            final(self).wf(),
            final(self)@ == old(self)@.cancel_transition(id@, reason@, at@),
    {
        self.cancel_row(id, reason, at);
        self.touch(Entity::Transition, id, EventOp::Upsert);
    }

    /// Let somebody's activity no longer point at a transition.
    pub fn release_pointer(&mut self, person: &str, id: &str, at: &str)
        requires
            old(self).wf(),
        ensures
            final(self).wf(),
            final(self)@ == old(self)@.release_pointer(person@, id@, at@),
    {
        if let Some(row) = self.activity.get(person) {
            if is_at(&row.active_transition_id, id) {
                let mut row = row.duplicate();
                row.active_transition_id = None;
                row.updated_at = owned(at);
                self.activity.put(person, row);
            }
        }
    }

    /// Make somebody's open transition give way.
    pub fn supersede_open_transition(&mut self, person: &str, marker: &str, at: &str)
        requires
            old(self).wf(),
        ensures
            final(self).wf(),
            final(self)@ == old(self)@.supersede_open_transition(person@, marker@, at@),
    {
        if let Some(id) = self.open_transition(person) {
            self.release_pointer(person, id.as_str(), at);
            self.cancel_transition(id.as_str(), marker, at);
        }
    }

    /// Write one more transition.
    pub fn insert_transition(&mut self, id: &str, row: TransitionRow)
        requires
            old(self).wf(),
        ensures
            final(self).wf(),
            final(self)@ == old(self)@.insert_transition(id@, row@),
    {
        self.transitions.put(id, row);
        self.touch(Entity::Transition, id, EventOp::Upsert);
    }

    /// Write that somebody is wanted up or not, under a transition or none.
    pub fn upsert_desired(&mut self, person: &str, desired: bool, under: Option<&str>, at: &str)
        requires
            old(self).wf(),
        ensures
            final(self).wf(),
            final(self)@ == old(self)@.upsert_desired(person@, desired, opt(under), at@),
    {
        let mut row = self.activity_of(person, at);
        row.last_desired_active = desired;
        row.active_transition_id = owned_option(under);
        row.updated_at = owned(at);
        self.activity.put(person, row);
        self.touch(Entity::PersonActivity, person, EventOp::Upsert);
    }

    /// Write that somebody is not wanted up, with their placement anew.
    pub fn upsert_desired_off(
        &mut self,
        person: &str,
        employment: EmploymentState,
        department: &str,
        operational: bool,
        at: &str,
    )
        requires
            old(self).wf(),
        ensures
            final(self).wf(),
            final(self)@ == old(self)@.upsert_desired_off(
                person@,
                employment,
                department@,
                operational,
                at@,
            ),
    {
        let mut row = self.activity_of(person, at);
        row.last_desired_active = false;
        row.last_operational = operational;
        row.last_department_id = Some(owned(department));
        row.last_employment_state = Some(employment);
        row.active_transition_id = None;
        row.updated_at = owned(at);
        self.activity.put(person, row);
        self.touch(Entity::PersonActivity, person, EventOp::Upsert);
    }

    /// Write that somebody is wanted up.
    pub fn ensure_desired_active(&mut self, person: &str, at: &str)
        requires
            old(self).wf(),
        ensures
            final(self).wf(),
            final(self)@ == old(self)@.ensure_desired_active(person@, at@),
    {
        if !self.desired(person) {
            let mut row = self.activity_of(person, at);
            row.last_desired_active = true;
            row.updated_at = owned(at);
            self.activity.put(person, row);
            self.touch(Entity::PersonActivity, person, EventOp::Upsert);
        }
    }

    /// Start somebody's idle clock over.
    pub fn begin_idle_lease(&mut self, person: &str, at: &str)
        requires
            old(self).wf(),
        ensures
            final(self).wf(),
            final(self)@ == old(self)@.begin_idle_lease(person@, at@),
    {
        if let Some(row) = self.activity.get(person) {
            if !(is_at(&row.agent_quiet_at, at) && is_at(&row.idle_since, at)
                && row.agent_active_at.is_none()) {
                let mut row = row.duplicate();
                row.agent_quiet_at = Some(owned(at));
                row.idle_since = Some(owned(at));
                row.agent_active_at = None;
                row.updated_at = owned(at);
                self.activity.put(person, row);
                self.touch(Entity::PersonActivity, person, EventOp::Upsert);
            }
        }
    }

    /// Let go of somebody under a routine park, and end their quiet interval.
    pub fn release_idle_park(&mut self, person: &str, at: &str, override_fact: &str)
        requires
            old(self).wf(),
        ensures
            final(self).wf(),
            final(self)@ == old(self)@.release_idle_park(person@, at@, override_fact@),
    {
        let park = self.parked_under(person);
        if let Some(row) = self.activity.get(person) {
            let mut row = row.duplicate();
            let same_already = park.is_none() && row.agent_quiet_at.is_none()
                && row.idle_since.is_none() && is_at(&row.operator_wake_at, at);
            if let Some(t) = &park {
                let open = match self.transitions.get(t.as_str()) {
                    Some(transition) => transition.status.is_open(),
                    None => false,
                };
                if open {
                    self.cancel_transition(t.as_str(), override_fact, at);
                }
                row.active_transition_id = None;
            }
            if !same_already {
                row.agent_quiet_at = None;
                row.idle_since = None;
                row.operator_wake_at = Some(owned(at));
                row.updated_at = owned(at);
                self.activity.put(person, row);
                self.touch(Entity::PersonActivity, person, EventOp::Upsert);
            }
        }
    }

    /// Write that somebody, if it is anybody else, is no longer wanted up.
    pub fn retract_one(&mut self, person: &str, keep: &str, at: &str)
        requires
            old(self).wf(),
        ensures
            final(self).wf(),
            final(self)@ == old(self)@.retract_one(person@, keep@, at@),
    {
        if !same(person, keep) {
            if let Some(row) = self.activity.get(person) {
                if row.last_desired_active {
                    let mut row = row.duplicate();
                    row.last_desired_active = false;
                    row.updated_at = owned(at);
                    self.activity.put(person, row);
                    self.touch(Entity::PersonActivity, person, EventOp::Upsert);
                }
            }
        }
    }

    /// Write that nobody else is wanted up any more.
    pub fn retract_non_kept(&mut self, keep: &str, at: &str)
        requires
            old(self).wf(),
        ensures
            final(self).wf(),
            final(self)@ == old(self)@.retract_non_kept(keep@, at@),
    {
        let people = self.activity.list();
        let ghost q = seen(people@);
        let mut i: usize = 0;
        while i < people.len()
            invariant
                i <= people@.len(),
                q == seen(people@),
                self.wf(),
                self@ == old(self)@.retract_in(q.take(i as int), keep@, at@),
            decreases people@.len() - i,
        {
            proof {
                assert(q.take(i + 1).drop_last() =~= q.take(i as int));
                assert(q.take(i + 1).last() == people@[i as int]@);
            }
            self.retract_one(people[i].as_str(), keep, at);
            i = i + 1;
        }
        proof {
            assert(q.take(i as int) =~= q);
        }
    }

    /// Write that somebody is to be started.
    pub fn insert_fence(&mut self, person: &str)
        requires
            old(self).wf(),
        ensures
            final(self).wf(),
            final(self)@ == old(self)@.insert_fence(person@),
    {
        if !self.fences.has(person) {
            self.fences.put(person, Fence {  });
            self.touch(Entity::LaunchIntent, person, EventOp::Upsert);
        }
    }

    /// Write that somebody is no longer to be started.
    pub fn delete_fence(&mut self, person: &str)
        requires
            old(self).wf(),
        ensures
            final(self).wf(),
            final(self)@ == old(self)@.delete_fence(person@),
    {
        if self.fences.has(person) {
            self.fences.take_out(person);
            self.touch(Entity::LaunchIntent, person, EventOp::Delete);
        }
    }

    /// Write that somebody new is to be started. A company that is stood down
    /// starts nobody.
    pub fn fence_started(&mut self, person: &str)
        requires
            old(self).wf(),
        ensures
            final(self).wf(),
            final(self)@ == old(self)@.fence_started(person@),
    {
        if !self.stood_down {
            self.insert_fence(person);
        }
    }

    /// Write that nobody else is to be started any more.
    pub fn clear_fences_but(&mut self, keep: &str)
        requires
            old(self).wf(),
        ensures
            final(self).wf(),
            final(self)@ == old(self)@.clear_fences_but(keep@),
    {
        let people = self.fences.list();
        let ghost q = seen(people@);
        let mut i: usize = 0;
        while i < people.len()
            invariant
                i <= people@.len(),
                q == seen(people@),
                self.wf(),
                self@ == old(self)@.clear_fences_in(q.take(i as int), keep@),
            decreases people@.len() - i,
        {
            proof {
                assert(q.take(i + 1).drop_last() =~= q.take(i as int));
                assert(q.take(i + 1).last() == people@[i as int]@);
            }
            if !same(people[i].as_str(), keep) {
                self.delete_fence(people[i].as_str());
            }
            i = i + 1;
        }
        proof {
            assert(q.take(i as int) =~= q);
        }
    }

    /// Write that mail from before `at` is not delivered.
    pub fn upsert_quiesce(&mut self, display: &str, at: &str)
        requires
            old(self).wf(),
        ensures
            final(self).wf(),
            final(self)@ == old(self)@.upsert_quiesce(display@, at@),
    {
        if !is_at(&self.quiesce_since, at) {
            self.quiesce_since = Some(owned(at));
            self.touch(Entity::GoalDeliveryQuiesce, display, EventOp::Upsert);
        }
    }
}

/// A transition given up with nobody left to release it.
pub fn abandoned(
    person: &str,
    action: TransitionAction,
    placement: &str,
    intent: Option<&str>,
    reason: &str,
    at: &str,
) -> (r: TransitionRow)
    ensures
        r@ == abandoned_transition(person@, action, placement@, opt(intent), reason@, at@),
{
    TransitionRow {
        person_id: owned(person),
        action,
        status: TransitionStatus::Cancelled,
        intent_id: owned_option(intent),
        reason: owned(reason),
        placement_department_id: Some(owned(placement)),
        requested_at: owned(at),
        handoff_deadline_at: Some(owned(at)),
        applied_at: None,
        cancelled_at: Some(owned(at)),
        abandoned_at: Some(owned(at)),
    }
}

/// A transition cut short by a decision about somebody running.
pub fn cancelled(
    person: &str,
    action: TransitionAction,
    placement: &str,
    intent: &str,
    reason: &str,
    at: &str,
) -> (r: TransitionRow)
    ensures
        r@ == cancelled_transition(person@, action, placement@, intent@, reason@, at@),
{
    TransitionRow {
        person_id: owned(person),
        action,
        status: TransitionStatus::Cancelled,
        intent_id: Some(owned(intent)),
        reason: owned(reason),
        placement_department_id: Some(owned(placement)),
        requested_at: owned(at),
        handoff_deadline_at: Some(owned(at)),
        applied_at: None,
        cancelled_at: Some(owned(at)),
        abandoned_at: None,
    }
}

/// A transition that waits for the person to release it.
pub fn awaiting(
    person: &str,
    action: TransitionAction,
    placement: &str,
    reason: &str,
    at: &str,
    deadline: &str,
) -> (r: TransitionRow)
    ensures
        r@ == awaiting_transition(person@, action, placement@, reason@, at@, deadline@),
{
    TransitionRow {
        person_id: owned(person),
        action,
        status: TransitionStatus::AwaitingHandoff,
        intent_id: None,
        reason: owned(reason),
        placement_department_id: Some(owned(placement)),
        requested_at: owned(at),
        handoff_deadline_at: Some(owned(deadline)),
        applied_at: None,
        cancelled_at: None,
        abandoned_at: None,
    }
}

/// A transition released by whoever asked for it, with no grace window.
pub fn released(
    person: &str,
    action: TransitionAction,
    placement: &Option<String>,
    reason: &str,
    at: &str,
) -> (r: TransitionRow)
    ensures
        r@ == released_transition(person@, action, opt(*placement), reason@, at@),
{
    TransitionRow {
        person_id: owned(person),
        action,
        status: TransitionStatus::Ready,
        intent_id: None,
        reason: owned(reason),
        placement_department_id: owned_opt(placement),
        requested_at: owned(at),
        handoff_deadline_at: Some(owned(at)),
        applied_at: None,
        cancelled_at: None,
        abandoned_at: None,
    }
}

} // verus!
