//! Shutting somebody down: they stay employed and come to rest.

use vstd::prelude::*;

use crate::company::{Company, CompanyModel, TransitionAction};
use crate::org_ops::guards::{actor_out_of_scope_for_person, is_ceo, RowError};
use crate::org_ops::refusals::{ShutdownOutcome, ShutdownRefusal};
use crate::rows::ledger::{abandoned, abandoned_transition};
use crate::text::{cat2, cat5, opt, owned, Text};

verus! {

/// Why somebody is shut down. It decides nothing about the rows but the words
/// in them.
#[derive(Debug, Clone, PartialEq, Eq)]
pub enum ShutdownKind {
    /// Somebody said so.
    Commanded {
        /// The decision, as the transition records it.
        intent_id: String,
    },
    /// They were idle long enough.
    AutomaticSettle,
}

/// Why somebody is shut down, as read.
pub enum ShutdownKindModel {
    /// Somebody said so.
    Commanded {
        /// The decision, as the transition records it.
        intent_id: Text,
    },
    /// They were idle long enough.
    AutomaticSettle,
}

impl View for ShutdownKind {
    type V = ShutdownKindModel;

    open spec fn view(&self) -> ShutdownKindModel {
        match *self {
            ShutdownKind::Commanded { intent_id } => ShutdownKindModel::Commanded {
                intent_id: intent_id@,
            },
            ShutdownKind::AutomaticSettle => ShutdownKindModel::AutomaticSettle,
        }
    }
}

impl ShutdownKindModel {
    /// The decision the transition belongs to.
    pub open spec fn intent(self) -> Option<Text> {
        match self {
            ShutdownKindModel::Commanded { intent_id } => Some(intent_id),
            ShutdownKindModel::AutomaticSettle => None,
        }
    }

    /// What a transition that the shutdown cuts short says.
    pub open spec fn marker(self) -> Text {
        match self {
            ShutdownKindModel::Commanded { intent_id } => "superseded-by-shutdown:"@ + intent_id,
            ShutdownKindModel::AutomaticSettle => "superseded-by-settle"@,
        }
    }

    /// The transition's own line.
    pub open spec fn line(self, person: Text) -> Text {
        match self {
            ShutdownKindModel::Commanded { intent_id } => "stopped "@ + person + " ("@ + intent_id
                + ")"@,
            ShutdownKindModel::AutomaticSettle => "settled idle "@ + person,
        }
    }

    /// The word a log has for the withdrawn start decision.
    pub open spec fn withdrawal(self) -> Text {
        match self {
            ShutdownKindModel::Commanded { .. } => "commanded-stop"@,
            ShutdownKindModel::AutomaticSettle => "automatic-settle"@,
        }
    }
}

impl ShutdownKind {
    /// The action of the transition: a park either way, for a stop is no
    /// departure.
    pub fn action(&self) -> (r: TransitionAction)
        ensures
            r == TransitionAction::Park,
    {
        TransitionAction::Park
    }

    /// The word a log has for the withdrawn start decision.
    pub fn withdrawal_reason(&self) -> (r: &'static str)
        ensures
            r@ == self@.withdrawal(),
    {
        match self {
            ShutdownKind::Commanded { .. } => "commanded-stop",
            ShutdownKind::AutomaticSettle => "automatic-settle",
        }
    }

    /// The decision the transition belongs to.
    pub fn intent_id(&self) -> (r: Option<&str>)
        ensures
            opt(r) == self@.intent(),
    {
        match self {
            ShutdownKind::Commanded { intent_id } => Some(intent_id.as_str()),
            ShutdownKind::AutomaticSettle => None,
        }
    }

    /// What a transition that the shutdown cuts short says.
    pub fn supersede_marker(&self) -> (r: String)
        ensures
            r@ == self@.marker(),
    {
        match self {
            ShutdownKind::Commanded { intent_id } => cat2(
                "superseded-by-shutdown:",
                intent_id.as_str(),
            ),
            ShutdownKind::AutomaticSettle => owned("superseded-by-settle"),
        }
    }

    /// The transition's own line.
    pub fn terminal_reason(&self, person_id: &str) -> (r: String)
        ensures
            r@ == self@.line(person_id@),
    {
        match self {
            ShutdownKind::Commanded { intent_id } => cat5(
                "stopped ",
                person_id,
                " (",
                intent_id.as_str(),
                ")",
            ),
            ShutdownKind::AutomaticSettle => cat2("settled idle ", person_id),
        }
    }
}

impl CompanyModel {
    /// Why somebody is not shut down, if they are not.
    pub open spec fn shutdown_refusal(self, person: Text, actor: Text) -> Option<ShutdownRefusal> {
        if self.is_ceo(person) {
            Some(ShutdownRefusal::CeoExempt)
        } else if self.out_of_scope_for(actor, person) {
            Some(ShutdownRefusal::ActorOutOfScope)
        } else {
            None
        }
    }

    /// What a shutdown makes of the rows: any open transition gives way to a
    /// park that nobody was awake to release, and the person is neither wanted
    /// up nor to be started.
    pub open spec fn shut_down(
        self,
        person: Text,
        kind: ShutdownKindModel,
        at: Text,
        actor: Text,
    ) -> CompanyModel {
        self.counted().supersede_open_transition(person, kind.marker(), at).insert_transition(
            self.next_transition_id(person, TransitionAction::Park),
            abandoned_transition(
                person,
                TransitionAction::Park,
                self.people[person].department_id,
                kind.intent(),
                kind.line(person),
                at,
            ),
        ).upsert_desired(person, false, None, at).delete_fence(person).emitted(at, actor)
    }
}

/// Shut somebody down. Nobody is protected by where they sit; the CEO is by
/// who they are.
pub fn shutdown_person(
    company: &mut Company,
    person_id: &str,
    kind: &ShutdownKind,
    at: &str,
    actor: &str,
) -> (r: Result<ShutdownOutcome, RowError>)
    requires
        old(company).wf(),
        old(company)@.transition_seq < u64::MAX,
    ensures
        final(company).wf(),
        match r {
            Ok(ShutdownOutcome::Refused { reason }) => old(company)@.shutdown_refusal(
                person_id@,
                actor@,
            ) == Some(reason) && final(company)@ == old(company)@,
            Ok(ShutdownOutcome::Applied { transition_id }) => {
                &&& old(company)@.shutdown_refusal(person_id@, actor@) is None
                &&& old(company)@.people.dom().contains(person_id@)
                &&& !old(company)@.next_taken(person_id@, TransitionAction::Park)
                &&& transition_id@ == old(company)@.next_transition_id(
                    person_id@,
                    TransitionAction::Park,
                )
                &&& final(company)@ == old(company)@.shut_down(person_id@, kind@, at@, actor@)
            },
            Err(e) => {
                &&& old(company)@.shutdown_refusal(person_id@, actor@) is None
                &&& final(company)@ == old(company)@
                &&& if !old(company)@.people.dom().contains(person_id@) {
                    e == RowError::NoRows
                } else {
                    old(company)@.next_taken(person_id@, TransitionAction::Park) && e
                        == RowError::Constraint
                }
            },
        },
{
    if is_ceo(company, person_id) {
        return Ok(ShutdownOutcome::Refused { reason: ShutdownRefusal::CeoExempt });
    }
    if actor_out_of_scope_for_person(company, actor, person_id) {
        return Ok(ShutdownOutcome::Refused { reason: ShutdownRefusal::ActorOutOfScope });
    }
    let placement = match company.people.get(person_id) {
        Some(row) => row.department_id.clone(),
        None => {
            return Err(RowError::NoRows);
        },
    };
    if company.next_taken(person_id, kind.action()) {
        return Err(RowError::Constraint);
    }
    let transition_id = company.next_transition_id(person_id, kind.action());
    company.count_transition();
    let marker = kind.supersede_marker();
    company.supersede_open_transition(person_id, marker.as_str(), at);
    let line = kind.terminal_reason(person_id);
    let row = abandoned(
        person_id,
        kind.action(),
        placement.as_str(),
        kind.intent_id(),
        line.as_str(),
        at,
    );
    company.insert_transition(transition_id.as_str(), row);
    company.upsert_desired(person_id, false, None, at);
    company.delete_fence(person_id);
    company.emit(at, actor);
    Ok(ShutdownOutcome::Applied { transition_id })
}

} // verus!
