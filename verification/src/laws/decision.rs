//! The decisions a company can make, as one kind of thing.

use vstd::prelude::*;

use crate::company::{Company, CompanyModel, TransitionAction};
use crate::org_ops::decisions::HeadVacancyModel;
use crate::org_ops::shutdown::ShutdownKindModel;
use crate::org_projection::{create_refusal, hire_refusal, CreateModel, HireModel};
use crate::text::Text;

verus! {

/// A decision, with everything it is made on but the clock and the actor.
pub enum Decision {
    /// Create a unit.
    Create {
        /// What is asked for. It carries its own clock.
        proposal: CreateModel,
    },
    /// Hire somebody.
    Hire {
        /// Who is to be hired. It carries its own clock.
        newcomer: HireModel,
    },
    /// Appoint a head.
    Appoint {
        /// The unit.
        department: Text,
        /// Who heads it from now on.
        successor: Text,
        /// Where the outgoing head goes.
        demote_to: Option<Text>,
    },
    /// Hang a unit beneath another.
    Reparent {
        /// The unit.
        department: Text,
        /// What it hangs beneath from now on.
        parent: Text,
    },
    /// Transfer somebody.
    Transfer {
        /// Who.
        person: Text,
        /// To where.
        destination: Text,
        /// What stands on a transition that gives way.
        intent: Text,
        /// What becomes of the unit they head.
        vacates: Option<HeadVacancyModel>,
    },
    /// Move members of a unit.
    MoveMembers {
        /// The unit they leave.
        from: Text,
        /// To where.
        destination: Text,
        /// Who; nobody stands for every ordinary member.
        named: Seq<Text>,
        /// What stands on a transition that gives way.
        intent: Text,
    },
    /// Offboard somebody.
    Offboard {
        /// Who.
        person: Text,
    },
    /// Replace a head and offboard them.
    ReplaceHead {
        /// The sitting head.
        head: Text,
        /// Who heads the unit from now on.
        successor: Text,
    },
    /// Remove a unit and everything beneath it.
    RemoveTree {
        /// The unit.
        department: Text,
    },
    /// Pause a unit.
    Pause {
        /// The unit.
        department: Text,
    },
    /// Resume a unit.
    Resume {
        /// The unit.
        department: Text,
    },
    /// Resume a set of units.
    ResumeMany {
        /// The units.
        departments: Seq<Text>,
        /// Whether a running unit is no reason to refuse.
        skip_active: bool,
    },
    /// Shut somebody down.
    Shutdown {
        /// Who.
        person: Text,
        /// How.
        kind: ShutdownKindModel,
    },
    /// Bench somebody.
    Bench {
        /// Who.
        person: Text,
    },
    /// Bench somebody who may be running.
    BenchLifecycle {
        /// Who.
        person: Text,
    },
    /// Start somebody.
    Start {
        /// Who.
        person: Text,
    },
    /// Wake somebody.
    Wake {
        /// Who.
        person: Text,
    },
    /// Recall somebody.
    Recall {
        /// Who.
        person: Text,
    },
    /// Set the root running again.
    ReactivateRoot,
    /// Prepare the company for an operator who attaches to its CEO.
    CeoOnly,
    /// Publish the launcher root.
    PublishLauncherRoot {
        /// The launcher root.
        launcher_root: Text,
    },
}

impl CompanyModel {
    /// Whether every table holds finitely many rows.
    pub open spec fn finite(self) -> bool {
        &&& self.departments.dom().finite()
        &&& self.people.dom().finite()
        &&& self.transitions.dom().finite()
        &&& self.activity.dom().finite()
        &&& self.fences.dom().finite()
    }

    /// Whether a decision is applied: neither refused nor failed.
    pub open spec fn allows(self, d: Decision, actor: Text) -> bool {
        match d {
            Decision::Create { proposal } => create_refusal(self.org(), proposal) is None
                && !self.create_breaks(proposal),
            Decision::Hire { newcomer } => hire_refusal(self.org(), newcomer) is None,
            Decision::Appoint { department, successor, demote_to } => self.appoint_refusal(
                department,
                successor,
                demote_to,
                actor,
            ) is None && !self.appoint_breaks(department, demote_to),
            Decision::Reparent { department, parent } => self.reparent_refusal(
                department,
                parent,
                actor,
            ) is None,
            Decision::Transfer { person, destination, intent, vacates } => self.transfer_refusal(
                person,
                destination,
                actor,
                vacates,
            ) is None && !(vacates matches Some(v) && self.vacancy_breaks(person, v, destination)),
            Decision::MoveMembers { from, destination, named, intent } => self.move_refusal(
                from,
                destination,
                self.batch(from, named),
                actor,
            ) is None,
            Decision::Offboard { person } => self.offboard_refusal(person, actor) is None
                && !self.offboard_breaks(person),
            Decision::ReplaceHead { head, successor } => self.replace_refusal(
                head,
                successor,
                actor,
            ) is None && !self.next_taken(head, TransitionAction::Offboard),
            Decision::RemoveTree { department } => self.remove_refusal(department, actor) is None,
            Decision::Pause { department } => self.pause_refusal(department, true, actor) is None
                && !self.pause_breaks(department),
            Decision::Resume { department } => self.pause_refusal(department, false, actor)
                is None,
            Decision::ResumeMany { departments, skip_active } => self.resume_refusal(
                departments,
                skip_active,
                actor,
            ) is None,
            Decision::Shutdown { person, kind } => self.shutdown_refusal(person, actor) is None
                && self.people.dom().contains(person) && !self.next_taken(
                person,
                TransitionAction::Park,
            ),
            Decision::Bench { person } => self.bench_refusal(person, actor) is None,
            Decision::BenchLifecycle { person } => self.bench_refusal(person, actor) is None
                && !self.park_unreadable() && !self.park_breaks(person),
            Decision::Start { person } => self.start_refusal(person, actor) is None
                && self.readable(),
            Decision::Wake { person } => self.wake_refusal(person, actor) is None
                && self.readable(),
            Decision::Recall { person } => self.recall_refusal(person, actor) is None,
            Decision::ReactivateRoot => self.reactivate_refusal(actor) is None,
            Decision::CeoOnly => self.readable(),
            Decision::PublishLauncherRoot { launcher_root } => self.settings is Some,
        }
    }

    /// What a decision makes of the rows where it is applied.
    pub open spec fn decided(self, d: Decision, at: Text, actor: Text) -> CompanyModel {
        match d {
            Decision::Create { proposal } => self.department_created(proposal, actor),
            Decision::Hire { newcomer } => self.hired(newcomer, actor),
            Decision::Appoint { department, successor, demote_to } => self.appointed(
                department,
                successor,
                demote_to,
                at,
                actor,
            ),
            Decision::Reparent { department, parent } => self.reparented(
                department,
                parent,
                at,
                actor,
            ),
            Decision::Transfer { person, destination, intent, vacates } => self.transferred(
                person,
                destination,
                intent,
                at,
                actor,
                vacates,
            ),
            Decision::MoveMembers { from, destination, named, intent } => self.members_moved(
                self.batch(from, named),
                destination,
                intent,
                at,
                actor,
            ),
            Decision::Offboard { person } => self.offboarded(person, at, actor),
            Decision::ReplaceHead { head, successor } => self.head_replaced(
                head,
                successor,
                at,
                actor,
            ),
            Decision::RemoveTree { department } => self.department_removed(department, at, actor),
            Decision::Pause { department } => self.paused(department, at, actor),
            Decision::Resume { department } => self.resumed(department, at, actor),
            Decision::ResumeMany { departments, skip_active } => self.resume_all(
                departments,
                at,
            ).emitted(at, actor),
            Decision::Shutdown { person, kind } => self.shut_down(person, kind, at, actor),
            Decision::Bench { person } => self.benched(person, at, actor),
            Decision::BenchLifecycle { person } => self.park_prepared(person, at, actor).benched(
                person,
                at,
                actor,
            ),
            Decision::Start { person } => self.started(person, at, actor),
            Decision::Wake { person } => self.woken(person, at, actor),
            Decision::Recall { person } => self.recalled(person, at, actor),
            Decision::ReactivateRoot => self.reactivated(at, actor),
            Decision::CeoOnly => self.ceo_only(at, actor),
            Decision::PublishLauncherRoot { launcher_root } => self.launcher_root_published(
                at,
                launcher_root,
            ),
        }
    }
}

impl Company {
    /// A company that is held in memory has finitely many rows.
    pub proof fn lemma_finite(&self)
        requires
            self.wf(),
        ensures
            self@.finite(),
    {
        self.departments.lemma_finite();
        self.people.lemma_finite();
        self.transitions.lemma_finite();
        self.activity.lemma_finite();
        self.fences.lemma_finite();
    }
}

} // verus!
