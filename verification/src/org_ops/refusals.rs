//! Why a verb refuses, as a machine code and a line for people, and what each
//! verb answers.

use vstd::prelude::*;

use crate::text::{cat3, cat4, list_text, listed, owned, seen, Text};

verus! {

/// Why a shutdown was refused.
#[derive(Debug, Clone, Copy, PartialEq, Eq, Structural)]
pub enum ShutdownRefusal {
    /// The person is the CEO, the one hard exemption.
    CeoExempt,
    /// The actor does not manage the person's department.
    ActorOutOfScope,
}

impl ShutdownRefusal {
    /// The machine code of this refusal.
    pub open spec fn code_text(self) -> Text {
        match self {
            ShutdownRefusal::CeoExempt => "ceo-exempt"@,
            ShutdownRefusal::ActorOutOfScope => "actor-out-of-scope"@,
        }
    }

    /// The machine code of this refusal.
    pub fn code(&self) -> (r: &'static str)
        ensures
            r@ == self.code_text(),
    {
        match self {
            ShutdownRefusal::CeoExempt => "ceo-exempt",
            ShutdownRefusal::ActorOutOfScope => "actor-out-of-scope",
        }
    }

    /// One line for people.
    pub open spec fn detail_text(self) -> Text {
        match self {
            ShutdownRefusal::CeoExempt => "the CEO heads the company root and never shuts down; everybody else is stoppable, wherever they sit"@,
            ShutdownRefusal::ActorOutOfScope => "the actor does not manage the department the person they are shutting down is homed in"@,
        }
    }

    /// One line for people.
    pub fn detail(&self) -> (r: &'static str)
        ensures
            r@ == self.detail_text(),
    {
        match self {
            ShutdownRefusal::CeoExempt => "the CEO heads the company root and never shuts down; everybody else is stoppable, wherever they sit",
            ShutdownRefusal::ActorOutOfScope => "the actor does not manage the department the person they are shutting down is homed in",
        }
    }
}

/// Why an appointment was refused.
#[derive(Debug, Clone, Copy, PartialEq, Eq, Structural)]
pub enum AppointRefusal {
    /// No such department.
    UnknownDepartment,
    /// The successor is not a member of the department.
    NotAMember,
    /// The successor heads another department.
    AlreadyHeadsElsewhere,
    /// The successor heads this department already.
    AlreadySittingHead,
    /// The successor has departed.
    DepartedSuccessor,
    /// The department is the company root, which the CEO always heads.
    RootHeadNotReassignable,
    /// The actor does not manage the department, or the one the outgoing head is demoted into.
    ActorOutOfScope,
}

impl AppointRefusal {
    /// The machine code of this refusal.
    pub open spec fn code_text(self) -> Text {
        match self {
            AppointRefusal::UnknownDepartment => "unknown-department"@,
            AppointRefusal::NotAMember => "not-a-member"@,
            AppointRefusal::AlreadyHeadsElsewhere => "already-heads-elsewhere"@,
            AppointRefusal::AlreadySittingHead => "already-sitting-head"@,
            AppointRefusal::DepartedSuccessor => "departed-successor"@,
            AppointRefusal::RootHeadNotReassignable => "root-head-not-reassignable"@,
            AppointRefusal::ActorOutOfScope => "actor-out-of-scope"@,
        }
    }

    /// The machine code of this refusal.
    pub fn code(&self) -> (r: &'static str)
        ensures
            r@ == self.code_text(),
    {
        match self {
            AppointRefusal::UnknownDepartment => "unknown-department",
            AppointRefusal::NotAMember => "not-a-member",
            AppointRefusal::AlreadyHeadsElsewhere => "already-heads-elsewhere",
            AppointRefusal::AlreadySittingHead => "already-sitting-head",
            AppointRefusal::DepartedSuccessor => "departed-successor",
            AppointRefusal::RootHeadNotReassignable => "root-head-not-reassignable",
            AppointRefusal::ActorOutOfScope => "actor-out-of-scope",
        }
    }

    /// One line for people.
    pub open spec fn detail_text(self) -> Text {
        match self {
            AppointRefusal::UnknownDepartment => "no such department"@,
            AppointRefusal::NotAMember => "the successor is not a member of that department"@,
            AppointRefusal::AlreadyHeadsElsewhere => "the successor already heads another department"@,
            AppointRefusal::AlreadySittingHead => "the person already heads this department"@,
            AppointRefusal::DepartedSuccessor => "the successor has departed"@,
            AppointRefusal::RootHeadNotReassignable => "the company root is always headed by the CEO; its head cannot be reassigned"@,
            AppointRefusal::ActorOutOfScope => "the actor does not manage the department they are appointing a head for, or the department the outgoing head is demoted into; appointing a head MOVES that person into the department they now head"@,
        }
    }

    /// One line for people.
    pub fn detail(&self) -> (r: &'static str)
        ensures
            r@ == self.detail_text(),
    {
        match self {
            AppointRefusal::UnknownDepartment => "no such department",
            AppointRefusal::NotAMember => "the successor is not a member of that department",
            AppointRefusal::AlreadyHeadsElsewhere => "the successor already heads another department",
            AppointRefusal::AlreadySittingHead => "the person already heads this department",
            AppointRefusal::DepartedSuccessor => "the successor has departed",
            AppointRefusal::RootHeadNotReassignable => "the company root is always headed by the CEO; its head cannot be reassigned",
            AppointRefusal::ActorOutOfScope => "the actor does not manage the department they are appointing a head for, or the department the outgoing head is demoted into; appointing a head MOVES that person into the department they now head",
        }
    }
}

/// Why a reparent was refused.
#[derive(Debug, Clone, Copy, PartialEq, Eq, Structural)]
pub enum ReparentRefusal {
    /// The department to move does not exist.
    UnknownDepartment,
    /// The target parent does not exist.
    UnknownNewParent,
    /// The target parent or one of its ancestors is paused.
    NewParentPaused,
    /// The target parent is the department or a descendant of it.
    WouldCreateCycle,
    /// The department hangs there already.
    AlreadyUnderParent,
    /// The department is the company root.
    ExecRootProtected,
    /// The actor does not manage the department they are moving.
    ActorOutOfScope,
    /// The actor does not manage the target parent.
    NewParentOutOfScope,
}

impl ReparentRefusal {
    /// The machine code of this refusal.
    pub open spec fn code_text(self) -> Text {
        match self {
            ReparentRefusal::UnknownDepartment => "unknown-department"@,
            ReparentRefusal::UnknownNewParent => "unknown-new-parent"@,
            ReparentRefusal::NewParentPaused => "new-parent-paused"@,
            ReparentRefusal::WouldCreateCycle => "would-create-cycle"@,
            ReparentRefusal::AlreadyUnderParent => "already-under-parent"@,
            ReparentRefusal::ExecRootProtected => "exec-root-protected"@,
            ReparentRefusal::ActorOutOfScope => "actor-out-of-scope"@,
            ReparentRefusal::NewParentOutOfScope => "new-parent-out-of-scope"@,
        }
    }

    /// The machine code of this refusal.
    pub fn code(&self) -> (r: &'static str)
        ensures
            r@ == self.code_text(),
    {
        match self {
            ReparentRefusal::UnknownDepartment => "unknown-department",
            ReparentRefusal::UnknownNewParent => "unknown-new-parent",
            ReparentRefusal::NewParentPaused => "new-parent-paused",
            ReparentRefusal::WouldCreateCycle => "would-create-cycle",
            ReparentRefusal::AlreadyUnderParent => "already-under-parent",
            ReparentRefusal::ExecRootProtected => "exec-root-protected",
            ReparentRefusal::ActorOutOfScope => "actor-out-of-scope",
            ReparentRefusal::NewParentOutOfScope => "new-parent-out-of-scope",
        }
    }

    /// One line for people.
    pub open spec fn detail_text(self) -> Text {
        match self {
            ReparentRefusal::UnknownDepartment => "no such department to reparent"@,
            ReparentRefusal::UnknownNewParent => "the new parent department does not exist"@,
            ReparentRefusal::NewParentPaused => "the new parent department or one of its ancestors is paused"@,
            ReparentRefusal::WouldCreateCycle => "reparenting there would create a cycle (the new parent is the department or a descendant of it)"@,
            ReparentRefusal::AlreadyUnderParent => "the department already belongs to that parent"@,
            ReparentRefusal::ExecRootProtected => "that department IS the company root — the node everything else hangs from, with no parent to move it to. Every department BENEATH it can be reparented anywhere, including beneath each other"@,
            ReparentRefusal::ActorOutOfScope => "the actor does not manage the department they are moving"@,
            ReparentRefusal::NewParentOutOfScope => "the actor does not manage the department they are moving it under"@,
        }
    }

    /// One line for people.
    pub fn detail(&self) -> (r: &'static str)
        ensures
            r@ == self.detail_text(),
    {
        match self {
            ReparentRefusal::UnknownDepartment => "no such department to reparent",
            ReparentRefusal::UnknownNewParent => "the new parent department does not exist",
            ReparentRefusal::NewParentPaused => "the new parent department or one of its ancestors is paused",
            ReparentRefusal::WouldCreateCycle => "reparenting there would create a cycle (the new parent is the department or a descendant of it)",
            ReparentRefusal::AlreadyUnderParent => "the department already belongs to that parent",
            ReparentRefusal::ExecRootProtected => "that department IS the company root — the node everything else hangs from, with no parent to move it to. Every department BENEATH it can be reparented anywhere, including beneath each other",
            ReparentRefusal::ActorOutOfScope => "the actor does not manage the department they are moving",
            ReparentRefusal::NewParentOutOfScope => "the actor does not manage the department they are moving it under",
        }
    }
}

/// Why an offboard was refused.
#[derive(Debug, Clone, Copy, PartialEq, Eq, Structural)]
pub enum OffboardRefusal {
    /// No such person.
    UnknownPerson,
    /// The person is the CEO, who never departs.
    ExecRootProtected,
    /// The person is a head; firing one takes a successor.
    HeadNeedsSuccessor,
    /// The person has departed.
    AlreadyDeparted,
    /// The actor does not manage the person.
    ActorOutOfScope,
}

impl OffboardRefusal {
    /// The machine code of this refusal.
    pub open spec fn code_text(self) -> Text {
        match self {
            OffboardRefusal::UnknownPerson => "unknown-person"@,
            OffboardRefusal::ExecRootProtected => "exec-root-protected"@,
            OffboardRefusal::HeadNeedsSuccessor => "head-needs-successor"@,
            OffboardRefusal::AlreadyDeparted => "already-departed"@,
            OffboardRefusal::ActorOutOfScope => "actor-out-of-scope"@,
        }
    }

    /// The machine code of this refusal.
    pub fn code(&self) -> (r: &'static str)
        ensures
            r@ == self.code_text(),
    {
        match self {
            OffboardRefusal::UnknownPerson => "unknown-person",
            OffboardRefusal::ExecRootProtected => "exec-root-protected",
            OffboardRefusal::HeadNeedsSuccessor => "head-needs-successor",
            OffboardRefusal::AlreadyDeparted => "already-departed",
            OffboardRefusal::ActorOutOfScope => "actor-out-of-scope",
        }
    }

    /// One line for people.
    pub open spec fn detail_text(self) -> Text {
        match self {
            OffboardRefusal::UnknownPerson => "no such person"@,
            OffboardRefusal::ExecRootProtected => "the CEO heads the company root and never departs; everybody else may be offboarded, wherever they sit"@,
            OffboardRefusal::HeadNeedsSuccessor => "the person owns goals as a manager; appoint a successor first"@,
            OffboardRefusal::AlreadyDeparted => "the person has already departed"@,
            OffboardRefusal::ActorOutOfScope => "you do not manage that person: firing somebody needs them inside the subtree you head"@,
        }
    }

    /// One line for people.
    pub fn detail(&self) -> (r: &'static str)
        ensures
            r@ == self.detail_text(),
    {
        match self {
            OffboardRefusal::UnknownPerson => "no such person",
            OffboardRefusal::ExecRootProtected => "the CEO heads the company root and never departs; everybody else may be offboarded, wherever they sit",
            OffboardRefusal::HeadNeedsSuccessor => "the person owns goals as a manager; appoint a successor first",
            OffboardRefusal::AlreadyDeparted => "the person has already departed",
            OffboardRefusal::ActorOutOfScope => "you do not manage that person: firing somebody needs them inside the subtree you head",
        }
    }
}

/// Why a pause or a resume was refused.
#[derive(Debug, Clone, Copy, PartialEq, Eq, Structural)]
pub enum PauseRefusal {
    /// No such department.
    UnknownDepartment,
    /// The department is the company root, which never pauses.
    ExecRootProtected,
    /// The department is paused already.
    AlreadyPaused,
    /// The department is not paused.
    NotPaused,
    /// The actor does not manage the department.
    ActorOutOfScope,
}

impl PauseRefusal {
    /// The machine code of this refusal.
    pub open spec fn code_text(self) -> Text {
        match self {
            PauseRefusal::UnknownDepartment => "unknown-department"@,
            PauseRefusal::ExecRootProtected => "exec-root-protected"@,
            PauseRefusal::AlreadyPaused => "already-paused"@,
            PauseRefusal::NotPaused => "not-paused"@,
            PauseRefusal::ActorOutOfScope => "actor-out-of-scope"@,
        }
    }

    /// The machine code of this refusal.
    pub fn code(&self) -> (r: &'static str)
        ensures
            r@ == self.code_text(),
    {
        match self {
            PauseRefusal::UnknownDepartment => "unknown-department",
            PauseRefusal::ExecRootProtected => "exec-root-protected",
            PauseRefusal::AlreadyPaused => "already-paused",
            PauseRefusal::NotPaused => "not-paused",
            PauseRefusal::ActorOutOfScope => "actor-out-of-scope",
        }
    }

    /// One line for people.
    pub open spec fn detail_text(self) -> Text {
        match self {
            PauseRefusal::UnknownDepartment => "no such department"@,
            PauseRefusal::ExecRootProtected => "the company root never pauses; every other department, `office-of-the-ceo` included, may be paused"@,
            PauseRefusal::AlreadyPaused => "the department is already paused"@,
            PauseRefusal::NotPaused => "the department is not paused"@,
            PauseRefusal::ActorOutOfScope => "the actor does not manage the department they are pausing or resuming"@,
        }
    }

    /// One line for people.
    pub fn detail(&self) -> (r: &'static str)
        ensures
            r@ == self.detail_text(),
    {
        match self {
            PauseRefusal::UnknownDepartment => "no such department",
            PauseRefusal::ExecRootProtected => "the company root never pauses; every other department, `office-of-the-ceo` included, may be paused",
            PauseRefusal::AlreadyPaused => "the department is already paused",
            PauseRefusal::NotPaused => "the department is not paused",
            PauseRefusal::ActorOutOfScope => "the actor does not manage the department they are pausing or resuming",
        }
    }
}

/// Why a bench was refused.
#[derive(Debug, Clone, Copy, PartialEq, Eq, Structural)]
pub enum BenchRefusal {
    /// No such person.
    UnknownPerson,
    /// The person is the CEO, who is never benched.
    ExecRootProtected,
    /// The person is benched already.
    AlreadyBenched,
    /// The person has departed.
    AlreadyDeparted,
    /// The actor does not manage the person's department.
    ActorOutOfScope,
}

impl BenchRefusal {
    /// The machine code of this refusal.
    pub open spec fn code_text(self) -> Text {
        match self {
            BenchRefusal::UnknownPerson => "unknown-person"@,
            BenchRefusal::ExecRootProtected => "exec-root-protected"@,
            BenchRefusal::AlreadyBenched => "already-benched"@,
            BenchRefusal::AlreadyDeparted => "already-departed"@,
            BenchRefusal::ActorOutOfScope => "actor-out-of-scope"@,
        }
    }

    /// The machine code of this refusal.
    pub fn code(&self) -> (r: &'static str)
        ensures
            r@ == self.code_text(),
    {
        match self {
            BenchRefusal::UnknownPerson => "unknown-person",
            BenchRefusal::ExecRootProtected => "exec-root-protected",
            BenchRefusal::AlreadyBenched => "already-benched",
            BenchRefusal::AlreadyDeparted => "already-departed",
            BenchRefusal::ActorOutOfScope => "actor-out-of-scope",
        }
    }

    /// One line for people.
    pub open spec fn detail_text(self) -> Text {
        match self {
            BenchRefusal::UnknownPerson => "no such person"@,
            BenchRefusal::ExecRootProtected => "the CEO heads the company root and is never benched; everybody else may be, wherever they sit"@,
            BenchRefusal::AlreadyBenched => "the person is already benched"@,
            BenchRefusal::AlreadyDeparted => "the person has departed and cannot be benched"@,
            BenchRefusal::ActorOutOfScope => "the actor does not manage the department the person they are benching is homed in"@,
        }
    }

    /// One line for people.
    pub fn detail(&self) -> (r: &'static str)
        ensures
            r@ == self.detail_text(),
    {
        match self {
            BenchRefusal::UnknownPerson => "no such person",
            BenchRefusal::ExecRootProtected => "the CEO heads the company root and is never benched; everybody else may be, wherever they sit",
            BenchRefusal::AlreadyBenched => "the person is already benched",
            BenchRefusal::AlreadyDeparted => "the person has departed and cannot be benched",
            BenchRefusal::ActorOutOfScope => "the actor does not manage the department the person they are benching is homed in",
        }
    }
}

/// Why one appointee cannot become a department head.
#[derive(Debug, Clone, Copy, PartialEq, Eq, Structural)]
pub enum HeadIneligibility {
    /// They have left the company.
    Departed,
    /// They are not a worker.
    NotAWorker,
}

impl HeadIneligibility {
    /// The clause that failed, and the move that clears it.
    pub open spec fn detail_text(self) -> Text {
        match self {
            HeadIneligibility::Departed =>
                "they have left the company; re-hire them before giving them a department"@,
            HeadIneligibility::NotAWorker =>
                "appointing an existing head takes a WORKER and promotes them; an executive is not eligible"@,
        }
    }

    /// The clause that failed, and the move that clears it.
    pub fn detail(self) -> (r: &'static str)
        ensures
            r@ == self.detail_text(),
    {
        match self {
            HeadIneligibility::Departed =>
                "they have left the company; re-hire them before giving them a department",
            HeadIneligibility::NotAWorker =>
                "appointing an existing head takes a WORKER and promotes them; an executive is not eligible",
        }
    }
}

/// Why one vacancy decision does not fit the department it names.
#[derive(Debug, Clone, PartialEq, Eq)]
pub enum VacancyRefusal {
    /// A decision was supplied for somebody who heads nothing.
    HeadsNothing,
    /// The named successor is not an active member of the vacated department.
    SuccessorNotAMember {
        /// The successor the caller named.
        successor_person_id: String,
    },
    /// A dissolve was asked for a department that still holds people.
    StillHasMembers {
        /// Who is still in it.
        member_person_ids: Vec<String>,
    },
    /// A dissolve was asked for a department that still has children.
    StillHasChildren {
        /// The children that must be moved or removed first.
        child_department_ids: Vec<String>,
    },
}

/// Why one vacancy decision does not fit, as read.
pub enum VacancyRefusalModel {
    /// A decision was supplied for somebody who heads nothing.
    HeadsNothing,
    /// The named successor is not an active member.
    SuccessorNotAMember {
        /// The successor the caller named.
        successor_person_id: Text,
    },
    /// The department still holds people.
    StillHasMembers {
        /// Who is still in it.
        member_person_ids: Seq<Text>,
    },
    /// The department still has children.
    StillHasChildren {
        /// The children that must be moved or removed first.
        child_department_ids: Seq<Text>,
    },
}

impl View for VacancyRefusal {
    type V = VacancyRefusalModel;

    open spec fn view(&self) -> VacancyRefusalModel {
        match *self {
            VacancyRefusal::HeadsNothing => VacancyRefusalModel::HeadsNothing,
            VacancyRefusal::SuccessorNotAMember { successor_person_id } =>
                VacancyRefusalModel::SuccessorNotAMember {
                    successor_person_id: successor_person_id@,
                },
            VacancyRefusal::StillHasMembers { member_person_ids } =>
                VacancyRefusalModel::StillHasMembers {
                    member_person_ids: seen(member_person_ids@),
                },
            VacancyRefusal::StillHasChildren { child_department_ids } =>
                VacancyRefusalModel::StillHasChildren {
                    child_department_ids: seen(child_department_ids@),
                },
        }
    }
}

impl VacancyRefusalModel {
    /// The clause that failed, and the move that clears it.
    pub open spec fn detail_text(self) -> Text {
        match self {
            VacancyRefusalModel::HeadsNothing =>
                "they head no department, so there is nothing to vacate; drop the decision"@,
            VacancyRefusalModel::SuccessorNotAMember { successor_person_id } => "'"@
                + successor_person_id
                + "' is not an active member of it; a successor must already belong to the department they take over"@,
            VacancyRefusalModel::StillHasMembers { member_person_ids } => "it still holds "@
                + listed(member_person_ids)
                + ", so it is not emptied by this change; hand it over to one of them instead. To close a department that still has people, remove it — that fires them."@,
            VacancyRefusalModel::StillHasChildren { child_department_ids } => "it still has "@
                + listed(child_department_ids)
                + " beneath it; move or remove them first. Dissolving it here would silently reparent departments this request never named."@,
        }
    }
}

impl VacancyRefusal {
    /// The clause that failed, and the move that clears it.
    pub fn detail(&self) -> (r: String)
        ensures
            r@ == self@.detail_text(),
    {
        match self {
            VacancyRefusal::HeadsNothing => owned(
                "they head no department, so there is nothing to vacate; drop the decision",
            ),
            VacancyRefusal::SuccessorNotAMember { successor_person_id } => cat3(
                "'",
                successor_person_id.as_str(),
                "' is not an active member of it; a successor must already belong to the department they take over",
            ),
            VacancyRefusal::StillHasMembers { member_person_ids } => {
                let members = list_text(member_person_ids);
                cat3(
                    "it still holds ",
                    members.as_str(),
                    ", so it is not emptied by this change; hand it over to one of them instead. To close a department that still has people, remove it — that fires them.",
                )
            },
            VacancyRefusal::StillHasChildren { child_department_ids } => {
                let children = list_text(child_department_ids);
                cat3(
                    "it still has ",
                    children.as_str(),
                    " beneath it; move or remove them first. Dissolving it here would silently reparent departments this request never named.",
                )
            },
        }
    }
}

/// A head is leaving the department they lead, and the request has not said
/// what becomes of it, or has said something that cannot apply.
#[derive(Debug, Clone, PartialEq, Eq)]
pub enum HeadVacancyRefusal {
    /// No decision was given.
    Required {
        /// The sitting head the request wants to move.
        person_id: String,
        /// The department they would leave without a head.
        department_id: String,
        /// Its other employed members; empty when there are none, which makes
        /// a dissolve the only answer.
        eligible_successor_ids: Vec<String>,
    },
    /// A decision was supplied that cannot apply.
    Invalid {
        /// The department the decision was about.
        department_id: String,
        /// Which clause failed.
        because: VacancyRefusal,
    },
}

/// A vacancy refusal, as read.
pub enum HeadVacancyRefusalModel {
    /// No decision was given.
    Required {
        /// The sitting head.
        person_id: Text,
        /// The department they would leave without a head.
        department_id: Text,
        /// Its other employed members.
        eligible_successor_ids: Seq<Text>,
    },
    /// A decision was supplied that cannot apply.
    Invalid {
        /// The department the decision was about.
        department_id: Text,
        /// Which clause failed.
        because: VacancyRefusalModel,
    },
}

impl View for HeadVacancyRefusal {
    type V = HeadVacancyRefusalModel;

    open spec fn view(&self) -> HeadVacancyRefusalModel {
        match *self {
            HeadVacancyRefusal::Required { person_id, department_id, eligible_successor_ids } =>
                HeadVacancyRefusalModel::Required {
                    person_id: person_id@,
                    department_id: department_id@,
                    eligible_successor_ids: seen(eligible_successor_ids@),
                },
            HeadVacancyRefusal::Invalid { department_id, because } =>
                HeadVacancyRefusalModel::Invalid {
                    department_id: department_id@,
                    because: because@,
                },
        }
    }
}

impl HeadVacancyRefusalModel {
    /// The machine code of this refusal.
    pub open spec fn code_text(self) -> Text {
        match self {
            HeadVacancyRefusalModel::Required { .. } => "vacancy-decision-required"@,
            HeadVacancyRefusalModel::Invalid { .. } => "vacancy-decision-invalid"@,
        }
    }

    /// One line that names the department and the way through.
    pub open spec fn detail_text(self) -> Text {
        match self {
            HeadVacancyRefusalModel::Required {
                person_id,
                department_id,
                eligible_successor_ids,
            } => {
                if eligible_successor_ids.len() == 0 {
                    "'"@ + person_id + "' heads '"@ + department_id
                        + "' and is its only member, so moving them leaves '"@ + department_id
                        + "' with nobody at all. A department always holds at least its own head, so an emptied one cannot exist: send vacates=dissolve and '"@
                        + department_id
                        + "' is removed in the same change. Nobody is moved or offboarded — there is nobody left in it to move."@
                } else {
                    "'"@ + person_id + "' heads '"@ + department_id
                        + "', and a person heads one department here. Say what becomes of '"@
                        + department_id + "': send vacates=hand-over naming one of its members ("@
                        + listed(eligible_successor_ids) + ") as its new head, in the same change."@
                }
            },
            HeadVacancyRefusalModel::Invalid { department_id, because } =>
                "that decision does not apply to '"@ + department_id + "': "@
                    + because.detail_text(),
        }
    }
}

impl HeadVacancyRefusal {
    /// The machine code of this refusal.
    pub fn code(&self) -> (r: &'static str)
        ensures
            r@ == self@.code_text(),
    {
        match self {
            HeadVacancyRefusal::Required { .. } => "vacancy-decision-required",
            HeadVacancyRefusal::Invalid { .. } => "vacancy-decision-invalid",
        }
    }

    /// One line that names the department and the way through.
    pub fn detail(&self) -> (r: String)
        ensures
            r@ == self@.detail_text(),
    {
        match self {
            HeadVacancyRefusal::Required { person_id, department_id, eligible_successor_ids } => {
                let mut s = cat4("'", person_id.as_str(), "' heads '", department_id.as_str());
                if eligible_successor_ids.len() == 0 {
                    s.append("' and is its only member, so moving them leaves '");
                    s.append(department_id.as_str());
                    s.append(
                        "' with nobody at all. A department always holds at least its own head, so an emptied one cannot exist: send vacates=dissolve and '",
                    );
                    s.append(department_id.as_str());
                    s.append(
                        "' is removed in the same change. Nobody is moved or offboarded — there is nobody left in it to move.",
                    );
                } else {
                    s.append("', and a person heads one department here. Say what becomes of '");
                    s.append(department_id.as_str());
                    s.append("': send vacates=hand-over naming one of its members (");
                    let members = list_text(eligible_successor_ids);
                    s.append(members.as_str());
                    s.append(") as its new head, in the same change.");
                }
                s
            },
            HeadVacancyRefusal::Invalid { department_id, because } => {
                let why = because.detail();
                cat4(
                    "that decision does not apply to '",
                    department_id.as_str(),
                    "': ",
                    why.as_str(),
                )
            },
        }
    }
}

/// Why a department create was refused.
#[derive(Debug, Clone, PartialEq, Eq)]
pub enum CreateDepartmentRefusal {
    /// The parent does not exist.
    UnknownParent,
    /// The parent or one of its ancestors is paused.
    ParentPaused,
    /// The department id is taken.
    DuplicateDepartmentId,
    /// A new person's id is taken.
    DuplicatePersonId,
    /// A field of the request would make an invalid record.
    InvalidSeed {
        /// The offending field's path.
        field: String,
        /// One line naming the rule and the accepted values.
        detail: String,
    },
    /// The requester does not reach the parent or the appointee's department.
    RequesterOutOfScope,
    /// The appointee does not exist.
    HeadDecisionRequired,
    /// The appointee is the CEO, who never moves.
    ExecRootProtected {
        /// The appointee.
        person_id: String,
    },
    /// The appointee cannot take the role.
    HeadNotEligible {
        /// The appointee.
        person_id: String,
        /// The condition that failed.
        because: HeadIneligibility,
    },
    /// The appointee heads a department, and what becomes of it is unstated or
    /// unworkable.
    HeadVacancy(HeadVacancyRefusal),
}

/// Why a department create was refused, as read.
pub enum CreateRefusalModel {
    /// The parent does not exist.
    UnknownParent,
    /// The parent or one of its ancestors is paused.
    ParentPaused,
    /// The department id is taken.
    DuplicateDepartmentId,
    /// A new person's id is taken.
    DuplicatePersonId,
    /// A field of the request would make an invalid record.
    InvalidSeed {
        /// The offending field's path.
        field: Text,
        /// One line naming the rule and the accepted values.
        detail: Text,
    },
    /// The requester does not reach the parent or the appointee's department.
    RequesterOutOfScope,
    /// The appointee does not exist.
    HeadDecisionRequired,
    /// The appointee is the CEO.
    ExecRootProtected {
        /// The appointee.
        person_id: Text,
    },
    /// The appointee cannot take the role.
    HeadNotEligible {
        /// The appointee.
        person_id: Text,
        /// The condition that failed.
        because: HeadIneligibility,
    },
    /// The appointee heads a department.
    HeadVacancy(HeadVacancyRefusalModel),
}

impl View for CreateDepartmentRefusal {
    type V = CreateRefusalModel;

    open spec fn view(&self) -> CreateRefusalModel {
        match *self {
            CreateDepartmentRefusal::UnknownParent => CreateRefusalModel::UnknownParent,
            CreateDepartmentRefusal::ParentPaused => CreateRefusalModel::ParentPaused,
            CreateDepartmentRefusal::DuplicateDepartmentId =>
                CreateRefusalModel::DuplicateDepartmentId,
            CreateDepartmentRefusal::DuplicatePersonId => CreateRefusalModel::DuplicatePersonId,
            CreateDepartmentRefusal::InvalidSeed { field, detail } =>
                CreateRefusalModel::InvalidSeed { field: field@, detail: detail@ },
            CreateDepartmentRefusal::RequesterOutOfScope => CreateRefusalModel::RequesterOutOfScope,
            CreateDepartmentRefusal::HeadDecisionRequired =>
                CreateRefusalModel::HeadDecisionRequired,
            CreateDepartmentRefusal::ExecRootProtected { person_id } =>
                CreateRefusalModel::ExecRootProtected { person_id: person_id@ },
            CreateDepartmentRefusal::HeadNotEligible { person_id, because } =>
                CreateRefusalModel::HeadNotEligible { person_id: person_id@, because },
            CreateDepartmentRefusal::HeadVacancy(refusal) =>
                CreateRefusalModel::HeadVacancy(refusal@),
        }
    }
}

impl CreateRefusalModel {
    /// The machine code of this refusal.
    pub open spec fn code_text(self) -> Text {
        match self {
            CreateRefusalModel::UnknownParent => "unknown-parent"@,
            CreateRefusalModel::ParentPaused => "parent-paused"@,
            CreateRefusalModel::DuplicateDepartmentId => "duplicate-department-id"@,
            CreateRefusalModel::DuplicatePersonId => "duplicate-person-id"@,
            CreateRefusalModel::InvalidSeed { .. } => "invalid-seed"@,
            CreateRefusalModel::RequesterOutOfScope => "requester-out-of-scope"@,
            CreateRefusalModel::HeadDecisionRequired => "head-decision-required"@,
            CreateRefusalModel::ExecRootProtected { .. } => "exec-root-protected"@,
            CreateRefusalModel::HeadNotEligible { .. } => "head-not-eligible"@,
            CreateRefusalModel::HeadVacancy(refusal) => refusal.code_text(),
        }
    }

    /// One line for people.
    pub open spec fn detail_text(self) -> Text {
        match self {
            CreateRefusalModel::UnknownParent => "the parent department does not exist"@,
            CreateRefusalModel::ParentPaused =>
                "the parent department or one of its ancestors is paused (resume it first)"@,
            CreateRefusalModel::DuplicateDepartmentId =>
                "a department with this id already exists"@,
            CreateRefusalModel::DuplicatePersonId => "a person with this id already exists"@,
            CreateRefusalModel::InvalidSeed { field, detail } =>
                "invalid department person seed: "@ + field + " — "@ + detail,
            CreateRefusalModel::RequesterOutOfScope =>
                "the requester no longer manages the parent department or appointed person's source department"@,
            CreateRefusalModel::HeadDecisionRequired =>
                "create requires an explicit head decision (appoint an existing member or hire one)"@,
            CreateRefusalModel::ExecRootProtected { person_id } => "'"@ + person_id
                + "' is the CEO, the one person who never moves: appointing an existing head MOVES that person into the department they would head, and the CEO always heads the company root. Everybody else is appointable — create the department with a NEW head, or appoint any other person."@,
            CreateRefusalModel::HeadNotEligible { person_id, because } => "'"@ + person_id
                + "' cannot head a department: "@ + because.detail_text(),
            CreateRefusalModel::HeadVacancy(refusal) => refusal.detail_text(),
        }
    }
}

impl CreateDepartmentRefusal {
    /// The machine code of this refusal.
    pub fn code(&self) -> (r: &'static str)
        ensures
            r@ == self@.code_text(),
    {
        match self {
            CreateDepartmentRefusal::UnknownParent => "unknown-parent",
            CreateDepartmentRefusal::ParentPaused => "parent-paused",
            CreateDepartmentRefusal::DuplicateDepartmentId => "duplicate-department-id",
            CreateDepartmentRefusal::DuplicatePersonId => "duplicate-person-id",
            CreateDepartmentRefusal::InvalidSeed { .. } => "invalid-seed",
            CreateDepartmentRefusal::RequesterOutOfScope => "requester-out-of-scope",
            CreateDepartmentRefusal::HeadDecisionRequired => "head-decision-required",
            CreateDepartmentRefusal::ExecRootProtected { .. } => "exec-root-protected",
            CreateDepartmentRefusal::HeadNotEligible { .. } => "head-not-eligible",
            CreateDepartmentRefusal::HeadVacancy(refusal) => refusal.code(),
        }
    }

    /// One line for people.
    pub fn detail(&self) -> (r: String)
        ensures
            r@ == self@.detail_text(),
    {
        match self {
            CreateDepartmentRefusal::UnknownParent => owned("the parent department does not exist"),
            CreateDepartmentRefusal::ParentPaused => owned(
                "the parent department or one of its ancestors is paused (resume it first)",
            ),
            CreateDepartmentRefusal::DuplicateDepartmentId => owned(
                "a department with this id already exists",
            ),
            CreateDepartmentRefusal::DuplicatePersonId => owned(
                "a person with this id already exists",
            ),
            CreateDepartmentRefusal::InvalidSeed { field, detail } => cat4(
                "invalid department person seed: ",
                field.as_str(),
                " — ",
                detail.as_str(),
            ),
            CreateDepartmentRefusal::RequesterOutOfScope => owned(
                "the requester no longer manages the parent department or appointed person's source department",
            ),
            CreateDepartmentRefusal::HeadDecisionRequired => owned(
                "create requires an explicit head decision (appoint an existing member or hire one)",
            ),
            CreateDepartmentRefusal::ExecRootProtected { person_id } => cat3(
                "'",
                person_id.as_str(),
                "' is the CEO, the one person who never moves: appointing an existing head MOVES that person into the department they would head, and the CEO always heads the company root. Everybody else is appointable — create the department with a NEW head, or appoint any other person.",
            ),
            CreateDepartmentRefusal::HeadNotEligible { person_id, because } => cat4(
                "'",
                person_id.as_str(),
                "' cannot head a department: ",
                because.detail(),
            ),
            CreateDepartmentRefusal::HeadVacancy(refusal) => refusal.detail(),
        }
    }
}

/// Why a transfer or a member move was refused.
#[derive(Debug, Clone, PartialEq, Eq)]
pub enum TransferRefusal {
    /// No such person.
    UnknownPerson,
    /// The person is not a member of the source department.
    NotAMember,
    /// The destination does not exist.
    UnknownDestination,
    /// The destination or one of its ancestors is paused.
    DestinationPaused,
    /// The person has departed.
    PersonDeparted,
    /// The person heads their department, and the batch verb never moves a
    /// head.
    HeadNeedsSuccessor,
    /// The person heads a department, and what becomes of it is unstated or
    /// unworkable.
    HeadVacancy(HeadVacancyRefusal),
    /// The person is the CEO, who never moves.
    ExecRootProtected,
    /// The actor does not manage both departments.
    ActorOutOfScope,
}

/// Why a transfer was refused, as read.
pub enum TransferRefusalModel {
    /// No such person.
    UnknownPerson,
    /// The person is not a member of the source department.
    NotAMember,
    /// The destination does not exist.
    UnknownDestination,
    /// The destination or one of its ancestors is paused.
    DestinationPaused,
    /// The person has departed.
    PersonDeparted,
    /// The person heads their department.
    HeadNeedsSuccessor,
    /// The person heads a department, and its vacancy is not settled.
    HeadVacancy(HeadVacancyRefusalModel),
    /// The person is the CEO.
    ExecRootProtected,
    /// The actor does not manage both departments.
    ActorOutOfScope,
}

impl View for TransferRefusal {
    type V = TransferRefusalModel;

    open spec fn view(&self) -> TransferRefusalModel {
        match *self {
            TransferRefusal::UnknownPerson => TransferRefusalModel::UnknownPerson,
            TransferRefusal::NotAMember => TransferRefusalModel::NotAMember,
            TransferRefusal::UnknownDestination => TransferRefusalModel::UnknownDestination,
            TransferRefusal::DestinationPaused => TransferRefusalModel::DestinationPaused,
            TransferRefusal::PersonDeparted => TransferRefusalModel::PersonDeparted,
            TransferRefusal::HeadNeedsSuccessor => TransferRefusalModel::HeadNeedsSuccessor,
            TransferRefusal::HeadVacancy(refusal) => TransferRefusalModel::HeadVacancy(refusal@),
            TransferRefusal::ExecRootProtected => TransferRefusalModel::ExecRootProtected,
            TransferRefusal::ActorOutOfScope => TransferRefusalModel::ActorOutOfScope,
        }
    }
}

impl TransferRefusalModel {
    /// The machine code of this refusal.
    pub open spec fn code_text(self) -> Text {
        match self {
            TransferRefusalModel::UnknownPerson => "unknown-person"@,
            TransferRefusalModel::NotAMember => "not-a-member"@,
            TransferRefusalModel::UnknownDestination => "unknown-destination"@,
            TransferRefusalModel::DestinationPaused => "destination-paused"@,
            TransferRefusalModel::PersonDeparted => "person-departed"@,
            TransferRefusalModel::HeadNeedsSuccessor => "head-needs-successor"@,
            TransferRefusalModel::HeadVacancy(refusal) => refusal.code_text(),
            TransferRefusalModel::ExecRootProtected => "exec-root-protected"@,
            TransferRefusalModel::ActorOutOfScope => "actor-out-of-scope"@,
        }
    }

    /// One line for people.
    pub open spec fn detail_text(self) -> Text {
        match self {
            TransferRefusalModel::UnknownPerson => "no such person"@,
            TransferRefusalModel::NotAMember =>
                "the person is not a member of the source department"@,
            TransferRefusalModel::UnknownDestination =>
                "the destination department does not exist"@,
            TransferRefusalModel::DestinationPaused => "the destination department is paused"@,
            TransferRefusalModel::PersonDeparted => "the person is departed and cannot be placed"@,
            TransferRefusalModel::HeadNeedsSuccessor =>
                "the person heads their department, and moving a set of members never moves a head. Move them with a single transfer, saying what becomes of the department they head, or appoint a successor there first"@,
            TransferRefusalModel::HeadVacancy(refusal) => refusal.detail_text(),
            TransferRefusalModel::ExecRootProtected =>
                "that person is the CEO, who always heads the company root and never moves. Every other person may be transferred anywhere"@,
            TransferRefusalModel::ActorOutOfScope =>
                "the actor must manage BOTH the department the people are leaving and the one they are moving into; managing only one of the two is how a subtree gets grafted somewhere its head has no authority"@,
        }
    }
}

impl TransferRefusal {
    /// The machine code of this refusal.
    pub fn code(&self) -> (r: &'static str)
        ensures
            r@ == self@.code_text(),
    {
        match self {
            TransferRefusal::UnknownPerson => "unknown-person",
            TransferRefusal::NotAMember => "not-a-member",
            TransferRefusal::UnknownDestination => "unknown-destination",
            TransferRefusal::DestinationPaused => "destination-paused",
            TransferRefusal::PersonDeparted => "person-departed",
            TransferRefusal::HeadNeedsSuccessor => "head-needs-successor",
            TransferRefusal::HeadVacancy(refusal) => refusal.code(),
            TransferRefusal::ExecRootProtected => "exec-root-protected",
            TransferRefusal::ActorOutOfScope => "actor-out-of-scope",
        }
    }

    /// One line for people.
    pub fn detail(&self) -> (r: String)
        ensures
            r@ == self@.detail_text(),
    {
        match self {
            TransferRefusal::UnknownPerson => owned("no such person"),
            TransferRefusal::NotAMember => owned(
                "the person is not a member of the source department",
            ),
            TransferRefusal::UnknownDestination => owned(
                "the destination department does not exist",
            ),
            TransferRefusal::DestinationPaused => owned("the destination department is paused"),
            TransferRefusal::PersonDeparted => owned("the person is departed and cannot be placed"),
            TransferRefusal::HeadNeedsSuccessor => owned(
                "the person heads their department, and moving a set of members never moves a head. Move them with a single transfer, saying what becomes of the department they head, or appoint a successor there first",
            ),
            TransferRefusal::HeadVacancy(refusal) => refusal.detail(),
            TransferRefusal::ExecRootProtected => owned(
                "that person is the CEO, who always heads the company root and never moves. Every other person may be transferred anywhere",
            ),
            TransferRefusal::ActorOutOfScope => owned(
                "the actor must manage BOTH the department the people are leaving and the one they are moving into; managing only one of the two is how a subtree gets grafted somewhere its head has no authority",
            ),
        }
    }
}

/// Why a hire was refused.
#[derive(Debug, Clone, PartialEq, Eq)]
pub enum HireRefusal {
    /// The destination does not exist.
    UnknownDepartment,
    /// The destination or one of its ancestors is paused.
    DestinationPaused,
    /// The id is taken. A hire never resurrects anybody.
    DuplicatePersonId,
    /// The requester does not manage the destination.
    RequesterOutOfScope,
    /// A seed field failed validation.
    InvalidSeed {
        /// The offending field's path.
        field: String,
        /// One line naming the rule and the accepted values.
        detail: String,
    },
}

/// Why a hire was refused, as read.
pub enum HireRefusalModel {
    /// The destination does not exist.
    UnknownDepartment,
    /// The destination or one of its ancestors is paused.
    DestinationPaused,
    /// The id is taken.
    DuplicatePersonId,
    /// The requester does not manage the destination.
    RequesterOutOfScope,
    /// A seed field failed validation.
    InvalidSeed {
        /// The offending field's path.
        field: Text,
        /// One line naming the rule and the accepted values.
        detail: Text,
    },
}

impl View for HireRefusal {
    type V = HireRefusalModel;

    open spec fn view(&self) -> HireRefusalModel {
        match *self {
            HireRefusal::UnknownDepartment => HireRefusalModel::UnknownDepartment,
            HireRefusal::DestinationPaused => HireRefusalModel::DestinationPaused,
            HireRefusal::DuplicatePersonId => HireRefusalModel::DuplicatePersonId,
            HireRefusal::RequesterOutOfScope => HireRefusalModel::RequesterOutOfScope,
            HireRefusal::InvalidSeed { field, detail } => HireRefusalModel::InvalidSeed {
                field: field@,
                detail: detail@,
            },
        }
    }
}

impl HireRefusal {
    /// The machine code of this refusal.
    pub fn code(&self) -> (r: &'static str)
        ensures
            r@ == (match *self {
                HireRefusal::UnknownDepartment => "unknown-department"@,
                HireRefusal::DestinationPaused => "destination-paused"@,
                HireRefusal::DuplicatePersonId => "duplicate-person-id"@,
                HireRefusal::RequesterOutOfScope => "requester-out-of-scope"@,
                HireRefusal::InvalidSeed { .. } => "invalid-seed"@,
            }),
    {
        match self {
            HireRefusal::UnknownDepartment => "unknown-department",
            HireRefusal::DestinationPaused => "destination-paused",
            HireRefusal::DuplicatePersonId => "duplicate-person-id",
            HireRefusal::RequesterOutOfScope => "requester-out-of-scope",
            HireRefusal::InvalidSeed { .. } => "invalid-seed",
        }
    }

    /// One line for people.
    pub fn detail(&self) -> (r: String)
        ensures
            r@ == (match *self {
                HireRefusal::UnknownDepartment => "no such department"@,
                HireRefusal::DestinationPaused => "the destination department is paused"@,
                HireRefusal::DuplicatePersonId => "a person with that id already exists"@,
                HireRefusal::RequesterOutOfScope =>
                    "the requester no longer manages the destination department"@,
                HireRefusal::InvalidSeed { field, detail } => "invalid hire seed: "@ + field@
                    + " — "@ + detail@,
            }),
    {
        match self {
            HireRefusal::UnknownDepartment => owned("no such department"),
            HireRefusal::DestinationPaused => owned("the destination department is paused"),
            HireRefusal::DuplicatePersonId => owned("a person with that id already exists"),
            HireRefusal::RequesterOutOfScope => owned(
                "the requester no longer manages the destination department",
            ),
            HireRefusal::InvalidSeed { field, detail } => cat4(
                "invalid hire seed: ",
                field.as_str(),
                " — ",
                detail.as_str(),
            ),
        }
    }
}

// ---------------------------------------------------------------------------
// Outcomes
// ---------------------------------------------------------------------------

/// What a shutdown answers.
#[derive(Debug, Clone, PartialEq, Eq)]
pub enum ShutdownOutcome {
    /// Applied.
    Applied {
        /// The terminal transition that was written.
        transition_id: String,
    },
    /// Refused; nothing written.
    Refused {
        /// Why.
        reason: ShutdownRefusal,
    },
}

/// What a department create answers.
#[derive(Debug, Clone, PartialEq, Eq)]
pub enum CreateDepartmentOutcome {
    /// Applied.
    Applied {
        /// The created department's id.
        department_id: String,
    },
    /// Refused; nothing written.
    Refused {
        /// Why.
        reason: CreateDepartmentRefusal,
    },
}

/// What an appointment answers.
#[derive(Debug, Clone, Copy, PartialEq, Eq, Structural)]
pub enum AppointOutcome {
    /// Applied.
    Applied,
    /// Refused; nothing written.
    Refused {
        /// Why.
        reason: AppointRefusal,
    },
}

/// What a reparent answers.
#[derive(Debug, Clone, PartialEq, Eq)]
pub enum ReparentOutcome {
    /// Applied.
    Applied {
        /// The moved department's id.
        department_id: String,
    },
    /// Refused; nothing written.
    Refused {
        /// Why.
        reason: ReparentRefusal,
    },
}

/// What a transfer or a member move answers.
#[derive(Debug, Clone, PartialEq, Eq)]
pub enum TransferOutcome {
    /// Applied.
    Applied {
        /// Who moved, in the order they were moved.
        moved: Vec<String>,
    },
    /// Refused; nothing written.
    Refused {
        /// Why.
        reason: TransferRefusal,
    },
}

/// What an offboard answers.
#[derive(Debug, Clone, Copy, PartialEq, Eq, Structural)]
pub enum OffboardOutcome {
    /// Applied.
    Applied,
    /// Refused; nothing written.
    Refused {
        /// Why.
        reason: OffboardRefusal,
    },
}

/// What a hire answers.
#[derive(Debug, Clone, PartialEq, Eq)]
pub enum HireOutcome {
    /// Applied.
    Applied,
    /// Refused; nothing written.
    Refused {
        /// Why.
        reason: HireRefusal,
    },
}

/// What a pause or a resume answers.
#[derive(Debug, Clone, Copy, PartialEq, Eq, Structural)]
pub enum PauseOutcome {
    /// Applied.
    Applied,
    /// Refused; nothing written.
    Refused {
        /// Why.
        reason: PauseRefusal,
    },
}

/// What a bench answers.
#[derive(Debug, Clone, Copy, PartialEq, Eq, Structural)]
pub enum BenchOutcome {
    /// Applied.
    Applied,
    /// Refused; nothing written.
    Refused {
        /// Why.
        reason: BenchRefusal,
    },
}

/// The identity of one committed bench lifecycle.
#[derive(Debug, Clone, PartialEq, Eq, Hash)]
pub struct BenchCompletionKey {
    /// The released transition.
    pub operation_id: String,
    /// Whose pane must disappear.
    pub person_id: String,
}

/// What a bench lifecycle answers.
#[derive(Debug, Clone, PartialEq, Eq)]
pub enum BenchLifecycleOutcome {
    /// Applied.
    Applied {
        /// What the completion registry awaits.
        completion: Option<BenchCompletionKey>,
    },
    /// Refused; nothing written.
    Refused {
        /// Why.
        reason: BenchRefusal,
    },
}

/// What a direct verb answers.
#[derive(Debug, Clone, Copy, PartialEq, Eq)]
pub enum DirectOutcome {
    /// Applied.
    Applied,
    /// Refused; nothing written.
    Refused {
        /// The machine code.
        code: &'static str,
        /// One line for people.
        detail: &'static str,
    },
}

/// What a direct verb answers, as read.
pub enum DirectModel {
    /// Applied.
    Applied,
    /// Refused.
    Refused {
        /// The machine code.
        code: Text,
        /// One line for people.
        detail: Text,
    },
}

impl View for DirectOutcome {
    type V = DirectModel;

    open spec fn view(&self) -> DirectModel {
        match *self {
            DirectOutcome::Applied => DirectModel::Applied,
            DirectOutcome::Refused { code, detail } => DirectModel::Refused {
                code: code@,
                detail: detail@,
            },
        }
    }
}

/// A refusal of a direct verb.
pub fn direct_refusal(code: &'static str, detail: &'static str) -> (r: DirectOutcome)
    ensures
        r@ == (DirectModel::Refused { code: code@, detail: detail@ }),
{
    DirectOutcome::Refused { code, detail }
}

/// What a recursive department removal answers.
#[derive(Debug, Clone, PartialEq, Eq)]
pub enum RemoveDepartmentOutcome {
    /// Applied.
    Applied {
        /// The removed units, children before the unit above them.
        removed_department_ids: Vec<String>,
        /// Who departed with them, in roster order.
        departed_person_ids: Vec<String>,
    },
    /// Refused; nothing written.
    Refused {
        /// The machine code.
        code: &'static str,
        /// One line for people.
        detail: &'static str,
    },
}

} // verus!
