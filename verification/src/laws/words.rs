//! What a row stores in words, and what a refusal is called.

use vstd::prelude::*;

use crate::company::{TransitionAction, TransitionStatus};
use crate::org_ops::refusals::{
    AppointRefusal, BenchRefusal, CreateRefusalModel, OffboardRefusal, PauseRefusal,
    ReparentRefusal, ShutdownRefusal, TransferRefusalModel,
};
use crate::organization::{EmploymentState, PersonKind, UnitKind, UnitState};
use crate::text::Text;

verus! {

/// Every word a row stores is read back as what it was stored for.
pub proof fn law_words_are_read_back(
    state: UnitState,
    kind: UnitKind,
    role: PersonKind,
    employment: EmploymentState,
    action: TransitionAction,
    status: TransitionStatus,
)
    ensures
        UnitState::named(state.as_str_text()) == Some(state),
        UnitKind::named(kind.as_str_text()) == Some(kind),
        PersonKind::named(role.as_str_text()) == Some(role),
        EmploymentState::named(employment.as_str_text()) == Some(employment),
        TransitionAction::named(action.as_str_text()) == Some(action),
        TransitionStatus::named(status.as_str_text()) == Some(status),
{
    reveal_strlit("active");
    reveal_strlit("paused");
    reveal_strlit("company");
    reveal_strlit("department");
    reveal_strlit("contract");
    reveal_strlit("executive");
    reveal_strlit("head");
    reveal_strlit("worker");
    reveal_strlit("benched");
    reveal_strlit("departed");
    reveal_strlit("park");
    reveal_strlit("transfer");
    reveal_strlit("offboard");
    reveal_strlit("awaiting_handoff");
    reveal_strlit("overdue");
    reveal_strlit("ready");
    reveal_strlit("applied");
    reveal_strlit("cancelled");
    // Where two words are as long as each other, their first letters differ.
    assert("active"@[0] == 'a' && "paused"@[0] == 'p');
    assert("executive"@[0] == 'e' && "head"@[0] == 'h' && "worker"@[0] == 'w');
    assert("benched"@[0] == 'b' && "departed"@[0] == 'd');
    assert("park"@[0] == 'p' && "transfer"@[0] == 't' && "offboard"@[0] == 'o');
    assert("overdue"@[0] == 'o' && "ready"@[0] == 'r' && "applied"@[0] == 'a');
    assert("company"@.len() == 7 && "contract"@.len() == 8 && "department"@.len() == 10);
    assert("awaiting_handoff"@.len() == 16 && "cancelled"@.len() == 9);
}

/// No other word is read than one that is stored: what a word is read as is stored
/// as that word.
pub proof fn law_only_stored_words_are_read(word: Text)
    ensures
        UnitState::named(word) matches Some(x) ==> x.as_str_text() == word,
        UnitKind::named(word) matches Some(x) ==> x.as_str_text() == word,
        PersonKind::named(word) matches Some(x) ==> x.as_str_text() == word,
        EmploymentState::named(word) matches Some(x) ==> x.as_str_text() == word,
        TransitionAction::named(word) matches Some(x) ==> x.as_str_text() == word,
        TransitionStatus::named(word) matches Some(x) ==> x.as_str_text() == word,
{
}

// ---------------------------------------------------------------------------
// What a refusal is called
// ---------------------------------------------------------------------------

proof fn lemma_appointment_codes(a: AppointRefusal, b: AppointRefusal)
    ensures
        a.code_text() == b.code_text() ==> a == b,
{
    reveal_strlit("actor-out-of-scope");
    assert("actor-out-of-scope"@.len() == 18);
    reveal_strlit("already-heads-elsewhere");
    assert("already-heads-elsewhere"@.len() == 23);
    reveal_strlit("already-sitting-head");
    assert("already-sitting-head"@.len() == 20);
    reveal_strlit("departed-successor");
    assert("departed-successor"@.len() == 18);
    reveal_strlit("not-a-member");
    assert("not-a-member"@.len() == 12);
    reveal_strlit("root-head-not-reassignable");
    assert("root-head-not-reassignable"@.len() == 26);
    reveal_strlit("unknown-department");
    assert("unknown-department"@.len() == 18);
    assert("actor-out-of-scope"@[0] == 'a');
    assert("departed-successor"@[0] == 'd');
    assert("unknown-department"@[0] == 'u');
}

proof fn lemma_reparent_codes(a: ReparentRefusal, b: ReparentRefusal)
    ensures
        a.code_text() == b.code_text() ==> a == b,
{
    reveal_strlit("actor-out-of-scope");
    assert("actor-out-of-scope"@.len() == 18);
    reveal_strlit("already-under-parent");
    assert("already-under-parent"@.len() == 20);
    reveal_strlit("exec-root-protected");
    assert("exec-root-protected"@.len() == 19);
    reveal_strlit("new-parent-out-of-scope");
    assert("new-parent-out-of-scope"@.len() == 23);
    reveal_strlit("new-parent-paused");
    assert("new-parent-paused"@.len() == 17);
    reveal_strlit("unknown-department");
    assert("unknown-department"@.len() == 18);
    reveal_strlit("unknown-new-parent");
    assert("unknown-new-parent"@.len() == 18);
    reveal_strlit("would-create-cycle");
    assert("would-create-cycle"@.len() == 18);
    assert("actor-out-of-scope"@[0] == 'a');
    assert("unknown-department"@[0] == 'u');
    assert("unknown-new-parent"@[0] == 'u');
    assert("would-create-cycle"@[0] == 'w');
    assert("unknown-department"@[8] == 'd');
    assert("unknown-new-parent"@[8] == 'n');
}

proof fn lemma_offboard_codes(a: OffboardRefusal, b: OffboardRefusal)
    ensures
        a.code_text() == b.code_text() ==> a == b,
{
    reveal_strlit("actor-out-of-scope");
    assert("actor-out-of-scope"@.len() == 18);
    reveal_strlit("already-departed");
    assert("already-departed"@.len() == 16);
    reveal_strlit("exec-root-protected");
    assert("exec-root-protected"@.len() == 19);
    reveal_strlit("head-needs-successor");
    assert("head-needs-successor"@.len() == 20);
    reveal_strlit("unknown-person");
    assert("unknown-person"@.len() == 14);
}

proof fn lemma_pause_codes(a: PauseRefusal, b: PauseRefusal)
    ensures
        a.code_text() == b.code_text() ==> a == b,
{
    reveal_strlit("actor-out-of-scope");
    assert("actor-out-of-scope"@.len() == 18);
    reveal_strlit("already-paused");
    assert("already-paused"@.len() == 14);
    reveal_strlit("exec-root-protected");
    assert("exec-root-protected"@.len() == 19);
    reveal_strlit("not-paused");
    assert("not-paused"@.len() == 10);
    reveal_strlit("unknown-department");
    assert("unknown-department"@.len() == 18);
    assert("actor-out-of-scope"@[0] == 'a');
    assert("unknown-department"@[0] == 'u');
}

proof fn lemma_bench_codes(a: BenchRefusal, b: BenchRefusal)
    ensures
        a.code_text() == b.code_text() ==> a == b,
{
    reveal_strlit("actor-out-of-scope");
    assert("actor-out-of-scope"@.len() == 18);
    reveal_strlit("already-benched");
    assert("already-benched"@.len() == 15);
    reveal_strlit("already-departed");
    assert("already-departed"@.len() == 16);
    reveal_strlit("exec-root-protected");
    assert("exec-root-protected"@.len() == 19);
    reveal_strlit("unknown-person");
    assert("unknown-person"@.len() == 14);
}

proof fn lemma_shutdown_codes(a: ShutdownRefusal, b: ShutdownRefusal)
    ensures
        a.code_text() == b.code_text() ==> a == b,
{
    reveal_strlit("actor-out-of-scope");
    assert("actor-out-of-scope"@.len() == 18);
    reveal_strlit("ceo-exempt");
    assert("ceo-exempt"@.len() == 10);
}

proof fn lemma_create_codes(a: CreateRefusalModel, b: CreateRefusalModel)
    ensures
        a.code_text() == b.code_text() ==> match a {
            CreateRefusalModel::UnknownParent => b is UnknownParent,
            CreateRefusalModel::ParentPaused => b is ParentPaused,
            CreateRefusalModel::DuplicateDepartmentId => b is DuplicateDepartmentId,
            CreateRefusalModel::DuplicatePersonId => b is DuplicatePersonId,
            CreateRefusalModel::InvalidSeed { .. } => b is InvalidSeed,
            CreateRefusalModel::RequesterOutOfScope => b is RequesterOutOfScope,
            CreateRefusalModel::HeadDecisionRequired => b is HeadDecisionRequired,
            CreateRefusalModel::ExecRootProtected { .. } => b is ExecRootProtected,
            CreateRefusalModel::HeadNotEligible { .. } => b is HeadNotEligible,
            CreateRefusalModel::HeadVacancy(_) => b is HeadVacancy,
        },
{
    reveal_strlit("duplicate-department-id");
    assert("duplicate-department-id"@.len() == 23);
    reveal_strlit("duplicate-person-id");
    assert("duplicate-person-id"@.len() == 19);
    reveal_strlit("exec-root-protected");
    assert("exec-root-protected"@.len() == 19);
    reveal_strlit("head-decision-required");
    assert("head-decision-required"@.len() == 22);
    reveal_strlit("head-not-eligible");
    assert("head-not-eligible"@.len() == 17);
    reveal_strlit("invalid-seed");
    assert("invalid-seed"@.len() == 12);
    reveal_strlit("parent-paused");
    assert("parent-paused"@.len() == 13);
    reveal_strlit("requester-out-of-scope");
    assert("requester-out-of-scope"@.len() == 22);
    reveal_strlit("unknown-parent");
    assert("unknown-parent"@.len() == 14);
    reveal_strlit("vacancy-decision-invalid");
    assert("vacancy-decision-invalid"@.len() == 24);
    reveal_strlit("vacancy-decision-required");
    assert("vacancy-decision-required"@.len() == 25);
    assert("duplicate-person-id"@[0] == 'd');
    assert("exec-root-protected"@[0] == 'e');
    assert("head-decision-required"@[0] == 'h');
    assert("requester-out-of-scope"@[0] == 'r');
}

proof fn lemma_transfer_codes(a: TransferRefusalModel, b: TransferRefusalModel)
    ensures
        a.code_text() == b.code_text() ==> match a {
            TransferRefusalModel::UnknownPerson => b is UnknownPerson,
            TransferRefusalModel::NotAMember => b is NotAMember,
            TransferRefusalModel::UnknownDestination => b is UnknownDestination,
            TransferRefusalModel::DestinationPaused => b is DestinationPaused,
            TransferRefusalModel::PersonDeparted => b is PersonDeparted,
            TransferRefusalModel::HeadNeedsSuccessor => b is HeadNeedsSuccessor,
            TransferRefusalModel::HeadVacancy(_) => b is HeadVacancy,
            TransferRefusalModel::ExecRootProtected => b is ExecRootProtected,
            TransferRefusalModel::ActorOutOfScope => b is ActorOutOfScope,
        },
{
    reveal_strlit("actor-out-of-scope");
    assert("actor-out-of-scope"@.len() == 18);
    reveal_strlit("destination-paused");
    assert("destination-paused"@.len() == 18);
    reveal_strlit("exec-root-protected");
    assert("exec-root-protected"@.len() == 19);
    reveal_strlit("head-needs-successor");
    assert("head-needs-successor"@.len() == 20);
    reveal_strlit("not-a-member");
    assert("not-a-member"@.len() == 12);
    reveal_strlit("person-departed");
    assert("person-departed"@.len() == 15);
    reveal_strlit("unknown-destination");
    assert("unknown-destination"@.len() == 19);
    reveal_strlit("unknown-person");
    assert("unknown-person"@.len() == 14);
    reveal_strlit("vacancy-decision-invalid");
    assert("vacancy-decision-invalid"@.len() == 24);
    reveal_strlit("vacancy-decision-required");
    assert("vacancy-decision-required"@.len() == 25);
    assert("actor-out-of-scope"@[0] == 'a');
    assert("destination-paused"@[0] == 'd');
    assert("exec-root-protected"@[0] == 'e');
    assert("unknown-destination"@[0] == 'u');
}

/// A code tells one refusal of a verb from every other.
pub proof fn law_codes_tell_refusals_apart(
    appoint: (AppointRefusal, AppointRefusal),
    reparent: (ReparentRefusal, ReparentRefusal),
    offboard: (OffboardRefusal, OffboardRefusal),
    pause: (PauseRefusal, PauseRefusal),
    bench: (BenchRefusal, BenchRefusal),
    shutdown: (ShutdownRefusal, ShutdownRefusal),
)
    ensures
        appoint.0.code_text() == appoint.1.code_text() ==> appoint.0 == appoint.1,
        reparent.0.code_text() == reparent.1.code_text() ==> reparent.0 == reparent.1,
        offboard.0.code_text() == offboard.1.code_text() ==> offboard.0 == offboard.1,
        pause.0.code_text() == pause.1.code_text() ==> pause.0 == pause.1,
        bench.0.code_text() == bench.1.code_text() ==> bench.0 == bench.1,
        shutdown.0.code_text() == shutdown.1.code_text() ==> shutdown.0 == shutdown.1,
{
    lemma_appointment_codes(appoint.0, appoint.1);
    lemma_reparent_codes(reparent.0, reparent.1);
    lemma_offboard_codes(offboard.0, offboard.1);
    lemma_pause_codes(pause.0, pause.1);
    lemma_bench_codes(bench.0, bench.1);
    lemma_shutdown_codes(shutdown.0, shutdown.1);
}

/// A code tells one kind of refusal of a create or a transfer from every other;
/// what becomes of a unit that is left is refused under a code of its own.
pub proof fn law_codes_tell_creates_and_transfers_apart(
    a: CreateRefusalModel,
    b: CreateRefusalModel,
    x: TransferRefusalModel,
    y: TransferRefusalModel,
)
    ensures
        a.code_text() == b.code_text() && a is InvalidSeed ==> b is InvalidSeed,
        a.code_text() == b.code_text() && a is HeadNotEligible ==> b is HeadNotEligible,
        a.code_text() == b.code_text() && a is RequesterOutOfScope ==> b is RequesterOutOfScope,
        a.code_text() == b.code_text() && a is UnknownParent ==> b is UnknownParent,
        a.code_text() == b.code_text() && a is ParentPaused ==> b is ParentPaused,
        a.code_text() == b.code_text() && a is DuplicateDepartmentId ==> b is DuplicateDepartmentId,
        a.code_text() == b.code_text() && a is DuplicatePersonId ==> b is DuplicatePersonId,
        a.code_text() == b.code_text() && a is HeadDecisionRequired ==> b is HeadDecisionRequired,
        a.code_text() == b.code_text() && a is ExecRootProtected ==> b is ExecRootProtected,
        a.code_text() == b.code_text() && a is HeadVacancy ==> b is HeadVacancy,
        x.code_text() == y.code_text() && x is UnknownPerson ==> y is UnknownPerson,
        x.code_text() == y.code_text() && x is NotAMember ==> y is NotAMember,
        x.code_text() == y.code_text() && x is UnknownDestination ==> y is UnknownDestination,
        x.code_text() == y.code_text() && x is DestinationPaused ==> y is DestinationPaused,
        x.code_text() == y.code_text() && x is PersonDeparted ==> y is PersonDeparted,
        x.code_text() == y.code_text() && x is HeadNeedsSuccessor ==> y is HeadNeedsSuccessor,
        x.code_text() == y.code_text() && x is HeadVacancy ==> y is HeadVacancy,
        x.code_text() == y.code_text() && x is ExecRootProtected ==> y is ExecRootProtected,
        x.code_text() == y.code_text() && x is ActorOutOfScope ==> y is ActorOutOfScope,
{
    lemma_create_codes(a, b);
    lemma_transfer_codes(x, y);
}

/// One cause has one code, whatever the verb: who is out of scope, who is the CEO,
/// who or what is not there, who has departed.
pub proof fn law_one_cause_has_one_code()
    ensures
        ({
            let scope = ShutdownRefusal::ActorOutOfScope.code_text();
            let root = BenchRefusal::ExecRootProtected.code_text();
            let unit = PauseRefusal::UnknownDepartment.code_text();
            let person = OffboardRefusal::UnknownPerson.code_text();
            &&& scope == "actor-out-of-scope"@
            &&& AppointRefusal::ActorOutOfScope.code_text() == scope
            &&& ReparentRefusal::ActorOutOfScope.code_text() == scope
            &&& OffboardRefusal::ActorOutOfScope.code_text() == scope
            &&& PauseRefusal::ActorOutOfScope.code_text() == scope
            &&& BenchRefusal::ActorOutOfScope.code_text() == scope
            &&& TransferRefusalModel::ActorOutOfScope.code_text() == scope
            &&& root == "exec-root-protected"@
            &&& ReparentRefusal::ExecRootProtected.code_text() == root
            &&& OffboardRefusal::ExecRootProtected.code_text() == root
            &&& PauseRefusal::ExecRootProtected.code_text() == root
            &&& TransferRefusalModel::ExecRootProtected.code_text() == root
            &&& unit == "unknown-department"@
            &&& AppointRefusal::UnknownDepartment.code_text() == unit
            &&& ReparentRefusal::UnknownDepartment.code_text() == unit
            &&& person == "unknown-person"@
            &&& BenchRefusal::UnknownPerson.code_text() == person
            &&& TransferRefusalModel::UnknownPerson.code_text() == person
            &&& BenchRefusal::AlreadyDeparted.code_text()
                == OffboardRefusal::AlreadyDeparted.code_text()
            &&& TransferRefusalModel::HeadNeedsSuccessor.code_text()
                == OffboardRefusal::HeadNeedsSuccessor.code_text()
            &&& TransferRefusalModel::NotAMember.code_text()
                == AppointRefusal::NotAMember.code_text()
        }),
{
}

} // verus!
