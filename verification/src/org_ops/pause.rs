//! Stopping units and setting them running again.

use vstd::prelude::*;

use crate::company::{Company, CompanyModel, TransitionAction};
use crate::order::lemma_sorted;
use crate::org_ops::guards::{
    actor_out_of_scope, company_root, department_is_company_root, department_state, RowError,
};
use crate::org_ops::refusals::{PauseOutcome, PauseRefusal};
use crate::org_view::{beneath, lemma_first_where, those_where};
use crate::organization::{EmploymentState, UnitState};
use crate::rows::ledger::{
    abandoned, abandoned_transition, cancelled, cancelled_transition, transition_id,
    transition_text,
};
use crate::table::listing;
use crate::text::{cat2, cat4, opt, same, seen, Text};

verus! {

// ---------------------------------------------------------------------------
// One unit
// ---------------------------------------------------------------------------

/// What a transition that a pause cuts short says.
pub open spec fn pause_marker(department: Text) -> Text {
    "superseded-by-pause:"@ + department
}

/// The decision a pause makes about somebody running.
pub open spec fn unit_stop(department: Text, transition: Text) -> Text {
    "unit-stop:"@ + department + ":"@ + transition
}

/// The line of a park that a pause makes of somebody about to start.
pub open spec fn pause_line(person: Text, department: Text) -> Text {
    "paused "@ + person + " with department "@ + department
}

impl CompanyModel {
    /// Why a unit is not stopped or set running, if it is not.
    pub open spec fn pause_refusal(self, department: Text, paused: bool, actor: Text) -> Option<
        PauseRefusal,
    > {
        if !self.departments.dom().contains(department) {
            Some(PauseRefusal::UnknownDepartment)
        } else if self.company_root() == Some(department) {
            Some(PauseRefusal::ExecRootProtected)
        } else if self.out_of_scope(actor, department) {
            Some(PauseRefusal::ActorOutOfScope)
        } else if paused && self.departments[department].state == UnitState::Paused {
            Some(PauseRefusal::AlreadyPaused)
        } else if !paused && self.departments[department].state != UnitState::Paused {
            Some(PauseRefusal::NotPaused)
        } else {
            None
        }
    }

    /// Who heads the root.
    pub open spec fn root_head(self) -> Option<Text> {
        match self.company_root() {
            Some(root) => Some(self.departments[root].head_person_id),
            None => None,
        }
    }

    /// Somebody's unit is stopped under them: no start decision and no open
    /// transition stay. Whoever was in the middle of something has it recorded
    /// that the unit was stopped, whoever was only about to start that nobody
    /// was there to release anything; either is not wanted up any more.
    pub open spec fn swept(self, member: Text, department: Text, at: Text) -> CompanyModel {
        let known = self.activity.dom().contains(member);
        let active = self.lifecycle_active(member);
        let fenced = self.fences.dom().contains(member);
        let quiet = self.supersede_open_transition(
            member,
            pause_marker(department),
            at,
        ).delete_fence(member);
        if !self.people.dom().contains(member) || self.people[member].employment_state
            == EmploymentState::Departed {
            quiet
        } else {
            let home = self.people[member].department_id;
            let id = quiet.next_transition_id(member, TransitionAction::Park);
            let recorded = if active {
                quiet.counted().insert_transition(
                    id,
                    cancelled_transition(
                        member,
                        TransitionAction::Park,
                        home,
                        unit_stop(department, id),
                        pause_marker(department),
                        at,
                    ),
                )
            } else if fenced {
                quiet.counted().insert_transition(
                    id,
                    abandoned_transition(
                        member,
                        TransitionAction::Park,
                        home,
                        None,
                        pause_line(member, department),
                        at,
                    ),
                )
            } else {
                quiet
            };
            if known || active || fenced {
                recorded.upsert_desired_off(
                    member,
                    self.people[member].employment_state,
                    home,
                    false,
                    at,
                )
            } else {
                recorded
            }
        }
    }

    /// Whether a pause makes a park for somebody: they are employed, and in the
    /// middle of something or about to start.
    pub open spec fn parked_by_pause(self, member: Text) -> bool {
        &&& self.people.dom().contains(member)
        &&& self.people[member].employment_state != EmploymentState::Departed
        &&& self.lifecycle_active(member) || self.fences.dom().contains(member)
    }

    /// Who is not the CEO and has a park made for them by a pause.
    pub open spec fn parked_but_the_ceo(self) -> spec_fn(Text) -> bool {
        |member: Text| self.root_head() != Some(member) && self.parked_by_pause(member)
    }

    /// Whether the rows cannot take a pause: one of the parks it makes has an
    /// id that is taken.
    pub open spec fn pause_breaks(self, department: Text) -> bool {
        self.number_clash(
            those_where(self.subtree_members(department), self.parked_but_the_ceo()),
        )
    }

    /// Whether parks made for these people, one after the other, meet an id
    /// that is taken.
    pub open spec fn number_clash(self, people: Seq<Text>) -> bool {
        exists|i: int|
            0 <= i < people.len() && self.transitions.dom().contains(
                #[trigger] transition_id(
                    (self.transition_seq + 1 + i) as nat,
                    people[i],
                    TransitionAction::Park,
                ),
            )
    }

    /// The unit is stopped under these people, but the CEO.
    pub open spec fn swept_all(
        self,
        members: Seq<Text>,
        ceo: Option<Text>,
        department: Text,
        at: Text,
    ) -> CompanyModel
        decreases members.len(),
    {
        if members.len() == 0 {
            self
        } else {
            let before = self.swept_all(members.drop_last(), ceo, department, at);
            if ceo == Some(members.last()) {
                before
            } else {
                before.swept(members.last(), department, at)
            }
        }
    }

    /// A unit is stopped, and so is everybody in it or beneath it.
    pub open spec fn paused(self, department: Text, at: Text, actor: Text) -> CompanyModel {
        let flipped = self.set_department_state(department, UnitState::Paused, at);
        flipped.swept_all(
            flipped.subtree_members(department),
            flipped.root_head(),
            department,
            at,
        ).emitted(at, actor)
    }

    /// A unit is set running. Nobody starts.
    pub open spec fn resumed(self, department: Text, at: Text, actor: Text) -> CompanyModel {
        self.set_department_state(department, UnitState::Active, at).emitted(at, actor)
    }
}

/// Who heads the root.
pub fn root_head(company: &Company) -> (r: Option<String>)
    requires
        company.wf(),
    ensures
        opt(r) == company@.root_head(),
{
    match company_root(company) {
        Some(root) => {
            proof {
                let m = company@.org().departments;
                lemma_first_where(listing(m.dom()), |d: Text| m[d].parent is None);
                company.departments.lemma_listing();
                assert(m.dom() =~= company@.departments.dom());
            }
            match company.departments.get(root.as_str()) {
                Some(row) => Some(row.head_person_id.clone()),
                None => None,
            }
        },
        None => None,
    }
}

fn sweep(company: &mut Company, member: &str, department_id: &str, at: &str)
    requires
        old(company).wf(),
        old(company)@.transition_seq < u64::MAX,
    ensures
        final(company).wf(),
        final(company)@ == old(company)@.swept(member@, department_id@, at@),
        final(company)@.transition_seq <= old(company)@.transition_seq + 1,
{
    let known = company.activity.has(member);
    let active = company.lifecycle_active(member);
    let fenced = company.fences.has(member);
    let placement = match company.people.get(member) {
        Some(row) => if row.employment_state == EmploymentState::Departed {
            None
        } else {
            Some((row.employment_state, row.department_id.clone()))
        },
        None => None,
    };
    let marker = cat2("superseded-by-pause:", department_id);
    company.supersede_open_transition(member, marker.as_str(), at);
    company.delete_fence(member);
    if let Some((employment, home)) = placement {
        if active {
            let id = company.next_transition_id(member, TransitionAction::Park);
            let intent = cat4("unit-stop:", department_id, ":", id.as_str());
            let row = cancelled(
                member,
                TransitionAction::Park,
                home.as_str(),
                intent.as_str(),
                marker.as_str(),
                at,
            );
            company.count_transition();
            company.insert_transition(id.as_str(), row);
        } else if fenced {
            let id = company.next_transition_id(member, TransitionAction::Park);
            let line = cat4("paused ", member, " with department ", department_id);
            let row = abandoned(
                member,
                TransitionAction::Park,
                home.as_str(),
                None,
                line.as_str(),
                at,
            );
            company.count_transition();
            company.insert_transition(id.as_str(), row);
        }
        if known || active || fenced {
            company.upsert_desired_off(member, employment, home.as_str(), false, at);
        }
    }
}

proof fn lemma_those_fit(q: Seq<Text>, p: spec_fn(Text) -> bool)
    ensures
        those_where(q, p).len() <= q.len(),
    decreases q.len(),
{
    if q.len() > 0 {
        lemma_those_fit(q.drop_last(), p);
    }
}

/// A unit has no more members than there are people.
pub proof fn lemma_members_fit(c: CompanyModel, department: Text)
    ensures
        c.subtree_members(department).len() <= listing(c.people.dom()).len(),
{
    lemma_sorted(listing(c.people.dom()), |p: Text| seq![c.people[p].ordinal]);
    lemma_those_fit(
        c.roster(),
        |p: Text| beneath(
            c.org().departments,
            c.people[p].department_id,
            department,
        ),
    );
}

fn sweep_subtree(company: &mut Company, department_id: &str, at: &str)
    requires
        old(company).wf(),
        old(company)@.transition_seq + listing(old(company)@.people.dom()).len() <= u64::MAX,
    ensures
        final(company).wf(),
        final(company)@ == old(company)@.swept_all(
            old(company)@.subtree_members(department_id@),
            old(company)@.root_head(),
            department_id@,
            at@,
        ),
{
    let ceo = root_head(company);
    let members = company.subtree_members(department_id);
    let ghost q = seen(members@);
    proof {
        lemma_members_fit(company@, department_id@);
    }
    let mut i: usize = 0;
    while i < members.len()
        invariant
            i <= members@.len(),
            q == seen(members@),
            q.len() <= listing(old(company)@.people.dom()).len(),
            old(company)@.transition_seq + listing(old(company)@.people.dom()).len() <= u64::MAX,
            opt(ceo) == old(company)@.root_head(),
            company.wf(),
            company@ == old(company)@.swept_all(
                q.take(i as int),
                old(company)@.root_head(),
                department_id@,
                at@,
            ),
            company@.transition_seq <= old(company)@.transition_seq + i,
        decreases members@.len() - i,
    {
        proof {
            assert(q.take(i + 1).drop_last() =~= q.take(i as int));
            assert(q.take(i + 1).last() == members@[i as int]@);
            assert(q.len() == members@.len());
        }
        let exempt = match &ceo {
            Some(head) => same(head.as_str(), members[i].as_str()),
            None => false,
        };
        if !exempt {
            sweep(company, members[i].as_str(), department_id, at);
        }
        i = i + 1;
    }
    proof {
        assert(q.take(i as int) =~= q);
    }
}

/// Whether a pause makes a park for somebody.
fn parked_by_pause(company: &Company, member: &str) -> (r: bool)
    requires
        company.wf(),
    ensures
        r == company@.parked_by_pause(member@),
{
    match company.people.get(member) {
        Some(row) => row.employment_state != EmploymentState::Departed && (
        company.lifecycle_active(member) || company.fences.has(member)),
        None => false,
    }
}

/// Whether the rows cannot take a pause.
fn pause_breaks(company: &Company, department_id: &str) -> (r: bool)
    requires
        company.wf(),
        company@.transition_seq + listing(company@.people.dom()).len() <= u64::MAX,
    ensures
        r == company@.pause_breaks(department_id@),
{
    let ghost c = company@;
    let ghost p = c.parked_but_the_ceo();
    let ceo = root_head(company);
    let members = company.subtree_members(department_id);
    let ghost q = seen(members@);
    proof {
        lemma_members_fit(c, department_id@);
    }
    let mut taken = false;
    let mut number: u64 = company.transition_seq;
    let mut i: usize = 0;
    while i < members.len()
        invariant
            i <= members@.len(),
            q == seen(members@),
            q.len() <= listing(c.people.dom()).len(),
            c.transition_seq + listing(c.people.dom()).len() <= u64::MAX,
            company.wf(),
            c == company@,
            p == c.parked_but_the_ceo(),
            opt(ceo) == c.root_head(),
            number == c.transition_seq + those_where(q.take(i as int), p).len(),
            number <= c.transition_seq + i,
            taken == c.number_clash(those_where(q.take(i as int), p)),
        decreases members@.len() - i,
    {
        let ghost before = those_where(q.take(i as int), p);
        proof {
            assert(q.take(i + 1).drop_last() =~= q.take(i as int));
            assert(q.take(i + 1).last() == members@[i as int]@);
            assert(q.len() == members@.len());
        }
        let member = members[i].as_str();
        let exempt = match &ceo {
            Some(head) => same(head.as_str(), member),
            None => false,
        };
        if !exempt && parked_by_pause(company, member) {
            number = number + 1;
            let id = transition_text(number, member, TransitionAction::Park);
            let clash = company.transitions.has(id.as_str());
            proof {
                lemma_one_more_clash(c, before, member@);
            }
            taken = taken || clash;
        }
        i = i + 1;
    }
    proof {
        assert(q.take(i as int) =~= q);
    }
    taken
}

/// A clash among parks is one among the first of them, or at the last.
proof fn lemma_one_more_clash(c: CompanyModel, people: Seq<Text>, one: Text)
    ensures
        c.number_clash(people.push(one)) == (c.number_clash(people)
            || c.transitions.dom().contains(
            transition_id(
                (c.transition_seq + 1 + people.len()) as nat,
                one,
                TransitionAction::Park,
            ),
        )),
{
    let more = people.push(one);
    let n = c.transition_seq;
    if c.number_clash(people) {
        let i = choose|i: int|
            0 <= i < people.len() && c.transitions.dom().contains(
                #[trigger] transition_id((n + 1 + i) as nat, people[i], TransitionAction::Park),
            );
        assert(more[i] == people[i]);
        assert(c.transitions.dom().contains(
            transition_id((n + 1 + i) as nat, more[i], TransitionAction::Park),
        ));
    }
    if c.transitions.dom().contains(
        transition_id((n + 1 + people.len()) as nat, one, TransitionAction::Park),
    ) {
        let i = people.len() as int;
        assert(more[i] == one);
        assert(c.transitions.dom().contains(
            transition_id((n + 1 + i) as nat, more[i], TransitionAction::Park),
        ));
    }
    if c.number_clash(more) {
        let i = choose|i: int|
            0 <= i < more.len() && c.transitions.dom().contains(
                #[trigger] transition_id((n + 1 + i) as nat, more[i], TransitionAction::Park),
            );
        if i < people.len() {
            assert(people[i] == more[i]);
            assert(c.transitions.dom().contains(
                transition_id((n + 1 + i) as nat, people[i], TransitionAction::Park),
            ));
        }
    }
}

fn set_department_paused_op(
    company: &mut Company,
    department_id: &str,
    paused: bool,
    at: &str,
    actor: &str,
) -> (r: Result<PauseOutcome, RowError>)
    requires
        old(company).wf(),
        paused ==> old(company)@.transition_seq + listing(old(company)@.people.dom()).len()
            <= u64::MAX,
    ensures
        final(company).wf(),
        match r {
            Ok(PauseOutcome::Refused { reason }) => old(company)@.pause_refusal(
                department_id@,
                paused,
                actor@,
            ) == Some(reason) && final(company)@ == old(company)@,
            Ok(PauseOutcome::Applied) => old(company)@.pause_refusal(
                department_id@,
                paused,
                actor@,
            ) is None && !(paused && old(company)@.pause_breaks(department_id@)) && final(company)@
                == (if paused {
                old(company)@.paused(department_id@, at@, actor@)
            } else {
                old(company)@.resumed(department_id@, at@, actor@)
            }),
            Err(e) => old(company)@.pause_refusal(department_id@, paused, actor@) is None && paused
                && old(company)@.pause_breaks(department_id@) && e == RowError::Constraint
                && final(company)@ == old(company)@,
        },
{
    let state = match department_state(company, department_id) {
        Some(state) => state,
        None => {
            return Ok(PauseOutcome::Refused { reason: PauseRefusal::UnknownDepartment });
        },
    };
    if department_is_company_root(company, department_id) {
        return Ok(PauseOutcome::Refused { reason: PauseRefusal::ExecRootProtected });
    }
    if actor_out_of_scope(company, actor, department_id) {
        return Ok(PauseOutcome::Refused { reason: PauseRefusal::ActorOutOfScope });
    }
    if paused && state == UnitState::Paused {
        return Ok(PauseOutcome::Refused { reason: PauseRefusal::AlreadyPaused });
    }
    if !paused && state != UnitState::Paused {
        return Ok(PauseOutcome::Refused { reason: PauseRefusal::NotPaused });
    }
    if paused {
        if pause_breaks(company, department_id) {
            return Err(RowError::Constraint);
        }
        company.set_department_state(department_id, UnitState::Paused, at);
        sweep_subtree(company, department_id, at);
    } else {
        company.set_department_state(department_id, UnitState::Active, at);
    }
    company.emit(at, actor);
    Ok(PauseOutcome::Applied)
}

/// Stop a unit and everybody in it or beneath it. The root is never stopped,
/// and the CEO is not, wherever they sit.
pub fn pause_department(company: &mut Company, department_id: &str, at: &str, actor: &str) -> (r:
    Result<PauseOutcome, RowError>)
    requires
        old(company).wf(),
        old(company)@.transition_seq + listing(old(company)@.people.dom()).len() <= u64::MAX,
    ensures
        final(company).wf(),
        match r {
            Ok(PauseOutcome::Refused { reason }) => old(company)@.pause_refusal(
                department_id@,
                true,
                actor@,
            ) == Some(reason) && final(company)@ == old(company)@,
            Ok(PauseOutcome::Applied) => old(company)@.pause_refusal(department_id@, true, actor@)
                is None && !old(company)@.pause_breaks(department_id@) && final(company)@
                == old(company)@.paused(department_id@, at@, actor@),
            Err(e) => old(company)@.pause_refusal(department_id@, true, actor@) is None
                && old(company)@.pause_breaks(department_id@) && e == RowError::Constraint
                && final(company)@ == old(company)@,
        },
{
    set_department_paused_op(company, department_id, true, at, actor)
}

/// Set a unit running again. Nobody starts: people come up when somebody asks
/// for them.
pub fn resume_department(company: &mut Company, department_id: &str, at: &str, actor: &str) -> (r:
    Result<PauseOutcome, RowError>)
    requires
        old(company).wf(),
    ensures
        final(company).wf(),
        match r {
            Ok(PauseOutcome::Refused { reason }) => old(company)@.pause_refusal(
                department_id@,
                false,
                actor@,
            ) == Some(reason) && final(company)@ == old(company)@,
            Ok(PauseOutcome::Applied) => old(company)@.pause_refusal(department_id@, false, actor@)
                is None && final(company)@ == old(company)@.resumed(department_id@, at@, actor@),
            Err(_) => false,
        },
{
    set_department_paused_op(company, department_id, false, at, actor)
}

// ---------------------------------------------------------------------------
// A set of units
// ---------------------------------------------------------------------------

impl CompanyModel {
    /// Why a set of units from place `i` on is not set running, if it is not:
    /// the first refusal stands for all.
    pub open spec fn resume_refusal_from(
        self,
        departments: Seq<Text>,
        skip_active: bool,
        actor: Text,
        i: int,
    ) -> Option<PauseRefusal>
        decreases departments.len() - i,
    {
        if i < 0 || i >= departments.len() {
            None
        } else {
            let department = departments[i];
            if !self.departments.dom().contains(department) {
                Some(PauseRefusal::UnknownDepartment)
            } else if self.company_root() == Some(department) {
                Some(PauseRefusal::ExecRootProtected)
            } else if self.out_of_scope(actor, department) {
                Some(PauseRefusal::ActorOutOfScope)
            } else if self.departments[department].state != UnitState::Paused && !skip_active {
                Some(PauseRefusal::NotPaused)
            } else {
                self.resume_refusal_from(departments, skip_active, actor, i + 1)
            }
        }
    }

    /// Why a set of units is not set running, if it is not.
    pub open spec fn resume_refusal(
        self,
        departments: Seq<Text>,
        skip_active: bool,
        actor: Text,
    ) -> Option<PauseRefusal> {
        if departments.len() == 0 {
            Some(PauseRefusal::UnknownDepartment)
        } else {
            self.resume_refusal_from(departments, skip_active, actor, 0)
        }
    }

    /// Those of these units that are stopped are set running.
    pub open spec fn resume_all(self, departments: Seq<Text>, at: Text) -> CompanyModel
        decreases departments.len(),
    {
        if departments.len() == 0 {
            self
        } else {
            let before = self.resume_all(departments.drop_last(), at);
            let department = departments.last();
            if before.departments.dom().contains(department)
                && before.departments[department].state == UnitState::Paused {
                before.set_department_state(department, UnitState::Active, at)
            } else {
                before
            }
        }
    }
}

/// Set a set of units running: all of them, or none. With `skip_active` a unit
/// that runs already is no reason to refuse.
pub fn resume_departments(
    company: &mut Company,
    department_ids: &[String],
    skip_active: bool,
    at: &str,
    actor: &str,
) -> (r: Result<PauseOutcome, RowError>)
    requires
        old(company).wf(),
    ensures
        final(company).wf(),
        match r {
            Ok(PauseOutcome::Refused { reason }) => old(company)@.resume_refusal(
                seen(department_ids@),
                skip_active,
                actor@,
            ) == Some(reason) && final(company)@ == old(company)@,
            Ok(PauseOutcome::Applied) => old(company)@.resume_refusal(
                seen(department_ids@),
                skip_active,
                actor@,
            ) is None && final(company)@ == old(company)@.resume_all(
                seen(department_ids@),
                at@,
            ).emitted(at@, actor@),
            Err(_) => false,
        },
{
    let ghost q = seen(department_ids@);
    proof {
        assert(q.len() == department_ids@.len());
    }
    if department_ids.len() == 0 {
        return Ok(PauseOutcome::Refused { reason: PauseRefusal::UnknownDepartment });
    }
    let mut i: usize = 0;
    while i < department_ids.len()
        invariant
            i <= department_ids@.len(),
            q == seen(department_ids@),
            q.len() > 0,
            company.wf(),
            *company == *old(company),
            company@.resume_refusal_from(q, skip_active, actor@, 0) == company@.resume_refusal_from(
                q,
                skip_active,
                actor@,
                i as int,
            ),
        decreases department_ids@.len() - i,
    {
        proof {
            assert(q[i as int] == department_ids@[i as int]@);
        }
        let department_id = department_ids[i].as_str();
        let state = match department_state(company, department_id) {
            Some(state) => state,
            None => {
                return Ok(PauseOutcome::Refused { reason: PauseRefusal::UnknownDepartment });
            },
        };
        if department_is_company_root(company, department_id) {
            return Ok(PauseOutcome::Refused { reason: PauseRefusal::ExecRootProtected });
        }
        if actor_out_of_scope(company, actor, department_id) {
            return Ok(PauseOutcome::Refused { reason: PauseRefusal::ActorOutOfScope });
        }
        if state != UnitState::Paused && !skip_active {
            return Ok(PauseOutcome::Refused { reason: PauseRefusal::NotPaused });
        }
        i = i + 1;
    }
    let mut k: usize = 0;
    while k < department_ids.len()
        invariant
            k <= department_ids@.len(),
            q == seen(department_ids@),
            company.wf(),
            company@ == old(company)@.resume_all(q.take(k as int), at@),
        decreases department_ids@.len() - k,
    {
        proof {
            assert(q.take(k + 1).drop_last() =~= q.take(k as int));
            assert(q.take(k + 1).last() == department_ids@[k as int]@);
        }
        let department_id = department_ids[k].as_str();
        if department_state(company, department_id) == Some(UnitState::Paused) {
            company.set_department_state(department_id, UnitState::Active, at);
        }
        k = k + 1;
    }
    proof {
        assert(q.take(k as int) =~= q);
    }
    company.emit(at, actor);
    Ok(PauseOutcome::Applied)
}

} // verus!
