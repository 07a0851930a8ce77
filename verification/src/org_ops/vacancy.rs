//! Leaving a headship.

use vstd::prelude::*;

use crate::company::{Company, CompanyModel, StaffingAction};
use crate::org_ops::decisions::{HeadVacancy, HeadVacancyModel};
use crate::org_ops::guards::person_heads_department_other_than;
use crate::org_view::{department_headed_by_person, headed_by, lemma_first_where};
use crate::organization::PersonKind;
use crate::rows::chart::eligibility_view;
use crate::table::listing;
use crate::text::{lemma_seen_push, opt, owned, owned_opt, same, seen, Text};

verus! {

impl CompanyModel {
    /// The unit somebody heads.
    pub open spec fn headed_by(self, person: Text) -> Option<Text> {
        headed_by(self.org().departments, person)
    }

    /// Whoever is left of a unit that goes, but the one who leaves it, comes to
    /// its parent.
    pub open spec fn rehome(
        self,
        residents: Seq<Text>,
        leaver: Text,
        from: Text,
        to: Text,
        reason: Text,
        at: Text,
    ) -> CompanyModel
        decreases residents.len(),
    {
        if residents.len() == 0 {
            self
        } else {
            let before = self.rehome(residents.drop_last(), leaver, from, to, reason, at);
            let who = residents.last();
            if who == leaver {
                before
            } else {
                before.move_person(who, to, at).append_staffing(
                    who,
                    StaffingAction::Transferred,
                    Some(from),
                    Some(to),
                    reason,
                    at,
                )
            }
        }
    }

    /// Somebody leaves the unit they head: it gets another head, or it goes.
    pub open spec fn vacated(
        self,
        person: Text,
        decision: HeadVacancyModel,
        reason: Text,
        at: Text,
    ) -> CompanyModel {
        match self.headed_by(person) {
            None => self,
            Some(unit) => {
                (match decision {
                    HeadVacancyModel::HandOver { successor_person_id } =>
                    self.set_department_head(unit, successor_person_id, at).set_person_kind(
                        successor_person_id,
                        PersonKind::Head,
                        at,
                    ).append_staffing(
                        successor_person_id,
                        StaffingAction::AppointedHead,
                        Some(unit),
                        Some(unit),
                        reason,
                        at,
                    ),
                    HeadVacancyModel::Dissolve => {
                        (match self.departments[unit].parent_id {
                            Some(parent) => self.rehome(
                                self.people_in(seq![unit]),
                                person,
                                unit,
                                parent,
                                reason,
                                at,
                            ),
                            None => self,
                        }).delete_department(unit).refresh_department_order(at)
                    },
                }).append_staffing(
                    person,
                    StaffingAction::SteppedDown,
                    Some(unit),
                    None,
                    reason,
                    at,
                )
            },
        }
    }

    /// Whether somebody else is in a unit.
    pub open spec fn has_resident_but(self, unit: Text, person: Text) -> bool {
        exists|p: Text| #[trigger]
            self.people.dom().contains(p) && p != person && self.people[p].department_id == unit
    }

    /// Whether the rows cannot take somebody leaving the unit they head and
    /// coming to another: the successor heads a unit already, or a unit that
    /// goes is where they come to, or leaves somebody without a unit.
    pub open spec fn vacancy_breaks(
        self,
        person: Text,
        decision: HeadVacancyModel,
        lands: Text,
    ) -> bool {
        match self.headed_by(person) {
            None => false,
            Some(unit) => match decision {
                HeadVacancyModel::HandOver { successor_person_id } => self.heads_other_than(
                    successor_person_id,
                    unit,
                ),
                HeadVacancyModel::Dissolve => lands == unit || self.departments[unit].parent_id
                    is None && self.has_resident_but(unit, person),
            },
        }
    }
}

/// The unit somebody heads.
pub fn department_headed_by(company: &Company, person_id: &str) -> (r: Option<String>)
    requires
        company.wf(),
    ensures
        opt(r) == company@.headed_by(person_id@),
        r matches Some(unit) ==> company@.departments.dom().contains(unit@)
            && company@.departments[unit@].head_person_id == person_id@,
{
    let view = eligibility_view(company);
    match department_headed_by_person(&view, person_id) {
        Some(unit) => {
            proof {
                let m = company@.org().departments;
                lemma_first_where(listing(m.dom()), |d: Text| m[d].head == person_id@);
                company.departments.lemma_listing();
                assert(m.dom() =~= company@.departments.dom());
            }
            Some(owned(unit))
        },
        None => None,
    }
}

/// Whether somebody else is in a unit.
fn has_resident_but(company: &Company, unit: &str, person_id: &str) -> (r: bool)
    requires
        company.wf(),
    ensures
        r == company@.has_resident_but(unit@, person_id@),
{
    let ghost m = company@.people;
    let mut i: usize = 0;
    while i < company.people.keys.len()
        invariant
            i <= company.people.keys@.len(),
            company.wf(),
            m == company@.people,
            forall|j: int|
                0 <= j < i ==> !(#[trigger] company.people.keys@[j]@ != person_id@
                    && m[company.people.keys@[j]@].department_id == unit@),
        decreases company.people.keys@.len() - i,
    {
        proof {
            company.people.lemma_at(i as int);
        }
        if !same(company.people.keys[i].as_str(), person_id) && same(
            company.people.values[i].department_id.as_str(),
            unit,
        ) {
            proof {
                assert(m.dom().contains(company.people.keys@[i as int]@));
            }
            return true;
        }
        i = i + 1;
    }
    proof {
        assert forall|p: Text| #[trigger] m.dom().contains(p) implies !(p != person_id@
            && m[p].department_id == unit@) by {
            let j = choose|j: int|
                0 <= j < company.people.keys@.len() && #[trigger] company.people.keys@[j]@ == p;
            assert(company.people.keys@[j]@ == p);
        }
    }
    false
}

/// Whether the rows cannot take somebody leaving the unit they head.
pub fn vacancy_breaks(company: &Company, person_id: &str, decision: &HeadVacancy, lands: &str) -> (r:
    bool)
    requires
        company.wf(),
    ensures
        r == company@.vacancy_breaks(person_id@, decision@, lands@),
{
    match department_headed_by(company, person_id) {
        None => false,
        Some(unit) => match decision {
            HeadVacancy::HandOver { successor_person_id } => person_heads_department_other_than(
                company,
                successor_person_id.as_str(),
                unit.as_str(),
            ),
            HeadVacancy::Dissolve => {
                let parentless = match company.departments.get(unit.as_str()) {
                    Some(row) => row.parent_id.is_none(),
                    None => false,
                };
                same(lands, unit.as_str()) || parentless && has_resident_but(
                    company,
                    unit.as_str(),
                    person_id,
                )
            },
        },
    }
}

/// Bring whoever is left of a unit that goes to its parent.
fn rehome(
    company: &mut Company,
    residents: &Vec<String>,
    leaver: &str,
    from: &str,
    to: &str,
    reason: &str,
    at: &str,
)
    requires
        old(company).wf(),
    ensures
        final(company).wf(),
        final(company)@ == old(company)@.rehome(
            seen(residents@),
            leaver@,
            from@,
            to@,
            reason@,
            at@,
        ),
{
    let ghost q = seen(residents@);
    let mut i: usize = 0;
    while i < residents.len()
        invariant
            i <= residents@.len(),
            q == seen(residents@),
            company.wf(),
            company@ == old(company)@.rehome(
                q.take(i as int),
                leaver@,
                from@,
                to@,
                reason@,
                at@,
            ),
        decreases residents@.len() - i,
    {
        proof {
            assert(q.take(i + 1).drop_last() =~= q.take(i as int));
            assert(q.take(i + 1).last() == residents@[i as int]@);
        }
        let who = residents[i].as_str();
        if !same(who, leaver) {
            company.move_person(who, to, at);
            company.append_staffing(
                who,
                StaffingAction::Transferred,
                Some(from),
                Some(to),
                reason,
                at,
            );
        }
        i = i + 1;
    }
    proof {
        assert(q.take(i as int) =~= q);
    }
}

/// End the headship somebody holds. The one statement of the rule, shared by
/// every decision that moves a head.
pub fn vacate_headship(
    company: &mut Company,
    person_id: &str,
    decision: &HeadVacancy,
    reason: &str,
    at: &str,
)
    requires
        old(company).wf(),
    ensures
        final(company).wf(),
        final(company)@ == old(company)@.vacated(person_id@, decision@, reason@, at@),
{
    if let Some(unit) = department_headed_by(company, person_id) {
        let unit = unit.as_str();
        match decision {
            HeadVacancy::HandOver { successor_person_id } => {
                let successor = successor_person_id.as_str();
                company.set_department_head(unit, successor, at);
                company.set_person_kind(successor, PersonKind::Head, at);
                company.append_staffing(
                    successor,
                    StaffingAction::AppointedHead,
                    Some(unit),
                    Some(unit),
                    reason,
                    at,
                );
            },
            HeadVacancy::Dissolve => {
                let parent = match company.departments.get(unit) {
                    Some(row) => owned_opt(&row.parent_id),
                    None => None,
                };
                if let Some(parent) = parent {
                    let mut units: Vec<String> = Vec::new();
                    proof {
                        assert(seen(units@) =~= Seq::<Text>::empty());
                    }
                    let this = owned(unit);
                    proof {
                        lemma_seen_push(units@, this);
                    }
                    units.push(this);
                    proof {
                        assert(seen(units@) =~= seq![unit@]);
                    }
                    let residents = company.people_in(&units);
                    rehome(company, &residents, person_id, unit, parent.as_str(), reason, at);
                }
                company.delete_department(unit);
                company.refresh_department_order(at);
            },
        }
        company.append_staffing(
            person_id,
            StaffingAction::SteppedDown,
            Some(unit),
            None,
            reason,
            at,
        );
    }
}

} // verus!
