//! Every decision keeps the chart sound.

use vstd::prelude::*;

use crate::company::CompanyModel;
use crate::laws::chart::{
    charted, charted_around, charted_but, heads_nothing, lemma_headed_by_none,
    lemma_headed_by_only, lemma_heads, lemma_org, lemma_residents, lemma_same_shape,
    lemma_subtree, person_sound, unit_sound,
};
use crate::laws::decision::Decision;
use crate::laws::frames::{
    flipped_unit, lemma_clear_fences_in, lemma_delete_departments, lemma_left_behind_all, lemma_move_all,
    lemma_number_departments, lemma_number_people, lemma_rehome, lemma_resume_all,
    lemma_retract_in, lemma_seeded_all, lemma_swept_all, rehomed, replaced_person, replaced_unit,
    seeded_row, seeds,
};
use crate::laws::history::law_nothing_is_lost;
use crate::laws::tree::{
    lemma_beneath_step, lemma_leaf_added, lemma_parent_not_beneath, lemma_rooted_parent,
    lemma_same_parents, lemma_unit_hung, lemma_units_removed,
};
use crate::org_ops::create::hire_line;
use crate::org_ops::decisions::{HeadDecisionModel, HeadVacancyModel, StaffModel};
use crate::org_ops::guards::ledger_line;
use crate::org_projection::{
    create_refusal, hire_refusal, roster_refusal, vacancy_refusal, CreateModel, HireModel,
};
use crate::org_view::{beneath, children, lemma_members_but, lemma_those_where, members_but};
use crate::organization::{EmploymentState, PersonKind, UnitState};
use crate::rows::chart::{member_of_row, unit_of_row};
use crate::table::{lemma_finite_listing, listing};
use crate::text::Text;

verus! {

/// Whether `b` is sound with the same root under the same head.
pub open spec fn still_charted(a: CompanyModel, b: CompanyModel, root: Text) -> bool {
    &&& charted(b, root)
    &&& b.departments[root].head_person_id == a.departments[root].head_person_id
}

/// Refreshing the order of units changes neither the shape nor whether there
/// are finitely many.
pub proof fn lemma_units_ordered(c: CompanyModel, at: Text)
    ensures
        c.refresh_department_order(at).org() == c.org(),
        c.refresh_department_order(at).people == c.people,
        c.finite() ==> c.refresh_department_order(at).finite(),
        c.refresh_department_order(at).departments.dom() == c.departments.dom(),
        forall|d: Text| #[trigger]
            c.departments.dom().contains(d) ==> replaced_unit(
                c.departments[d],
                c.refresh_department_order(at).departments[d],
            ),
{
    lemma_number_departments(c, c.department_order(), at);
}

/// Refreshing the order of people changes neither the shape nor whether there
/// are finitely many.
pub proof fn lemma_people_ordered(c: CompanyModel, at: Text)
    ensures
        c.refresh_people_order(at).org() == c.org(),
        c.refresh_people_order(at).departments == c.departments,
        c.finite() ==> c.refresh_people_order(at).finite(),
        c.refresh_people_order(at).people.dom() == c.people.dom(),
        forall|p: Text| #[trigger]
            c.people.dom().contains(p) ==> replaced_person(
                c.people[p],
                c.refresh_people_order(at).people[p],
            ),
{
    lemma_number_people(c, c.people_order(), at);
}

/// Whether `r` is `c` with one unit gone and its residents, but for one
/// person, at home in its parent.
spec fn dissolved(c: CompanyModel, r: CompanyModel, x: Text, unit: Text, parent: Text) -> bool {
    &&& r.departments.dom() == c.departments.dom().remove(unit)
    &&& forall|d: Text| #[trigger]
        r.departments.dom().contains(d) ==> replaced_unit(c.departments[d], r.departments[d])
    &&& r.people.dom() == c.people.dom()
    &&& forall|p: Text| #[trigger]
        c.people.dom().contains(p) ==> if c.people[p].department_id == unit && p != x {
            rehomed(c.people[p], r.people[p], parent)
        } else {
            r.people[p] == c.people[p]
        }
}

proof fn lemma_dissolved(
    c: CompanyModel,
    x: Text,
    unit: Text,
    parent: Text,
    reason: Text,
    at: Text,
)
    requires
        c.finite(),
        c.departments.dom().contains(unit),
        c.departments[unit].parent_id == Some(parent),
        c.headed_by(x) == Some(unit),
    ensures
        dissolved(c, c.vacated(x, HeadVacancyModel::Dissolve, reason, at), x, unit, parent),
        c.vacated(x, HeadVacancyModel::Dissolve, reason, at).finite(),
{
    let residents = c.people_in(seq![unit]);
    lemma_residents(c, seq![unit]);
    assert forall|t: Text| seq![unit].contains(t) <==> t == unit by {
        assert(seq![unit][0] == unit);
    }
    lemma_rehome(c, residents, x, unit, parent, reason, at);
    let left = c.rehome(residents, x, unit, parent, reason, at);
    let cut = left.delete_department(unit);
    assert(cut.finite());
    lemma_units_ordered(cut, at);
    let r = c.vacated(x, HeadVacancyModel::Dissolve, reason, at);
    assert(r.departments == cut.refresh_department_order(at).departments);
    assert(r.departments.dom() =~= c.departments.dom().remove(unit));
    assert forall|d: Text| #[trigger] r.departments.dom().contains(d) implies replaced_unit(
        c.departments[d],
        r.departments[d],
    ) by {
        assert(cut.departments.dom().contains(d));
    }
}

proof fn lemma_chart_dissolved(
    c: CompanyModel,
    r: CompanyModel,
    root: Text,
    x: Text,
    unit: Text,
    parent: Text,
)
    requires
        charted_around(c, root, x, unit),
        c.departments[unit].parent_id == Some(parent),
        c.people[x].department_id != unit,
        forall|d: Text| #[trigger]
            c.departments.dom().contains(d) ==> c.departments[d].parent_id != Some(unit),
        dissolved(c, r, x, unit, parent),
    ensures
        charted_but(r, root, x),
        r.departments[root].head_person_id == c.departments[root].head_person_id,
{
    lemma_org(c);
    lemma_org(r);
    let m = c.org().departments;
    let n = r.org().departments;
    assert(m.dom().contains(unit));
    lemma_rooted_parent(m, unit, parent);
    lemma_parent_not_beneath(m, unit, parent);
    lemma_beneath_step(m, unit, unit);
    assert(parent != unit);
    assert forall|d: Text| #[trigger] n.dom().contains(d) implies m[d].parent == n[d].parent && (
    n[d].parent matches Some(e) ==> n.dom().contains(e)) by {
        assert(r.departments.dom().contains(d));
        assert(m.dom().contains(d));
        if let Some(e) = m[d].parent {
            lemma_rooted_parent(m, d, e);
            assert(c.departments.dom().contains(d));
        }
    }
    lemma_units_removed(m, n);
    assert(r.departments.dom().contains(root));
    assert forall|d: Text| #[trigger] r.departments.dom().contains(d) implies unit_sound(r, root, d)
        && r.departments[d].head_person_id != x by {
        assert(c.departments.dom().contains(d));
        assert(unit_sound(c, root, d));
        assert(c.people.dom().contains(c.departments[d].head_person_id));
    }
    assert forall|p: Text| #[trigger] r.people.dom().contains(p) && p != x implies person_sound(
        r,
        p,
    ) by {
        assert(c.people.dom().contains(p));
        assert(person_sound(c, p));
        if c.people[p].department_id != unit {
            assert(r.departments.dom().contains(c.people[p].department_id));
        } else {
            assert(r.departments.dom().contains(parent));
        }
    }
}

proof fn lemma_chart_handed_over(
    c: CompanyModel,
    root: Text,
    x: Text,
    unit: Text,
    s: Text,
    reason: Text,
    at: Text,
)
    requires
        c.finite(),
        charted_around(c, root, x, unit),
        s != x,
        c.people.dom().contains(s),
        c.people[s].department_id == unit,
        c.people[s].employment_state != EmploymentState::Departed,
    ensures
        ({
            let r = c.vacated(
                x,
                HeadVacancyModel::HandOver { successor_person_id: s },
                reason,
                at,
            );
            &&& r.finite()
            &&& charted_but(r, root, x)
            &&& r.departments[root].head_person_id == c.departments[root].head_person_id
            &&& r.people.dom() == c.people.dom()
            &&& r.people[x] == c.people[x]
            &&& r.departments.dom() == c.departments.dom()
        }),
{
    let r = c.vacated(x, HeadVacancyModel::HandOver { successor_person_id: s }, reason, at);
    lemma_headed_by_only(c, x, unit);
    lemma_org(c);
    lemma_org(r);
    let m = c.org().departments;
    let n = r.org().departments;
    assert(person_sound(c, s));
    assert(r.departments.dom() =~= c.departments.dom());
    assert(r.people.dom() =~= c.people.dom());
    lemma_same_parents(m, n);
    assert forall|d: Text| #[trigger] r.departments.dom().contains(d) implies unit_sound(r, root, d)
        && r.departments[d].head_person_id != x by {
        if d != unit {
            assert(unit_sound(c, root, d));
        }
    }
    assert forall|p: Text| #[trigger] r.people.dom().contains(p) && p != x implies person_sound(
        r,
        p,
    ) by {
        assert(person_sound(c, p));
    }
}

/// A unit handed over or dissolved leaves the chart sound but for whoever left
/// it.
proof fn lemma_vacated(
    c: CompanyModel,
    root: Text,
    x: Text,
    unit: Text,
    decision: HeadVacancyModel,
    reason: Text,
    at: Text,
)
    requires
        c.finite(),
        charted_around(c, root, x, unit),
        match decision {
            HeadVacancyModel::HandOver { successor_person_id } => successor_person_id != x
                && c.people.dom().contains(successor_person_id)
                && c.people[successor_person_id].department_id == unit
                && c.people[successor_person_id].employment_state != EmploymentState::Departed,
            HeadVacancyModel::Dissolve => c.people[x].department_id != unit && forall|d: Text|
                #[trigger]
                c.departments.dom().contains(d) ==> c.departments[d].parent_id != Some(unit),
        },
    ensures
        c.vacated(x, decision, reason, at).finite(),
        charted_but(c.vacated(x, decision, reason, at), root, x),
        c.vacated(x, decision, reason, at).departments[root].head_person_id
            == c.departments[root].head_person_id,
        c.vacated(x, decision, reason, at).people.dom() == c.people.dom(),
        c.vacated(x, decision, reason, at).people[x] == c.people[x],
        c.vacated(x, decision, reason, at).departments.dom() == (match decision {
            HeadVacancyModel::HandOver { .. } => c.departments.dom(),
            HeadVacancyModel::Dissolve => c.departments.dom().remove(unit),
        }),
{
    match decision {
        HeadVacancyModel::HandOver { successor_person_id } => {
            lemma_chart_handed_over(c, root, x, unit, successor_person_id, reason, at);
        },
        HeadVacancyModel::Dissolve => {
            let parent = c.departments[unit].parent_id->0;
            lemma_headed_by_only(c, x, unit);
            lemma_dissolved(c, x, unit, parent, reason, at);
            lemma_chart_dissolved(
                c,
                c.vacated(x, decision, reason, at),
                root,
                x,
                unit,
                parent,
            );
        },
    }
}

/// Whether the units are the same in shape, and so is everybody but one.
spec fn others_kept(a: CompanyModel, b: CompanyModel, x: Text) -> bool {
    &&& a.org().departments == b.org().departments
    &&& a.people.dom() == b.people.dom()
    &&& forall|p: Text| #[trigger]
        a.people.dom().contains(p) && p != x ==> member_of_row(a.people[p]) == member_of_row(
            b.people[p],
        )
}

proof fn lemma_units_agree(a: CompanyModel, b: CompanyModel)
    requires
        a.org().departments == b.org().departments,
    ensures
        a.departments.dom() == b.departments.dom(),
        forall|d: Text| #[trigger]
            a.departments.dom().contains(d) ==> unit_of_row(a.departments[d]) == unit_of_row(
                b.departments[d],
            ),
{
    lemma_org(a);
    lemma_org(b);
    assert forall|d: Text| #[trigger] a.departments.dom().contains(d) implies unit_of_row(
        a.departments[d],
    ) == unit_of_row(b.departments[d]) by {
        assert(b.departments.dom().contains(d));
    }
}

/// Whoever changes while they head a unit leaves the chart sound around them.
proof fn lemma_around(c: CompanyModel, b: CompanyModel, root: Text, x: Text, unit: Text)
    requires
        charted(c, root),
        others_kept(c, b, x),
        c.people.dom().contains(x),
        c.departments.dom().contains(unit),
        unit != root,
        c.departments[unit].head_person_id == x,
        c.departments.dom().contains(b.people[x].department_id),
    ensures
        charted_around(b, root, x, unit),
        b.departments[root].head_person_id == c.departments[root].head_person_id,
{
    lemma_units_agree(c, b);
    assert(unit_sound(c, root, unit));
    assert(c.departments.dom().contains(root));
    assert forall|d: Text| #[trigger]
        b.departments.dom().contains(d) && d != unit implies unit_sound(b, root, d)
        && b.departments[d].head_person_id != x by {
        assert(c.departments.dom().contains(d));
        assert(unit_sound(c, root, d));
        let h = c.departments[d].head_person_id;
        assert(c.people.dom().contains(h));
    }
    assert forall|p: Text| #[trigger] b.people.dom().contains(p) && p != x implies person_sound(
        b,
        p,
    ) by {
        assert(c.people.dom().contains(p));
        assert(person_sound(c, p));
        assert(c.departments.dom().contains(c.people[p].department_id));
    }
}

/// Whoever changes while they head nothing leaves the chart sound but for them.
proof fn lemma_but(c: CompanyModel, b: CompanyModel, root: Text, x: Text)
    requires
        charted(c, root),
        others_kept(c, b, x),
        heads_nothing(c, x),
        b.people.dom().contains(x) ==> c.departments.dom().contains(b.people[x].department_id),
    ensures
        charted_but(b, root, x),
        b.departments[root].head_person_id == c.departments[root].head_person_id,
{
    lemma_units_agree(c, b);
    assert(c.departments.dom().contains(root));
    assert forall|d: Text| #[trigger] b.departments.dom().contains(d) implies unit_sound(b, root, d)
        && b.departments[d].head_person_id != x by {
        assert(c.departments.dom().contains(d));
        assert(unit_sound(c, root, d));
        let h = c.departments[d].head_person_id;
        assert(c.people.dom().contains(h));
    }
    assert forall|p: Text| #[trigger] b.people.dom().contains(p) && p != x implies person_sound(
        b,
        p,
    ) by {
        assert(c.people.dom().contains(p));
        assert(person_sound(c, p));
        assert(c.departments.dom().contains(c.people[p].department_id));
    }
}

/// A worker who heads nothing is where they should be.
proof fn lemma_settled(b: CompanyModel, root: Text, x: Text)
    requires
        charted_but(b, root, x),
        b.people.dom().contains(x) ==> b.people[x].kind == PersonKind::Worker,
    ensures
        charted(b, root),
{
}

/// Somebody who heads nothing is a worker.
proof fn lemma_worker(c: CompanyModel, root: Text, x: Text)
    requires
        charted(c, root),
        c.people.dom().contains(x),
        heads_nothing(c, x),
    ensures
        c.people[x].kind == PersonKind::Worker,
{
    assert(person_sound(c, x));
}

/// What an accepted answer to a vacancy says of the unit.
pub proof fn lemma_vacancy_answered(
    c: CompanyModel,
    person: Text,
    unit: Text,
    decision: HeadVacancyModel,
)
    requires
        c.finite(),
        vacancy_refusal(c.org(), Some(unit), person, Some(decision)) is None,
    ensures
        match decision {
            HeadVacancyModel::HandOver { successor_person_id } => successor_person_id != person
                && c.people.dom().contains(successor_person_id)
                && c.people[successor_person_id].department_id == unit
                && c.people[successor_person_id].employment_state != EmploymentState::Departed,
            HeadVacancyModel::Dissolve => {
                &&& forall|d: Text| #[trigger]
                    c.departments.dom().contains(d) ==> c.departments[d].parent_id != Some(unit)
                &&& forall|p: Text| #[trigger]
                    c.people.dom().contains(p) && p != person && c.people[p].department_id == unit
                        ==> c.people[p].employment_state == EmploymentState::Departed
            },
        },
{
    lemma_org(c);
    let o = c.org();
    lemma_finite_listing(o.departments.dom());
    lemma_members_but(o, unit, person);
    lemma_those_where(
        listing(o.departments.dom()),
        |d: Text| o.departments[d].parent == Some(unit),
    );
    match decision {
        HeadVacancyModel::HandOver { successor_person_id } => {
            assert(members_but(o, unit, person).contains(successor_person_id));
        },
        HeadVacancyModel::Dissolve => {
            assert forall|d: Text| #[trigger] c.departments.dom().contains(d) implies
                c.departments[d].parent_id != Some(unit) by {
                assert(o.departments.dom().contains(d));
                if c.departments[d].parent_id == Some(unit) {
                    assert(children(o.departments, unit).contains(d));
                }
            }
            assert forall|p: Text| #[trigger]
                c.people.dom().contains(p) && p != person && c.people[p].department_id
                    == unit implies c.people[p].employment_state == EmploymentState::Departed by {
                assert(o.people.dom().contains(p));
                if c.people[p].employment_state != EmploymentState::Departed {
                    assert(members_but(o, unit, person).contains(p));
                }
            }
        },
    }
}

proof fn lemma_transferred(
    c: CompanyModel,
    root: Text,
    person: Text,
    destination: Text,
    intent: Text,
    at: Text,
    actor: Text,
    vacates: Option<HeadVacancyModel>,
)
    requires
        c.finite(),
        charted(c, root),
        c.transfer_refusal(person, destination, actor, vacates) is None,
        !(vacates matches Some(v) && c.vacancy_breaks(person, v, destination)),
    ensures
        still_charted(
            c,
            c.transferred(person, destination, intent, at, actor, vacates),
            root,
        ),
{
    let r = c.transferred(person, destination, intent, at, actor, vacates);
    let reason = ledger_line("transferred"@, actor);
    let there = c.move_all(seq![person], destination, intent, reason, true, at);
    lemma_move_all(c, seq![person], destination, intent, reason, true, at);
    assert forall|t: Text| seq![person].contains(t) <==> t == person by {
        assert(seq![person][0] == person);
    }
    lemma_people_ordered(there, at);
    let moved = there.refresh_people_order(at);
    lemma_heads(c, root);
    lemma_org(c);
    lemma_org(moved);
    assert(moved.org().departments == c.org().departments);
    assert(others_kept(c, moved, person)) by {
        assert forall|p: Text| #[trigger]
            c.people.dom().contains(p) && p != person implies member_of_row(c.people[p])
            == member_of_row(moved.people[p]) by {
            assert(there.people.dom().contains(p));
        }
    }
    assert(there.people.dom().contains(person));
    assert(moved.people[person].department_id == destination);
    let home = c.people[person].department_id;
    assert(person_sound(c, person));
    match c.headed_by(person) {
        Some(unit) => {
            assert(home == unit);
            let decision = vacates->0;
            lemma_vacancy_answered(c, person, unit, decision);
            assert(unit != root);
            lemma_around(c, moved, root, person, unit);
            if let HeadVacancyModel::HandOver { successor_person_id } = decision {
                assert(c.people.dom().contains(successor_person_id));
            }
            assert(moved.finite()) by {
                law_nothing_is_lost(
                    c,
                    Decision::Transfer { person, destination, intent, vacates: None },
                    at,
                    actor,
                );
            }
            lemma_vacated(moved, root, person, unit, decision, reason, at);
            let freed = moved.vacated(person, decision, reason, at);
            let settled = freed.set_person_kind(person, PersonKind::Worker, at);
            lemma_kind_set(freed, root, person, at);
            lemma_same_shape(settled, r, root);
        },
        None => {
            lemma_worker(c, root, person);
            lemma_but(c, moved, root, person);
            assert(moved.people[person].kind == PersonKind::Worker);
            lemma_settled(moved, root, person);
            assert(r.org().departments =~= moved.org().departments) by {
                lemma_headless(moved, c, person);
            }
            assert(r.org().people =~= moved.org().people) by {
                lemma_headless(moved, c, person);
            }
            lemma_same_shape(moved, r, root);
        },
    }
}

/// Who heads nothing vacates nothing.
pub proof fn lemma_headless(b: CompanyModel, c: CompanyModel, x: Text)
    requires
        c.headed_by(x) is None,
        b.org().departments == c.org().departments,
    ensures
        b.headed_by(x) is None,
        forall|d: HeadVacancyModel, reason: Text, at: Text| #[trigger]
            b.vacated(x, d, reason, at) == b,
{
}

/// Whoever heads nothing may be made a worker.
proof fn lemma_kind_set(b: CompanyModel, root: Text, x: Text, at: Text)
    requires
        charted_but(b, root, x),
    ensures
        charted(b.set_person_kind(x, PersonKind::Worker, at), root),
        b.set_person_kind(x, PersonKind::Worker, at).departments == b.departments,
{
    let r = b.set_person_kind(x, PersonKind::Worker, at);
    lemma_org(b);
    lemma_org(r);
    assert(r.org().departments =~= b.org().departments);
    assert forall|d: Text| #[trigger] r.departments.dom().contains(d) implies unit_sound(
        r,
        root,
        d,
    ) by {
        assert(unit_sound(b, root, d));
    }
    assert forall|p: Text| #[trigger] r.people.dom().contains(p) implies person_sound(r, p) by {
        assert(b.people.dom().contains(p));
        if p != x {
            assert(person_sound(b, p));
        }
    }
}

/// Everybody of a batch that is not refused is an employed worker of the unit.
pub proof fn lemma_batch(c: CompanyModel, root: Text, people: Seq<Text>, home: Text, i: int)
    requires
        c.finite(),
        charted(c, root),
        c.batch_refusal(people, home, i) is None,
        0 <= i,
    ensures
        forall|j: int|
            i <= j < people.len() ==> c.people.dom().contains(#[trigger] people[j])
                && heads_nothing(c, people[j]) && c.people[people[j]].kind == PersonKind::Worker,
    decreases people.len() - i,
{
    if i < people.len() {
        let p = people[i];
        lemma_heads(c, root);
        assert(c.people.dom().contains(p));
        assert(person_sound(c, p));
        assert forall|d: Text| #[trigger] c.departments.dom().contains(d) implies
            c.departments[d].head_person_id != p by {
            assert(unit_sound(c, root, d));
        }
        lemma_worker(c, root, p);
        lemma_batch(c, root, people, home, i + 1);
    }
}

proof fn lemma_members_moved(
    c: CompanyModel,
    root: Text,
    from: Text,
    destination: Text,
    people: Seq<Text>,
    intent: Text,
    at: Text,
    actor: Text,
)
    requires
        c.finite(),
        charted(c, root),
        c.move_refusal(from, destination, people, actor) is None,
    ensures
        still_charted(c, c.members_moved(people, destination, intent, at, actor), root),
{
    let r = c.members_moved(people, destination, intent, at, actor);
    lemma_batch(c, root, people, from, 0);
    lemma_move_all(c, people, destination, intent, intent, false, at);
    let there = c.move_all(people, destination, intent, intent, false, at);
    lemma_people_ordered(there, at);
    assert(r.departments == c.departments);
    lemma_org(c);
    lemma_org(r);
    assert(r.org().departments =~= c.org().departments);
    assert forall|d: Text| #[trigger] r.departments.dom().contains(d) implies unit_sound(
        r,
        root,
        d,
    ) by {
        assert(unit_sound(c, root, d));
        let h = c.departments[d].head_person_id;
        assert(c.people.dom().contains(h));
        assert(there.people.dom().contains(h));
        if people.contains(h) {
            let j = choose|j: int| 0 <= j < people.len() && people[j] == h;
            assert(heads_nothing(c, people[j]));
        }
    }
    assert forall|p: Text| #[trigger] r.people.dom().contains(p) implies person_sound(r, p) by {
        assert(there.people.dom().contains(p));
        assert(c.people.dom().contains(p));
        assert(person_sound(c, p));
        if people.contains(p) {
            let j = choose|j: int| 0 <= j < people.len() && people[j] == p;
            assert(c.people[people[j]].kind == PersonKind::Worker);
        }
    }
}

/// A worker who is new in a unit that is there keeps the chart sound.
proof fn lemma_newcomer(c: CompanyModel, b: CompanyModel, root: Text, x: Text)
    requires
        charted(c, root),
        !c.people.dom().contains(x),
        b.org().departments == c.org().departments,
        b.people.dom() == c.people.dom().insert(x),
        forall|p: Text| #[trigger]
            c.people.dom().contains(p) ==> member_of_row(b.people[p]) == member_of_row(c.people[p]),
        b.people[x].kind == PersonKind::Worker,
        c.departments.dom().contains(b.people[x].department_id),
    ensures
        still_charted(c, b, root),
{
    lemma_units_agree(c, b);
    assert(c.departments.dom().contains(root));
    assert forall|d: Text| #[trigger] b.departments.dom().contains(d) implies unit_sound(
        b,
        root,
        d,
    ) by {
        assert(c.departments.dom().contains(d));
        assert(unit_sound(c, root, d));
        assert(c.people.dom().contains(c.departments[d].head_person_id));
    }
    assert forall|p: Text| #[trigger] b.people.dom().contains(p) implies person_sound(b, p) by {
        if p != x {
            assert(c.people.dom().contains(p));
            assert(person_sound(c, p));
            assert(c.departments.dom().contains(c.people[p].department_id));
        }
    }
}

proof fn lemma_hired(c: CompanyModel, root: Text, p: HireModel, actor: Text)
    requires
        c.finite(),
        charted(c, root),
        hire_refusal(c.org(), p) is None,
    ensures
        still_charted(c, c.hired(p, actor), root),
{
    lemma_org(c);
    let line = hire_line(p.person_id, p.department_id);
    let there = c.seeded(p.person_id, p.department_id, p.seed, line, p.at);
    assert(there.org().departments =~= c.org().departments);
    assert(there.people.dom() =~= c.people.dom().insert(p.person_id));
    lemma_newcomer(c, there, root, p.person_id);
    lemma_people_ordered(there, p.at);
    lemma_same_shape(there, c.hired(p, actor), root);
}

proof fn lemma_appointed(
    c: CompanyModel,
    root: Text,
    department: Text,
    successor: Text,
    demote_to: Option<Text>,
    at: Text,
    actor: Text,
)
    requires
        c.finite(),
        charted(c, root),
        c.appoint_refusal(department, successor, demote_to, actor) is None,
        !c.appoint_breaks(department, demote_to),
    ensures
        still_charted(c, c.appointed(department, successor, demote_to, at, actor), root),
{
    let r = c.appointed(department, successor, demote_to, at, actor);
    let outgoing = c.departments[department].head_person_id;
    lemma_heads(c, root);
    lemma_org(c);
    lemma_org(r);
    assert(unit_sound(c, root, department));
    assert(person_sound(c, successor));
    assert(person_sound(c, outgoing));
    assert(r.departments.dom() =~= c.departments.dom());
    assert(r.people.dom() =~= c.people.dom());
    lemma_same_parents(c.org().departments, r.org().departments);
    assert(r.departments.dom().contains(root));
    assert forall|d: Text| #[trigger] r.departments.dom().contains(d) implies unit_sound(
        r,
        root,
        d,
    ) by {
        assert(unit_sound(c, root, d));
    }
    assert forall|p: Text| #[trigger] r.people.dom().contains(p) implies person_sound(r, p) by {
        assert(person_sound(c, p));
    }
}

proof fn lemma_reparented(
    c: CompanyModel,
    root: Text,
    department: Text,
    parent: Text,
    at: Text,
    actor: Text,
)
    requires
        c.finite(),
        charted(c, root),
        c.reparent_refusal(department, parent, actor) is None,
    ensures
        still_charted(c, c.reparented(department, parent, at, actor), root),
{
    let hung = c.set_parent(department, parent, at);
    lemma_org(c);
    lemma_org(hung);
    assert(hung.departments.dom() =~= c.departments.dom());
    lemma_unit_hung(c.org().departments, hung.org().departments, department, parent);
    assert(hung.departments.dom().contains(root));
    assert forall|d: Text| #[trigger] hung.departments.dom().contains(d) implies unit_sound(
        hung,
        root,
        d,
    ) by {
        assert(unit_sound(c, root, d));
    }
    assert forall|p: Text| #[trigger] hung.people.dom().contains(p) implies person_sound(
        hung,
        p,
    ) by {
        assert(person_sound(c, p));
    }
    lemma_units_ordered(hung, at);
    let ordered = hung.refresh_department_order(at);
    lemma_people_ordered(ordered, at);
    let r = c.reparented(department, parent, at, actor);
    assert(r.org() == hung.org());
    lemma_same_shape(hung, r, root);
}

/// Whoever stays in their unit and in their role, employed or heading nothing,
/// keeps the chart sound.
proof fn lemma_restaffed(c: CompanyModel, b: CompanyModel, root: Text, x: Text)
    requires
        charted(c, root),
        others_kept(c, b, x),
        c.people.dom().contains(x),
        b.people[x].department_id == c.people[x].department_id,
        b.people[x].kind == c.people[x].kind || b.people[x].kind == PersonKind::Worker
            && heads_nothing(c, x),
        b.people[x].employment_state != EmploymentState::Departed || heads_nothing(c, x),
    ensures
        still_charted(c, b, root),
{
    lemma_units_agree(c, b);
    assert(c.departments.dom().contains(root));
    assert forall|d: Text| #[trigger] b.departments.dom().contains(d) implies unit_sound(
        b,
        root,
        d,
    ) by {
        assert(c.departments.dom().contains(d));
        assert(unit_sound(c, root, d));
        assert(c.people.dom().contains(c.departments[d].head_person_id));
    }
    assert forall|p: Text| #[trigger] b.people.dom().contains(p) implies person_sound(b, p) by {
        assert(c.people.dom().contains(p));
        assert(person_sound(c, p));
        assert(c.departments.dom().contains(c.people[p].department_id));
    }
}

proof fn lemma_offboarded(c: CompanyModel, root: Text, person: Text, at: Text, actor: Text)
    requires
        c.finite(),
        charted(c, root),
        c.offboard_refusal(person, actor) is None,
    ensures
        still_charted(c, c.offboarded(person, at, actor), root),
{
    let r = c.offboarded(person, at, actor);
    lemma_heads(c, root);
    lemma_org(c);
    assert(person_sound(c, person));
    assert forall|d: Text| #[trigger] c.departments.dom().contains(d) implies
        c.departments[d].head_person_id != person by {
        assert(unit_sound(c, root, d));
    }
    assert(r.departments == c.departments);
    assert(r.people.dom() =~= c.people.dom());
    lemma_restaffed(c, r, root, person);
}

proof fn lemma_head_replaced(
    c: CompanyModel,
    root: Text,
    head: Text,
    successor: Text,
    at: Text,
    actor: Text,
)
    requires
        c.finite(),
        charted(c, root),
        c.replace_refusal(head, successor, actor) is None,
    ensures
        still_charted(c, c.head_replaced(head, successor, at, actor), root),
{
    let r = c.head_replaced(head, successor, at, actor);
    let unit = c.headed_by(head)->0;
    lemma_heads(c, root);
    lemma_org(c);
    lemma_org(r);
    assert(unit_sound(c, root, unit));
    assert(person_sound(c, successor));
    assert(person_sound(c, head));
    assert(r.departments.dom() =~= c.departments.dom());
    assert(r.people.dom() =~= c.people.dom());
    assert(unit != root);
    lemma_same_parents(c.org().departments, r.org().departments);
    assert(r.departments.dom().contains(root));
    assert forall|d: Text| #[trigger] r.departments.dom().contains(d) implies unit_sound(
        r,
        root,
        d,
    ) by {
        assert(unit_sound(c, root, d));
    }
    assert forall|p: Text| #[trigger] r.people.dom().contains(p) implies person_sound(r, p) by {
        assert(person_sound(c, p));
    }
}

/// Whether `r` is `c` without what is beneath a unit, its people departed and
/// at rest in another.
pub open spec fn pruned(c: CompanyModel, r: CompanyModel, department: Text, rests: Text) -> bool {
    let m = c.org().departments;
    &&& forall|d: Text| #[trigger]
        r.departments.dom().contains(d) <==> c.departments.dom().contains(d) && !beneath(
            m,
            d,
            department,
        )
    &&& forall|d: Text| #[trigger]
        r.departments.dom().contains(d) ==> unit_of_row(c.departments[d]) == unit_of_row(
            r.departments[d],
        )
    &&& r.people.dom() == c.people.dom()
    &&& forall|p: Text| #[trigger]
        c.people.dom().contains(p) ==> if beneath(m, c.people[p].department_id, department)
            && c.departments.dom().contains(c.people[p].department_id) {
            &&& r.people[p].department_id == rests
            &&& r.people[p].employment_state == EmploymentState::Departed
            &&& r.people[p].kind == (if c.people[p].kind == PersonKind::Head {
                PersonKind::Worker
            } else {
                c.people[p].kind
            })
        } else {
            member_of_row(r.people[p]) == member_of_row(c.people[p])
        }
}

pub proof fn lemma_pruned(c: CompanyModel, department: Text, at: Text, actor: Text)
    requires
        c.finite(),
    ensures
        pruned(
            c,
            c.department_removed(department, at, actor),
            department,
            c.departments[department].parent_id->0,
        ),
{
    let units = c.subtree_descending(department);
    let people = c.people_in(units);
    let rests = c.departments[department].parent_id->0;
    let reason = "department "@ + department + " removed"@;
    lemma_subtree(c, department);
    lemma_residents(c, units);
    lemma_left_behind_all(c, people, rests, reason, at);
    let left = c.left_behind_all(people, rests, reason, at);
    lemma_delete_departments(left, units);
    let cut = left.delete_departments(units);
    lemma_units_ordered(cut, at);
    let ordered = cut.refresh_department_order(at);
    lemma_people_ordered(ordered, at);
    let r = c.department_removed(department, at, actor);
    assert(r.departments == ordered.departments);
    assert(r.people == ordered.refresh_people_order(at).people);
    assert forall|d: Text| #[trigger] r.departments.dom().contains(d) implies unit_of_row(
        c.departments[d],
    ) == unit_of_row(r.departments[d]) by {
        assert(cut.departments.dom().contains(d));
    }
    assert forall|p: Text| #[trigger] c.people.dom().contains(p) implies replaced_person(
        left.people[p],
        r.people[p],
    ) by {
        assert(ordered.people.dom().contains(p));
    }
}

proof fn lemma_removed(c: CompanyModel, root: Text, department: Text, at: Text, actor: Text)
    requires
        c.finite(),
        charted(c, root),
        c.remove_refusal(department, actor) is None,
    ensures
        still_charted(c, c.department_removed(department, at, actor), root),
{
    let r = c.department_removed(department, at, actor);
    let rests = c.departments[department].parent_id->0;
    lemma_pruned(c, department, at, actor);
    lemma_org(c);
    lemma_org(r);
    let m = c.org().departments;
    let n = r.org().departments;
    assert(m.dom().contains(department));
    lemma_rooted_parent(m, department, rests);
    lemma_parent_not_beneath(m, department, rests);
    assert(r.departments.dom().contains(rests));
    lemma_beneath_step(m, root, department);
    assert(r.departments.dom().contains(root));
    assert forall|d: Text| #[trigger] n.dom().contains(d) implies m[d].parent == n[d].parent && (
    n[d].parent matches Some(e) ==> n.dom().contains(e)) by {
        assert(r.departments.dom().contains(d));
        assert(c.departments.dom().contains(d));
        if let Some(e) = m[d].parent {
            lemma_rooted_parent(m, d, e);
            lemma_beneath_step(m, d, department);
            assert(r.departments.dom().contains(e));
        }
    }
    lemma_units_removed(m, n);
    assert forall|d: Text| #[trigger] r.departments.dom().contains(d) implies unit_sound(
        r,
        root,
        d,
    ) by {
        assert(c.departments.dom().contains(d));
        assert(unit_sound(c, root, d));
        assert(c.people.dom().contains(c.departments[d].head_person_id));
    }
    assert forall|p: Text| #[trigger] r.people.dom().contains(p) implies person_sound(r, p) by {
        assert(c.people.dom().contains(p));
        assert(person_sound(c, p));
        let home = c.people[p].department_id;
        assert(c.departments.dom().contains(home));
        if beneath(m, home, department) {
            assert(home != root);
            if c.people[p].kind != PersonKind::Worker {
                assert(unit_sound(c, root, home));
            }
        } else {
            assert(r.departments.dom().contains(home));
        }
    }
}

/// A new unit with somebody who headed nothing at its head keeps the chart
/// sound.
proof fn lemma_crowned(
    f: CompanyModel,
    b: CompanyModel,
    root: Text,
    id: Text,
    parent: Text,
    head: Text,
)
    requires
        charted_but(f, root, head),
        !f.departments.dom().contains(id),
        f.departments.dom().contains(parent),
        b.departments.dom() == f.departments.dom().insert(id),
        forall|d: Text| #[trigger]
            f.departments.dom().contains(d) ==> b.departments[d] == f.departments[d],
        b.departments[id].parent_id == Some(parent),
        b.departments[id].head_person_id == head,
        b.people.dom() == f.people.dom().insert(head),
        forall|p: Text| #[trigger]
            f.people.dom().contains(p) && p != head ==> b.people[p] == f.people[p],
        b.people[head].department_id == id,
        b.people[head].kind == PersonKind::Head,
        b.people[head].employment_state != EmploymentState::Departed,
    ensures
        still_charted(f, b, root),
{
    lemma_org(f);
    lemma_org(b);
    lemma_leaf_added(f.org().departments, b.org().departments, id, parent);
    assert(f.departments.dom().contains(root));
    assert forall|d: Text| #[trigger] b.departments.dom().contains(d) implies unit_sound(
        b,
        root,
        d,
    ) by {
        if d != id {
            assert(f.departments.dom().contains(d));
            assert(unit_sound(f, root, d));
            assert(f.people.dom().contains(f.departments[d].head_person_id));
        }
    }
    assert forall|p: Text| #[trigger] b.people.dom().contains(p) implies person_sound(b, p) by {
        if p != head {
            assert(f.people.dom().contains(p));
            assert(person_sound(f, p));
            assert(f.departments.dom().contains(f.people[p].department_id));
        }
    }
}

/// Everybody of a roster that is not refused is new, and a worker.
pub proof fn lemma_roster(c: CompanyModel, head: Text, staff: Seq<StaffModel>, i: int)
    requires
        roster_refusal(c.org(), head, staff, i) is None,
        0 <= i,
    ensures
        forall|j: int|
            i <= j < staff.len() ==> !c.people.dom().contains((#[trigger] staff[j]).person_id)
                && staff[j].person_id != head && staff[j].seed.kind == PersonKind::Worker,
    decreases staff.len() - i,
{
    if i < staff.len() {
        lemma_org(c);
        lemma_roster(c, head, staff, i + 1);
    }
}

/// New workers in a unit that is there keep the chart sound.
proof fn lemma_staffed(
    c: CompanyModel,
    root: Text,
    staff: Seq<StaffModel>,
    department: Text,
    reason: Text,
    at: Text,
)
    requires
        charted(c, root),
        c.departments.dom().contains(department),
        forall|j: int|
            0 <= j < staff.len() ==> !c.people.dom().contains((#[trigger] staff[j]).person_id)
                && staff[j].seed.kind == PersonKind::Worker,
    ensures
        still_charted(c, c.seeded_all(staff, department, reason, at), root),
{
    let b = c.seeded_all(staff, department, reason, at);
    lemma_seeded_all(c, staff, department, reason, at);
    lemma_org(c);
    lemma_org(b);
    assert(b.org().departments =~= c.org().departments);
    assert forall|p: Text| #[trigger] c.people.dom().contains(p) implies !seeds(staff, p) by {
        if seeds(staff, p) {
            let j = choose|j: int| 0 <= j < staff.len() && #[trigger] staff[j].person_id == p;
            assert(!c.people.dom().contains(staff[j].person_id));
        }
    }
    assert(c.departments.dom().contains(root));
    assert forall|d: Text| #[trigger] b.departments.dom().contains(d) implies unit_sound(
        b,
        root,
        d,
    ) by {
        assert(unit_sound(c, root, d));
        let h = c.departments[d].head_person_id;
        assert(c.people.dom().contains(h));
        assert(b.people.dom().contains(h));
        assert(b.people[h] == c.people[h]);
    }
    assert forall|p: Text| #[trigger] b.people.dom().contains(p) implies person_sound(b, p) by {
        if seeds(staff, p) {
            assert(b.people[p].department_id == department);
            let i = choose|i: int|
                0 <= i < staff.len() && #[trigger] staff[i].person_id == p && seeded_row(
                    b.people[p],
                    staff[i].seed,
                    department,
                );
            assert(staff[i].seed.kind == PersonKind::Worker);
        } else {
            assert(c.people.dom().contains(p));
            assert(person_sound(c, p));
            assert(b.people[p] == c.people[p]);
        }
    }
}

/// What is free of a new unit's head once what they headed is settled.
pub proof fn lemma_freed(c: CompanyModel, root: Text, p: CreateModel)
    requires
        c.finite(),
        charted(c, root),
        create_refusal(c.org(), p) is None,
        !c.create_breaks(p),
    ensures
        c.head_freed(p).finite(),
        charted_but(c.head_freed(p), root, p.head.person_id()),
        c.head_freed(p).departments[root].head_person_id == c.departments[root].head_person_id,
        c.head_freed(p).departments.dom().contains(p.parent_id),
        !c.head_freed(p).departments.dom().contains(p.department_id),
        c.head_freed(p).people.dom() == c.people.dom(),
        p.head is AppointExisting ==> c.people.dom().contains(p.head.person_id())
            && c.head_freed(p).people[p.head.person_id()].employment_state
            != EmploymentState::Departed,
{
    let head = p.head.person_id();
    let f = c.head_freed(p);
    lemma_org(c);
    lemma_heads(c, root);
    assert(c.departments.dom().contains(p.parent_id));
    match p.head {
        HeadDecisionModel::HireNew { person_id, seed } => {
            assert(!c.people.dom().contains(head));
            assert forall|d: Text| #[trigger] c.departments.dom().contains(d) implies
                c.departments[d].head_person_id != head by {
                assert(unit_sound(c, root, d));
            }
            lemma_headed_by_none(c, head);
            let there = c.move_person(head, p.parent_id, p.at);
            lemma_headless(c, c, head);
            lemma_headless(there, c, head);
            assert(f.departments == c.departments && f.people == c.people);
            assert(f.org().departments =~= c.org().departments);
            lemma_but(c, f, root, head);
        },
        HeadDecisionModel::AppointExisting { person_id } => {
            match c.headed_by(head) {
                None => {
                    assert(p.vacates is None);
                    lemma_but(c, c, root, head);
                    assert(person_sound(c, head));
                },
                Some(unit) => {
                    let decision = p.vacates->0;
                    lemma_vacancy_answered(c, head, unit, decision);
                    let there = match decision {
                        HeadVacancyModel::Dissolve => c.move_person(head, p.parent_id, p.at),
                        HeadVacancyModel::HandOver { .. } => c,
                    };
                    assert(there.people.dom() =~= c.people.dom());
                    assert(there.org().departments =~= c.org().departments);
                    assert(person_sound(c, head));
                    assert(unit != root);
                    lemma_around(c, there, root, head, unit);
                    lemma_vacated(there, root, head, unit, decision, p.audit_reason, p.at);
                },
            }
        },
    }
}

/// The new unit stands, with its head in it.
proof fn lemma_founded(c: CompanyModel, root: Text, p: CreateModel, headed: CompanyModel)
    requires
        c.finite(),
        charted(c, root),
        create_refusal(c.org(), p) is None,
        !c.create_breaks(p),
        p.head matches HeadDecisionModel::HireNew { seed, .. } ==> seed.employment_state
            != EmploymentState::Departed,
        headed == (match p.head {
            HeadDecisionModel::AppointExisting { person_id } => founded(c, p).head_appointed(
                person_id,
                if c.people.dom().contains(person_id) {
                    Some(c.people[person_id].department_id)
                } else {
                    None
                },
                p,
            ),
            HeadDecisionModel::HireNew { person_id, seed } => founded(c, p).seeded(
                person_id,
                p.department_id,
                seed,
                p.audit_reason,
                p.at,
            ),
        }),
    ensures
        still_charted(c, headed, root),
        headed.departments.dom().contains(p.department_id),
        forall|x: Text| #[trigger]
            headed.people.dom().contains(x) <==> c.people.dom().contains(x) || x
                == p.head.person_id(),
{
    let head = p.head.person_id();
    lemma_freed(c, root, p);
    let f = c.head_freed(p);
    assert(headed.departments.dom() =~= f.departments.dom().insert(p.department_id));
    assert(headed.people.dom() =~= f.people.dom().insert(head));
    lemma_crowned(f, headed, root, p.department_id, p.parent_id, head);
}

spec fn founded(c: CompanyModel, p: CreateModel) -> CompanyModel {
    c.head_freed(p).insert_department(
        p.department_id,
        p.parent_id,
        p.name,
        p.purpose,
        p.unit,
        p.head.person_id(),
        p.at,
    )
}

proof fn lemma_created(c: CompanyModel, root: Text, p: CreateModel, actor: Text)
    requires
        c.finite(),
        charted(c, root),
        create_refusal(c.org(), p) is None,
        !c.create_breaks(p),
        p.head matches HeadDecisionModel::HireNew { seed, .. } ==> seed.employment_state
            != EmploymentState::Departed,
    ensures
        still_charted(c, c.department_created(p, actor), root),
{
    let unit = founded(c, p);
    let headed = match p.head {
        HeadDecisionModel::AppointExisting { person_id } => unit.head_appointed(
            person_id,
            if c.people.dom().contains(person_id) {
                Some(c.people[person_id].department_id)
            } else {
                None
            },
            p,
        ),
        HeadDecisionModel::HireNew { person_id, seed } => unit.seeded(
            person_id,
            p.department_id,
            seed,
            p.audit_reason,
            p.at,
        ),
    };
    lemma_founded(c, root, p, headed);
    lemma_roster(c, p.head.person_id(), p.staff, 0);
    lemma_staffed(headed, root, p.staff, p.department_id, p.audit_reason, p.at);
    let staffed = headed.seeded_all(p.staff, p.department_id, p.audit_reason, p.at);
    lemma_units_ordered(staffed, p.at);
    let ordered = staffed.refresh_department_order(p.at);
    lemma_people_ordered(ordered, p.at);
    let r = c.department_created(p, actor);
    assert(r.org() == staffed.org());
    lemma_same_shape(staffed, r, root);
}

proof fn lemma_benched(c: CompanyModel, root: Text, person: Text, at: Text, actor: Text)
    requires
        charted(c, root),
        c.people.dom().contains(person),
    ensures
        still_charted(c, c.benched(person, at, actor), root),
{
    let r = c.benched(person, at, actor);
    assert(r.departments == c.departments);
    assert(r.org().departments =~= c.org().departments);
    assert(r.people.dom() =~= c.people.dom());
    lemma_restaffed(c, r, root, person);
}

/// Whoever has departed heads nothing.
proof fn lemma_departed(c: CompanyModel, root: Text, person: Text)
    requires
        charted(c, root),
        c.people[person].employment_state == EmploymentState::Departed,
    ensures
        heads_nothing(c, person),
{
    assert forall|d: Text| #[trigger] c.departments.dom().contains(d) implies
        c.departments[d].head_person_id != person by {
        assert(unit_sound(c, root, d));
    }
}

proof fn lemma_started(c: CompanyModel, root: Text, person: Text, at: Text, actor: Text)
    requires
        charted(c, root),
        c.people.dom().contains(person),
    ensures
        still_charted(c, c.started(person, at, actor), root),
{
    let r = c.started(person, at, actor);
    assert(r.departments == c.departments);
    assert(r.org().departments =~= c.org().departments);
    assert(r.people.dom() =~= c.people.dom());
    if c.people[person].employment_state == EmploymentState::Departed {
        lemma_departed(c, root, person);
    }
    lemma_restaffed(c, r, root, person);
}

proof fn lemma_woken(c: CompanyModel, root: Text, person: Text, at: Text, actor: Text)
    requires
        charted(c, root),
        c.people.dom().contains(person),
        c.people[person].employment_state != EmploymentState::Departed,
    ensures
        still_charted(c, c.woken(person, at, actor), root),
        still_charted(c, c.recalled(person, at, actor), root),
{
    let w = c.woken(person, at, actor);
    let r = c.recalled(person, at, actor);
    assert(w.org().departments =~= c.org().departments);
    assert(r.org().departments =~= c.org().departments);
    assert(w.people.dom() =~= c.people.dom());
    assert(r.people.dom() =~= c.people.dom());
    lemma_restaffed(c, w, root, person);
    lemma_restaffed(c, r, root, person);
}

/// Units that only start or stop keep the chart sound.
proof fn lemma_flipped(c: CompanyModel, b: CompanyModel, root: Text)
    requires
        charted(c, root),
        b.people == c.people,
        b.departments.dom() == c.departments.dom(),
        forall|d: Text| #[trigger]
            c.departments.dom().contains(d) ==> flipped_unit(c.departments[d], b.departments[d]),
    ensures
        still_charted(c, b, root),
{
    lemma_org(c);
    lemma_org(b);
    lemma_same_parents(c.org().departments, b.org().departments);
    assert(c.departments.dom().contains(root));
    assert forall|d: Text| #[trigger] b.departments.dom().contains(d) implies unit_sound(
        b,
        root,
        d,
    ) by {
        assert(c.departments.dom().contains(d));
        assert(unit_sound(c, root, d));
    }
    assert forall|p: Text| #[trigger] b.people.dom().contains(p) implies person_sound(b, p) by {
        assert(c.people.dom().contains(p));
        assert(person_sound(c, p));
        assert(c.departments.dom().contains(c.people[p].department_id));
    }
}

proof fn lemma_paused(c: CompanyModel, root: Text, department: Text, at: Text, actor: Text)
    requires
        charted(c, root),
    ensures
        still_charted(c, c.paused(department, at, actor), root),
        still_charted(c, c.resumed(department, at, actor), root),
{
    let flipped = c.set_department_state(department, UnitState::Paused, at);
    lemma_swept_all(
        flipped,
        flipped.subtree_members(department),
        flipped.root_head(),
        department,
        at,
    );
    let r = c.paused(department, at, actor);
    assert(r.departments.dom() =~= c.departments.dom());
    lemma_flipped(c, r, root);
    let s = c.resumed(department, at, actor);
    assert(s.departments.dom() =~= c.departments.dom());
    lemma_flipped(c, s, root);
}

/// Whether a decision hires somebody as departed to head a unit.
pub open spec fn heads_with_departed(d: Decision) -> bool {
    d matches Decision::Create { proposal } && (proposal.head matches HeadDecisionModel::HireNew {
        seed,
        ..
    } && seed.employment_state == EmploymentState::Departed)
}

/// Every decision keeps the chart sound: one tree of units beneath the same
/// root, which keeps its head; everybody in a unit that is there; and every unit
/// with one head, who is employed, sits in it and heads nothing else.
pub proof fn law_chart_stays_sound(
    c: CompanyModel,
    root: Text,
    d: Decision,
    at: Text,
    actor: Text,
)
    requires
        c.finite(),
        charted(c, root),
        c.allows(d, actor),
        !heads_with_departed(d),
    ensures
        charted(c.decided(d, at, actor), root),
        c.decided(d, at, actor).departments[root].head_person_id
            == c.departments[root].head_person_id,
{
    let r = c.decided(d, at, actor);
    match d {
        Decision::Create { proposal } => {
            lemma_created(c, root, proposal, actor);
        },
        Decision::Hire { newcomer } => {
            lemma_hired(c, root, newcomer, actor);
        },
        Decision::Appoint { department, successor, demote_to } => {
            lemma_appointed(c, root, department, successor, demote_to, at, actor);
        },
        Decision::Reparent { department, parent } => {
            lemma_reparented(c, root, department, parent, at, actor);
        },
        Decision::Transfer { person, destination, intent, vacates } => {
            lemma_transferred(c, root, person, destination, intent, at, actor, vacates);
        },
        Decision::MoveMembers { from, destination, named, intent } => {
            let people = c.batch(from, named);
            lemma_members_moved(c, root, from, destination, people, intent, at, actor);
        },
        Decision::Offboard { person } => {
            lemma_offboarded(c, root, person, at, actor);
        },
        Decision::ReplaceHead { head, successor } => {
            lemma_head_replaced(c, root, head, successor, at, actor);
        },
        Decision::RemoveTree { department } => {
            lemma_removed(c, root, department, at, actor);
        },
        Decision::Pause { department } => {
            lemma_paused(c, root, department, at, actor);
        },
        Decision::Resume { department } => {
            lemma_paused(c, root, department, at, actor);
        },
        Decision::ResumeMany { departments, skip_active } => {
            lemma_resume_all(c, departments, at);
            lemma_flipped(c, r, root);
        },
        Decision::Shutdown { person, kind } => {
            lemma_untouched(c, r, root);
        },
        Decision::Bench { person } => {
            lemma_benched(c, root, person, at, actor);
        },
        Decision::BenchLifecycle { person } => {
            let ready = c.park_prepared(person, at, actor);
            lemma_untouched(c, ready, root);
            lemma_benched(ready, root, person, at, actor);
        },
        Decision::Start { person } => {
            lemma_started(c, root, person, at, actor);
        },
        Decision::Wake { person } => {
            lemma_woken(c, root, person, at, actor);
        },
        Decision::Recall { person } => {
            lemma_woken(c, root, person, at, actor);
        },
        Decision::ReactivateRoot => {
            assert(r.departments.dom() =~= c.departments.dom());
            lemma_flipped(c, r, root);
        },
        Decision::CeoOnly => {
            lemma_attached(c, at, actor);
            lemma_untouched(c, r, root);
        },
        Decision::PublishLauncherRoot { launcher_root } => {
            lemma_untouched(c, r, root);
        },
    }
}

/// Preparing a company for its operator touches no unit and nobody's row.
proof fn lemma_attached(c: CompanyModel, at: Text, actor: Text)
    ensures
        c.ceo_only(at, actor).people == c.people,
        c.ceo_only(at, actor).departments == c.departments,
{
    let chief = c.root_head()->0;
    lemma_retract_in(c, listing(c.activity.dom()), chief, at);
    let quiet = c.retract_non_kept(chief, at);
    lemma_clear_fences_in(quiet, listing(quiet.fences.dom()), chief);
}

/// The same units and people are charted alike.
proof fn lemma_untouched(c: CompanyModel, b: CompanyModel, root: Text)
    requires
        charted(c, root),
        b.departments == c.departments,
        b.people == c.people,
    ensures
        still_charted(c, b, root),
{
    assert(b.org() == c.org());
    lemma_same_shape(c, b, root);
}

} // verus!
