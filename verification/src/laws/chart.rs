//! The chart: one tree of units, everybody in a unit, and every unit with one
//! head who sits in it.

use vstd::prelude::*;

use crate::company::CompanyModel;
use crate::laws::tree::all_rooted;
use crate::order::lemma_sorted;
use crate::org_view::{beneath, lemma_first_where, lemma_those_where, those_where};
use crate::organization::{EmploymentState, PersonKind};
use crate::rows::chart::{member_of_row, unit_of_row};
use crate::table::{lemma_finite_listing, listing};
use crate::text::Text;

verus! {

/// Whether a unit stands as it should: only the root has no parent, and whoever
/// heads it is somebody who sits in it, is employed, and has the role for it.
pub open spec fn unit_sound(c: CompanyModel, root: Text, d: Text) -> bool {
    let row = c.departments[d];
    let head = row.head_person_id;
    &&& row.parent_id is None ==> d == root
    &&& c.people.dom().contains(head)
    &&& c.people[head].department_id == d
    &&& c.people[head].employment_state != EmploymentState::Departed
    &&& c.people[head].kind == (if d == root {
        PersonKind::Executive
    } else {
        PersonKind::Head
    })
}

/// Whether somebody stands as they should: they sit in a unit that is there,
/// and only who heads that unit is more than a worker.
pub open spec fn person_sound(c: CompanyModel, p: Text) -> bool {
    let row = c.people[p];
    &&& c.departments.dom().contains(row.department_id)
    &&& row.kind != PersonKind::Worker ==> c.departments[row.department_id].head_person_id == p
}

/// Whether the units are one tree beneath `root`.
pub open spec fn one_tree(c: CompanyModel, root: Text) -> bool {
    &&& c.departments.dom().contains(root)
    &&& c.departments[root].parent_id is None
    &&& all_rooted(c.org().departments)
}

/// Whether the company's chart is sound, with `root` at its top.
pub open spec fn charted(c: CompanyModel, root: Text) -> bool {
    &&& one_tree(c, root)
    &&& forall|d: Text| #[trigger] c.departments.dom().contains(d) ==> unit_sound(c, root, d)
    &&& forall|p: Text| #[trigger] c.people.dom().contains(p) ==> person_sound(c, p)
}

/// Whether the chart is sound but for one person, who heads nothing.
pub open spec fn charted_but(c: CompanyModel, root: Text, x: Text) -> bool {
    &&& one_tree(c, root)
    &&& forall|d: Text| #[trigger]
        c.departments.dom().contains(d) ==> unit_sound(c, root, d)
            && c.departments[d].head_person_id != x
    &&& forall|p: Text| #[trigger] c.people.dom().contains(p) && p != x ==> person_sound(c, p)
    &&& c.people.dom().contains(x) ==> c.departments.dom().contains(c.people[x].department_id)
}

/// Whether the chart is sound but for one person and the one unit they head,
/// which is not the root.
pub open spec fn charted_around(c: CompanyModel, root: Text, x: Text, unit: Text) -> bool {
    &&& one_tree(c, root)
    &&& c.departments.dom().contains(unit)
    &&& unit != root
    &&& c.departments[unit].parent_id is Some
    &&& c.departments[unit].head_person_id == x
    &&& forall|d: Text| #[trigger]
        c.departments.dom().contains(d) && d != unit ==> unit_sound(c, root, d)
            && c.departments[d].head_person_id != x
    &&& forall|p: Text| #[trigger] c.people.dom().contains(p) && p != x ==> person_sound(c, p)
    &&& c.people.dom().contains(x)
    &&& c.departments.dom().contains(c.people[x].department_id)
}

/// Whether somebody heads no unit.
pub open spec fn heads_nothing(c: CompanyModel, p: Text) -> bool {
    forall|d: Text| #[trigger]
        c.departments.dom().contains(d) ==> c.departments[d].head_person_id != p
}

/// What the shape of the chart says is what the rows say.
pub proof fn lemma_org(c: CompanyModel)
    ensures
        c.org().departments.dom() == c.departments.dom(),
        c.org().people.dom() == c.people.dom(),
        forall|d: Text| #[trigger]
            c.departments.dom().contains(d) ==> c.org().departments[d] == unit_of_row(
                c.departments[d],
            ),
        forall|p: Text| #[trigger]
            c.people.dom().contains(p) ==> c.org().people[p] == member_of_row(c.people[p]),
{
    assert(c.org().departments.dom() =~= c.departments.dom());
    assert(c.org().people.dom() =~= c.people.dom());
}

/// Two companies of one shape are charted alike.
pub proof fn lemma_same_shape(a: CompanyModel, b: CompanyModel, root: Text)
    requires
        charted(a, root),
        a.org() == b.org(),
    ensures
        charted(b, root),
        b.departments[root].head_person_id == a.departments[root].head_person_id,
{
    lemma_org(a);
    lemma_org(b);
    assert forall|d: Text| #[trigger] b.departments.dom().contains(d) implies unit_sound(
        b,
        root,
        d,
    ) by {
        assert(a.departments.dom().contains(d));
        let head = a.departments[d].head_person_id;
        assert(unit_sound(a, root, d));
        assert(a.org().departments[d] == unit_of_row(b.departments[d]));
        assert(a.people.dom().contains(head));
        assert(b.people.dom().contains(head));
        assert(a.org().people[head] == member_of_row(b.people[head]));
    }
    assert forall|p: Text| #[trigger] b.people.dom().contains(p) implies person_sound(b, p) by {
        assert(a.people.dom().contains(p));
        assert(person_sound(a, p));
        assert(a.org().people[p] == member_of_row(b.people[p]));
        let home = a.people[p].department_id;
        assert(a.departments.dom().contains(home));
        assert(b.departments.dom().contains(home));
        assert(a.org().departments[home] == unit_of_row(b.departments[home]));
    }
    assert(b.departments.dom().contains(root));
    assert(a.org().departments[root] == unit_of_row(b.departments[root]));
}

/// Who is at the top of a sound chart, and who heads what in it.
pub proof fn lemma_heads(c: CompanyModel, root: Text)
    requires
        c.finite(),
        charted(c, root),
    ensures
        c.company_root() == Some(root),
        c.root_head() == Some(c.departments[root].head_person_id),
        forall|p: Text| #[trigger] c.is_ceo(p) <==> p == c.departments[root].head_person_id,
        forall|p: Text|
            match #[trigger] c.headed_by(p) {
                Some(d) => c.departments.dom().contains(d) && c.departments[d].head_person_id == p
                    && c.people.dom().contains(p) && c.people[p].department_id == d,
                None => heads_nothing(c, p),
            },
{
    lemma_org(c);
    let m = c.org().departments;
    let q = listing(m.dom());
    lemma_finite_listing(m.dom());
    lemma_first_where(q, |d: Text| m[d].parent is None);
    assert(m.dom().contains(root));
    assert(q.contains(root));
    match c.company_root() {
        Some(r) => {
            assert(q.contains(r));
            assert(m.dom().contains(r));
            assert(unit_sound(c, root, r));
        },
        None => {
            let i = choose|i: int| 0 <= i < q.len() && q[i] == root;
            assert(m[q[i]].parent is None);
        },
    }
    assert forall|p: Text|
        match #[trigger] c.headed_by(p) {
            Some(d) => c.departments.dom().contains(d) && c.departments[d].head_person_id == p
                && c.people.dom().contains(p) && c.people[p].department_id == d,
            None => heads_nothing(c, p),
        } by {
        lemma_first_where(q, |d: Text| m[d].head == p);
        match c.headed_by(p) {
            Some(d) => {
                assert(q.contains(d));
                assert(m.dom().contains(d));
                assert(unit_sound(c, root, d));
            },
            None => {
                assert forall|d: Text| #[trigger]
                    c.departments.dom().contains(d) implies c.departments[d].head_person_id
                    != p by {
                    assert(m.dom().contains(d));
                    assert(q.contains(d));
                    let i = choose|i: int| 0 <= i < q.len() && q[i] == d;
                    assert(!(m[q[i]].head == p));
                }
            },
        }
    }
}

/// Who heads what depends on the units' rows alone.
pub proof fn lemma_headed_by_only(c: CompanyModel, x: Text, unit: Text)
    requires
        c.finite(),
        c.departments.dom().contains(unit),
        c.departments[unit].head_person_id == x,
        forall|d: Text| #[trigger]
            c.departments.dom().contains(d) && d != unit ==> c.departments[d].head_person_id != x,
    ensures
        c.headed_by(x) == Some(unit),
{
    lemma_org(c);
    let m = c.org().departments;
    let q = listing(m.dom());
    lemma_finite_listing(m.dom());
    lemma_first_where(q, |d: Text| m[d].head == x);
    assert(m.dom().contains(unit));
    assert(q.contains(unit));
    let i = choose|i: int| 0 <= i < q.len() && q[i] == unit;
    assert(m[q[i]].head == x);
    let d = c.headed_by(x)->0;
    assert(q.contains(d));
    assert(m.dom().contains(d));
}

/// Nobody heads anything who heads no unit.
pub proof fn lemma_headed_by_none(c: CompanyModel, x: Text)
    requires
        c.finite(),
        heads_nothing(c, x),
    ensures
        c.headed_by(x) is None,
{
    lemma_org(c);
    let m = c.org().departments;
    let q = listing(m.dom());
    lemma_finite_listing(m.dom());
    lemma_first_where(q, |d: Text| m[d].head == x);
    if let Some(d) = c.headed_by(x) {
        assert(q.contains(d));
        assert(m.dom().contains(d));
    }
}

/// Everybody in one of these units, and nobody else.
pub proof fn lemma_residents(c: CompanyModel, departments: Seq<Text>)
    requires
        c.finite(),
    ensures
        forall|p: Text| #[trigger]
            c.people_in(departments).contains(p) <==> c.people.dom().contains(p)
                && departments.contains(c.people[p].department_id),
{
    lemma_finite_listing(c.people.dom());
    lemma_sorted(listing(c.people.dom()), |p: Text| seq![c.people[p].ordinal]);
    lemma_those_where(c.roster(), |p: Text| departments.contains(c.people[p].department_id));
}

/// Every unit beneath a unit, and no other.
pub proof fn lemma_subtree(c: CompanyModel, department: Text)
    requires
        c.finite(),
    ensures
        forall|d: Text| #[trigger]
            c.subtree_descending(department).contains(d) <==> c.departments.dom().contains(d)
                && beneath(c.org().departments, d, department),
        c.subtree_descending(department).no_duplicates(),
{
    lemma_finite_listing(c.departments.dom());
    lemma_those_where(
        listing(c.departments.dom()),
        |d: Text| beneath(c.org().departments, d, department),
    );
    lemma_sorted(
        those(c, department),
        |d: Text| c.depth_key(d, department),
    );
}

spec fn those(c: CompanyModel, department: Text) -> Seq<Text> {
    those_where(
        listing(c.departments.dom()),
        |d: Text| beneath(c.org().departments, d, department),
    )
}

} // verus!
