//! Who is at the top, who heads what, what runs, and how far somebody reaches.

use vstd::prelude::*;

use crate::company::CompanyModel;
use crate::laws::chart::lemma_org;
use crate::laws::tree::lemma_beneath_step;
use crate::org_view::{
    above, beneath, ceo, children, first_where, headed_by, lemma_first_where, lemma_those_where,
    manages, may_create_under, member_but, members_but, root_of, running, shape_of, stopped,
    those_where, OrgModel, UnitModel,
};
use crate::organization::{EmploymentState, ManifestModel, PersonKind, UnitState};
use crate::table::{ascending, lemma_finite_listing, listing};
use crate::text::{lemma_text_irreflexive, lemma_text_transitive, text_lt, Text};

verus! {

// ---------------------------------------------------------------------------
// Id order
// ---------------------------------------------------------------------------

/// One text stands before another where it is a front of it, or where the first
/// character that differs is the smaller.
pub proof fn law_texts_are_in_letter_order(a: Text, b: Text)
    ensures
        text_lt(a, b) <==> exists|k: int|
            0 <= k <= a.len() && k < b.len() && #[trigger] a.take(k) == b.take(k) && (k == a.len()
                || (a[k] as int) < (b[k] as int)),
    decreases a.len(),
{
    if b.len() > 0 {
        if a.len() == 0 {
            assert(a.take(0) =~= b.take(0));
        } else if a[0] as int != b[0] as int {
            if (a[0] as int) < (b[0] as int) {
                assert(a.take(0) =~= b.take(0));
            }
            assert forall|k: int|
                0 <= k <= a.len() && k < b.len() && #[trigger] a.take(k) == b.take(k) implies k
                == 0 by {
                if k > 0 {
                    assert(a.take(k)[0] == b.take(k)[0]);
                }
            }
        } else {
            let x = a.drop_first();
            let y = b.drop_first();
            law_texts_are_in_letter_order(x, y);
            assert(a[0] == b[0]);
            if text_lt(x, y) {
                let k = choose|k: int|
                    0 <= k <= x.len() && k < y.len() && #[trigger] x.take(k) == y.take(k) && (k
                        == x.len() || (x[k] as int) < (y[k] as int));
                assert(a.take(k + 1) =~= seq![a[0]] + x.take(k));
                assert(b.take(k + 1) =~= seq![b[0]] + y.take(k));
            }
            if exists|k: int|
                0 <= k <= a.len() && k < b.len() && #[trigger] a.take(k) == b.take(k) && (k
                    == a.len() || (a[k] as int) < (b[k] as int)) {
                let k = choose|k: int|
                    0 <= k <= a.len() && k < b.len() && #[trigger] a.take(k) == b.take(k) && (k
                        == a.len() || (a[k] as int) < (b[k] as int));
                assert(x.take(k - 1) =~= a.take(k).drop_first());
                assert(y.take(k - 1) =~= b.take(k).drop_first());
            }
        }
    }
}

/// The first of a list in id order with a property stands before every other that
/// has it.
proof fn lemma_first_is_least(q: Seq<Text>, p: spec_fn(Text) -> bool)
    requires
        ascending(q),
    ensures
        first_where(q, p) matches Some(x) ==> forall|y: Text|
            q.contains(y) && #[trigger] p(y) && y != x ==> text_lt(x, y),
    decreases q.len(),
{
    if q.len() > 0 {
        let r = q.drop_first();
        assert(ascending(r));
        lemma_first_is_least(r, p);
        assert forall|y: Text| q.contains(y) && #[trigger] p(y) && first_where(q, p) != Some(y)
            && first_where(q, p) is Some implies text_lt(first_where(q, p)->0, y) by {
            let i = choose|i: int| 0 <= i < q.len() && q[i] == y;
            if i > 0 {
                assert(r[i - 1] == y);
                assert(r.contains(y));
            }
            if p(q[0]) {
                assert(text_lt(q[0], q[i]));
            }
        }
    }
}

/// Whether a unit has nothing above it, and is the first in id order that has not.
pub open spec fn tops(m: Map<Text, UnitModel>, d: Text) -> bool {
    &&& m.dom().contains(d)
    &&& m[d].parent is None
    &&& forall|e: Text| #[trigger]
        m.dom().contains(e) && m[e].parent is None && e != d ==> text_lt(d, e)
}

/// Whether a unit names somebody its head, and is the first in id order that does.
pub open spec fn led_by(m: Map<Text, UnitModel>, person: Text, d: Text) -> bool {
    &&& m.dom().contains(d)
    &&& m[d].head == person
    &&& forall|e: Text| #[trigger]
        m.dom().contains(e) && m[e].head == person && e != d ==> text_lt(d, e)
}

/// The first of a set of ids with a property has it and stands before every other
/// that has; there is none where none has.
pub proof fn lemma_first_of(s: Set<Text>, p: spec_fn(Text) -> bool, x: Text)
    requires
        s.finite(),
    ensures
        first_where(listing(s), p) == Some(x) <==> s.contains(x) && p(x) && forall|y: Text|
            #[trigger] s.contains(y) && p(y) && y != x ==> text_lt(x, y),
        first_where(listing(s), p) is None <==> forall|y: Text| #[trigger] s.contains(y) ==> !p(y),
{
    let q = listing(s);
    lemma_finite_listing(s);
    lemma_first_where(q, p);
    lemma_first_is_least(q, p);
    if s.contains(x) && p(x) && forall|y: Text| #[trigger]
        s.contains(y) && p(y) && y != x ==> text_lt(x, y) {
        assert(q.contains(x));
        let i = choose|i: int| 0 <= i < q.len() && q[i] == x;
        assert(p(q[i]));
        let z = first_where(q, p)->0;
        assert(s.contains(z));
        if z != x {
            lemma_text_transitive(z, x, z);
            lemma_text_irreflexive(z);
        }
    }
    if first_where(q, p) == Some(x) {
        assert(s.contains(x));
        assert forall|y: Text| #[trigger] s.contains(y) && p(y) && y != x implies text_lt(x, y) by {
            assert(q.contains(y));
        }
    }
    if first_where(q, p) is None {
        assert forall|y: Text| #[trigger] s.contains(y) implies !p(y) by {
            assert(q.contains(y));
            let i = choose|i: int| 0 <= i < q.len() && q[i] == y;
            assert(!p(q[i]));
        }
    } else {
        assert(s.contains(first_where(q, p)->0));
    }
}

// ---------------------------------------------------------------------------
// The top, and headships
// ---------------------------------------------------------------------------

/// What decisions read of a company is what its rows say: of a unit its parent,
/// its head and its state; of somebody their role, their employment and their
/// unit.
pub proof fn law_the_shape_is_the_rows(c: CompanyModel, d: Text, p: Text)
    ensures
        c.org().departments.dom() == c.departments.dom(),
        c.org().people.dom() == c.people.dom(),
        c.departments.dom().contains(d) ==> c.org().departments[d].parent
            == c.departments[d].parent_id && c.org().departments[d].head
            == c.departments[d].head_person_id && c.org().departments[d].state
            == c.departments[d].state,
        c.people.dom().contains(p) ==> c.org().people[p].kind == c.people[p].kind
            && c.org().people[p].employment == c.people[p].employment_state
            && c.org().people[p].department == c.people[p].department_id,
{
    lemma_org(c);
}

/// The root is the first unit that has nothing above it; a company in which every
/// unit hangs from something has none. Whoever heads the root is the CEO, and
/// nobody else is.
pub proof fn law_the_ceo_heads_the_root(m: Map<Text, UnitModel>, root: Text, person: Text)
    requires
        m.dom().finite(),
    ensures
        root_of(m) == Some(root) <==> tops(m, root),
        root_of(m) is None <==> forall|d: Text| #[trigger] m.dom().contains(d) ==> m[d].parent
            is Some,
        ceo(m, person) <==> exists|r: Text| #[trigger] tops(m, r) && m[r].head == person,
{
    let p = |d: Text| m[d].parent is None;
    lemma_first_of(m.dom(), p, root);
    assert forall|r: Text| #[trigger] tops(m, r) <==> root_of(m) == Some(r) by {
        lemma_first_of(m.dom(), p, r);
        if tops(m, r) {
            assert(m.dom().contains(r) && p(r));
            assert forall|e: Text| #[trigger] m.dom().contains(e) && p(e) && e != r implies text_lt(
                r,
                e,
            ) by {}
        }
        if root_of(m) == Some(r) {
            assert forall|e: Text| #[trigger]
                m.dom().contains(e) && m[e].parent is None && e != r implies text_lt(r, e) by {
                assert(p(e));
            }
        }
    }
    if root_of(m) is None {
        assert forall|d: Text| #[trigger] m.dom().contains(d) implies m[d].parent is Some by {
            assert(!p(d));
        }
    } else {
        assert(tops(m, root_of(m)->0));
    }
}

/// Whom a company's root names its head is its CEO, and nobody where it has no
/// root.
pub proof fn law_the_root_names_the_ceo(c: CompanyModel, person: Text)
    requires
        c.finite(),
    ensures
        c.root_head() == Some(person) <==> c.is_ceo(person),
        c.root_head() is None <==> c.company_root() is None,
{
    lemma_org(c);
    let m = c.org().departments;
    law_the_ceo_heads_the_root(m, person, person);
    if let Some(r) = c.company_root() {
        law_the_ceo_heads_the_root(m, r, person);
    }
}

/// What decisions read of a manifest is what its records say.
pub proof fn law_the_shape_is_the_records(m: ManifestModel, d: Text, p: Text)
    ensures
        shape_of(m).departments.dom() == m.departments.dom(),
        shape_of(m).people.dom() == m.people.dom(),
        m.departments.dom().contains(d) ==> shape_of(m).departments[d].parent
            == m.departments[d].parent_department_id && shape_of(m).departments[d].head
            == m.departments[d].head_person_id && shape_of(m).departments[d].state
            == m.departments[d].state,
        m.people.dom().contains(p) ==> shape_of(m).people[p].kind == m.people[p].kind
            && shape_of(m).people[p].employment == m.people[p].employment_state && shape_of(
            m,
        ).people[p].department == m.people[p].department_id,
{
    assert(shape_of(m).departments.dom() =~= m.departments.dom());
    assert(shape_of(m).people.dom() =~= m.people.dom());
}

/// Somebody heads the first unit that names them its head, whatever their row
/// says of them; and nothing where none does.
pub proof fn law_a_headship_is_the_units_word(m: Map<Text, UnitModel>, person: Text, unit: Text)
    requires
        m.dom().finite(),
    ensures
        headed_by(m, person) == Some(unit) <==> led_by(m, person, unit),
        headed_by(m, person) is None <==> forall|d: Text| #[trigger]
            m.dom().contains(d) ==> m[d].head != person,
{
    let p = |d: Text| m[d].head == person;
    lemma_first_of(m.dom(), p, unit);
    if led_by(m, person, unit) {
        assert(m.dom().contains(unit) && p(unit));
        assert forall|e: Text| #[trigger] m.dom().contains(e) && p(e) && e != unit implies text_lt(
            unit,
            e,
        ) by {}
    }
    if headed_by(m, person) == Some(unit) {
        assert forall|e: Text| #[trigger]
            m.dom().contains(e) && m[e].head == person && e != unit implies text_lt(unit, e) by {
            assert(p(e));
        }
    }
    if headed_by(m, person) is None {
        assert forall|d: Text| #[trigger] m.dom().contains(d) implies m[d].head != person by {
            assert(!p(d));
        }
    } else {
        lemma_first_of(m.dom(), p, headed_by(m, person)->0);
    }
}

/// A list in order keeps its order where some are left out.
proof fn lemma_still_ascending(q: Seq<Text>, p: spec_fn(Text) -> bool)
    requires
        ascending(q),
    ensures
        ascending(those_where(q, p)),
    decreases q.len(),
{
    if q.len() > 0 {
        let r = q.drop_last();
        assert(ascending(r));
        lemma_still_ascending(r, p);
        lemma_those_where(r, p);
        let a = those_where(r, p);
        let b = those_where(q, p);
        assert forall|i: int, j: int| 0 <= i < j < b.len() implies text_lt(
            #[trigger] b[i],
            #[trigger] b[j],
        ) by {
            if p(q.last()) && j == b.len() - 1 {
                assert(a[i] == b[i]);
                assert(a.contains(b[i]));
                assert(r.contains(b[i]));
                let k = choose|k: int| 0 <= k < r.len() && r[k] == b[i];
                assert(text_lt(q[k], q[q.len() - 1]));
            } else {
                assert(a[i] == b[i] && a[j] == b[j]);
            }
        }
    }
}

/// The members of a unit but one are everybody else who is employed in it, on the
/// bench or not; and what hangs from it is every unit that names it its parent.
/// Either comes in id order.
pub proof fn law_members_and_children(o: OrgModel, unit: Text, but: Text, x: Text)
    requires
        o.people.dom().finite(),
        o.departments.dom().finite(),
    ensures
        members_but(o, unit, but).contains(x) <==> o.people.dom().contains(x) && x != but
            && o.people[x].department == unit && (o.people[x].employment
            == EmploymentState::Active || o.people[x].employment == EmploymentState::Benched),
        ascending(members_but(o, unit, but)),
        children(o.departments, unit).contains(x) <==> o.departments.dom().contains(x)
            && o.departments[x].parent == Some(unit),
        ascending(children(o.departments, unit)),
{
    let m = o.departments;
    lemma_finite_listing(o.people.dom());
    lemma_finite_listing(m.dom());
    lemma_those_where(listing(o.people.dom()), member_but(o, unit, but));
    lemma_still_ascending(listing(o.people.dom()), member_but(o, unit, but));
    lemma_those_where(listing(m.dom()), |d: Text| m[d].parent == Some(unit));
    lemma_still_ascending(listing(m.dom()), |d: Text| m[d].parent == Some(unit));
}

// ---------------------------------------------------------------------------
// What runs, and what hangs from what
// ---------------------------------------------------------------------------

/// A unit hangs beneath another exactly where it is that unit, or what it hangs
/// from does.
pub proof fn law_what_hangs_beneath(m: Map<Text, UnitModel>, d: Text, top: Text)
    ensures
        beneath(m, d, top) <==> d == top || (m.dom().contains(d) && m[d].parent is Some && beneath(
            m,
            m[d].parent->0,
            top,
        )),
{
    lemma_beneath_step(m, d, top);
    if !m.dom().contains(d) && beneath(m, d, top) {
        let n = choose|n: nat| #[trigger] above(m, d, n) == Some(top);
        lemma_nothing_above(m, d, n);
    }
}

proof fn lemma_nothing_above(m: Map<Text, UnitModel>, d: Text, n: nat)
    requires
        !m.dom().contains(d),
    ensures
        n > 0 ==> above(m, d, n) is None,
        n == 0 ==> above(m, d, n) == Some(d),
    decreases n,
{
    if n > 0 {
        lemma_nothing_above(m, d, (n - 1) as nat);
    }
}

/// One step up first, and then the others.
proof fn lemma_step_first(m: Map<Text, UnitModel>, d: Text, n: nat)
    requires
        m.dom().contains(d),
    ensures
        above(m, d, n + 1) == match m[d].parent {
            Some(e) => above(m, e, n),
            None => None,
        },
    decreases n,
{
    if n == 0 {
        assert(above(m, d, 0) == Some(d));
    } else {
        lemma_step_first(m, d, (n - 1) as nat);
        assert(above(m, d, (n + 1) as nat) == match above(m, d, n) {
            Some(x) => if m.dom().contains(x) {
                m[x].parent
            } else {
                None
            },
            None => None,
        });
    }
}

/// Whether the way up from a unit ends after `n` steps and passes only units that
/// are there and active.
spec fn runs_for(m: Map<Text, UnitModel>, d: Text, n: nat) -> bool {
    &&& above(m, d, n) is None
    &&& forall|k: nat|
        k < n ==> (#[trigger] above(m, d, k) matches Some(x) && m.dom().contains(x) && m[x].state
            == UnitState::Active)
}

proof fn lemma_runs_one_less(m: Map<Text, UnitModel>, d: Text, e: Text, n: nat)
    requires
        m.dom().contains(d),
        m[d].parent == Some(e),
        n > 0,
        runs_for(m, d, n),
    ensures
        runs_for(m, e, (n - 1) as nat),
{
    let k = (n - 1) as nat;
    lemma_step_first(m, d, k);
    assert forall|j: nat| j < k implies (#[trigger] above(m, e, j) matches Some(x)
        && m.dom().contains(x) && m[x].state == UnitState::Active) by {
        lemma_step_first(m, d, j);
        let i = j + 1;
        assert(above(m, d, i) is Some);
    }
}

proof fn lemma_runs_one_more(m: Map<Text, UnitModel>, d: Text, e: Text, n: nat)
    requires
        m.dom().contains(d),
        m[d].state == UnitState::Active,
        m[d].parent == Some(e),
        runs_for(m, e, n),
    ensures
        runs_for(m, d, n + 1),
{
    lemma_step_first(m, d, n);
    assert forall|j: nat| j < n + 1 implies (#[trigger] above(m, d, j) matches Some(x)
        && m.dom().contains(x) && m[x].state == UnitState::Active) by {
        if j > 0 {
            let i = (j - 1) as nat;
            lemma_step_first(m, d, i);
            assert(above(m, e, i) is Some);
        } else {
            assert(above(m, d, 0) == Some(d));
        }
    }
}

proof fn lemma_running_for(m: Map<Text, UnitModel>, d: Text)
    ensures
        running(m, d) <==> exists|n: nat| runs_for(m, d, n),
{
    if running(m, d) {
        let n = choose|n: nat| #[trigger]
            above(m, d, n) is None && forall|k: nat|
                k < n ==> (#[trigger] above(m, d, k) matches Some(x) && m.dom().contains(x)
                    && m[x].state == UnitState::Active);
        assert(runs_for(m, d, n));
    }
    if exists|n: nat| runs_for(m, d, n) {
        let n = choose|n: nat| runs_for(m, d, n);
        assert(above(m, d, n) is None);
    }
}

/// A unit runs exactly where it is there, its own row says so, and it hangs from
/// nothing or from a unit that runs. What hangs beneath itself never runs.
pub proof fn law_what_runs(m: Map<Text, UnitModel>, d: Text)
    ensures
        running(m, d) <==> m.dom().contains(d) && m[d].state == UnitState::Active && (m[d].parent
            is Some ==> running(m, m[d].parent->0)),
        stopped(m, d) == !running(m, d),
        m.dom().contains(d) && (m[d].parent matches Some(e) && beneath(m, e, d)) ==> stopped(m, d),
{
    lemma_running_for(m, d);
    if running(m, d) {
        let n = choose|n: nat| runs_for(m, d, n);
        assert(above(m, d, 0) == Some(d));
        assert(n > 0);
        if let Some(e) = m[d].parent {
            lemma_runs_one_less(m, d, e, n);
            lemma_running_for(m, e);
            if beneath(m, e, d) {
                let i = choose|i: nat| #[trigger] above(m, e, i) == Some(d);
                lemma_step_first(m, d, i);
                lemma_comes_round(m, d, (i + 1) as nat, n);
            }
        }
    }
    if m.dom().contains(d) && m[d].state == UnitState::Active {
        match m[d].parent {
            None => {
                lemma_step_first(m, d, 0);
                assert(above(m, d, 0) == Some(d));
                assert(above(m, d, 1) is None);
                assert(runs_for(m, d, 1));
            },
            Some(e) => {
                if running(m, e) {
                    lemma_running_for(m, e);
                    let n = choose|n: nat| runs_for(m, e, n);
                    lemma_runs_one_more(m, d, e, n);
                    assert(runs_for(m, d, n + 1));
                }
            },
        }
    }
}

/// A way up that comes back never ends.
proof fn lemma_comes_round(m: Map<Text, UnitModel>, d: Text, i: nat, n: nat)
    requires
        i > 0,
        above(m, d, i) == Some(d),
    ensures
        above(m, d, n) is Some,
    decreases n,
{
    if n >= i {
        lemma_comes_round(m, d, i, (n - i) as nat);
        lemma_both_steps(m, d, d, i, (n - i) as nat);
    } else {
        if above(m, d, n) is None {
            lemma_stays_ended(m, d, n, i);
        }
    }
}

proof fn lemma_both_steps(m: Map<Text, UnitModel>, a: Text, b: Text, i: nat, j: nat)
    requires
        above(m, a, i) == Some(b),
    ensures
        above(m, a, i + j) == above(m, b, j),
    decreases j,
{
    if j > 0 {
        lemma_both_steps(m, a, b, i, (j - 1) as nat);
        assert(above(m, a, i + j) == match above(m, a, (i + j - 1) as nat) {
            Some(x) => if m.dom().contains(x) {
                m[x].parent
            } else {
                None
            },
            None => None,
        });
    }
}

proof fn lemma_stays_ended(m: Map<Text, UnitModel>, d: Text, n: nat, k: nat)
    requires
        above(m, d, n) is None,
        n <= k,
    ensures
        above(m, d, k) is None,
    decreases k,
{
    if n < k {
        lemma_stays_ended(m, d, n, (k - 1) as nat);
    }
}

// ---------------------------------------------------------------------------
// Reach
// ---------------------------------------------------------------------------

/// Who has departed, and who is not there, manages nothing. Of those employed, on
/// the bench or not, an executive manages every unit; whose role is a head, the
/// unit that names them its head and what hangs beneath it; and a worker nothing.
pub proof fn law_who_manages_what(o: OrgModel, person: Text, department: Text)
    ensures
        ({
            let r = manages(o, person, department);
            let row = o.people[person];
            let employed = o.people.dom().contains(person) && (row.employment
                == EmploymentState::Active || row.employment == EmploymentState::Benched);
            let unit = headed_by(o.departments, person);
            &&& !employed ==> !r
            &&& employed && row.kind == PersonKind::Executive ==> r
            &&& employed && row.kind == PersonKind::Worker ==> !r
            &&& employed && row.kind == PersonKind::Head && unit is None ==> !r
            &&& employed && row.kind == PersonKind::Head && unit is Some ==> (r <==> beneath(
                o.departments,
                department,
                unit->0,
            ))
        }),
{
}

/// Beneath a unit may create whoever manages it, and besides whoever is employed
/// in it, on the bench or not, and heads nothing.
pub proof fn law_who_may_create_where(o: OrgModel, person: Text, parent: Text)
    requires
        o.departments.dom().finite(),
    ensures
        ({
            let row = o.people[person];
            let heads = exists|d: Text| #[trigger]
                o.departments.dom().contains(d) && o.departments[d].head == person;
            may_create_under(o, person, parent) <==> manages(o, person, parent) || (
            o.people.dom().contains(person) && (row.employment == EmploymentState::Active
                || row.employment == EmploymentState::Benched) && row.department == parent
                && !heads)
        }),
{
    law_a_headship_is_the_units_word(o.departments, person, parent);
}

/// Only an actor whose words are the id of somebody in the company is judged, and
/// by what that person manages: of a unit, that unit; of somebody, the unit they
/// are in.
pub proof fn law_who_is_judged(c: CompanyModel, actor: Text, department: Text, person: Text)
    ensures
        c.out_of_scope(actor, department) <==> actor.len() > 0 && c.people.dom().contains(actor)
            && !manages(c.org(), actor, department),
        c.out_of_scope_for(actor, person) <==> c.people.dom().contains(person) && actor.len() > 0
            && c.people.dom().contains(actor) && !manages(
            c.org(),
            actor,
            c.people[person].department_id,
        ),
{
}

} // verus!
