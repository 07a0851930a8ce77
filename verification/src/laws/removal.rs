//! What removing a unit does to what hangs beneath it.

use vstd::prelude::*;

use crate::company::CompanyModel;
use crate::laws::chart::{
    charted, lemma_org, lemma_residents, lemma_subtree, person_sound, unit_sound,
};
use crate::laws::chart_kept::lemma_pruned;
use crate::laws::decision::Decision;
use crate::laws::frames::{
    lemma_delete_departments, lemma_number_departments, lemma_number_people, lemma_with_last,
};
use crate::laws::ledger::{ledgered, lemma_open_transition, lemma_superseded, none_open};
use crate::laws::ledger_kept::lemma_left_behind_all;
use crate::laws::running::lemma_removed_fences;
use crate::laws::tree::{
    all_rooted, depth, lemma_above_parent, lemma_beneath_depth, lemma_beneath_step,
    lemma_rooted_parent,
};
use crate::order::{key_lt, lemma_sorted};
use crate::org_view::{
    above, beneath, climbs, lemma_distinct_fit, lemma_way_up, rooted, steps_beneath, those_where,
    way_up, Climb, UnitModel,
};
use crate::organization::{EmploymentState, PersonKind};
use crate::table::{lemma_finite_listing, listing};
use crate::text::Text;

verus! {

/// Whoever leaves with their unit has nothing open and is not wanted up.
proof fn lemma_left_at_rest(
    c: CompanyModel,
    people: Seq<Text>,
    rests: Text,
    reason: Text,
    at: Text,
    p: Text,
)
    requires
        c.finite(),
        ledgered(c),
        people.contains(p),
    ensures
        none_open(c.left_behind_all(people, rests, reason, at), p),
        !c.left_behind_all(people, rests, reason, at).desired(p),
    decreases people.len(),
{
    let front = people.drop_last();
    let who = people.last();
    let b = c.left_behind_all(front, rests, reason, at);
    let r = c.left_behind_all(people, rests, reason, at);
    lemma_left_behind_all(c, front, rests, reason, at);
    lemma_with_last(people);
    let f = b.delete_fence(who);
    let marker = "superseded-by-department-removal:"@ + b.people[who].department_id;
    lemma_superseded(f, who, marker, at);
    lemma_open_transition(f, who);
    let e = f.supersede_open_transition(who, marker, at);
    assert(r.transitions == e.transitions);
    if p == who {
        assert forall|t: Text| #[trigger]
            r.transitions.dom().contains(t) && r.transitions[t].person_id == p implies
            !r.transitions[t].status.open() by {
            assert(e.transitions.dom().contains(t));
        }
    } else {
        lemma_left_at_rest(c, front, rests, reason, at, p);
        assert forall|t: Text| #[trigger]
            r.transitions.dom().contains(t) && r.transitions[t].person_id == p implies
            !r.transitions[t].status.open() by {
            assert(e.transitions.dom().contains(t));
            assert(f.transitions.dom().contains(t));
            assert(b.transitions.dom().contains(t));
        }
    }
}

/// Where somebody is in a unit that is removed, or in one beneath it, they are
/// among those who leave with it.
pub proof fn lemma_goes(c: CompanyModel, department: Text, p: Text)
    requires
        c.finite(),
        c.departments.dom().contains(department),
        c.people.dom().contains(p),
        beneath(c.org().departments, c.people[p].department_id, department),
    ensures
        c.departments.dom().contains(c.people[p].department_id),
        c.people_in(c.subtree_descending(department)).contains(p),
{
    let m = c.org().departments;
    let home = c.people[p].department_id;
    lemma_org(c);
    let n = choose|n: nat| #[trigger] above(m, home, n) == Some(department);
    if n > 0 {
        lemma_known_below(m, home, n);
    }
    let units = c.subtree_descending(department);
    lemma_subtree(c, department);
    lemma_residents(c, units);
    assert(units.contains(home));
}

/// What has something above it is a unit that is there.
proof fn lemma_known_below(m: Map<Text, UnitModel>, id: Text, n: nat)
    requires
        above(m, id, n) is Some,
        n > 0,
    ensures
        m.dom().contains(id),
    decreases n,
{
    assert(above(m, id, 0) == Some(id));
    if n > 1 {
        lemma_known_below(m, id, (n - 1) as nat);
    }
}

/// Removing a unit deletes it and everything beneath it, and nobody. Whoever
/// was in it departs and rests in the unit's parent, without a start decision; a
/// head among them is a worker from then on, and the others keep their role.
/// Whoever was not in it stays as they were.
pub proof fn law_removing_departs_everybody(
    c: CompanyModel,
    department: Text,
    at: Text,
    actor: Text,
    p: Text,
)
    requires
        c.finite(),
        c.allows(Decision::RemoveTree { department }, actor),
        c.people.dom().contains(p),
    ensures
        ({
            let r = c.department_removed(department, at, actor);
            let m = c.org().departments;
            &&& forall|d: Text| #[trigger]
                r.departments.dom().contains(d) <==> c.departments.dom().contains(d) && !beneath(
                    m,
                    d,
                    department,
                )
            &&& r.people.dom() == c.people.dom()
            &&& if beneath(m, c.people[p].department_id, department) {
                &&& r.people[p].employment_state == EmploymentState::Departed
                &&& Some(r.people[p].department_id) == c.departments[department].parent_id
                &&& r.people[p].kind == (if c.people[p].kind == PersonKind::Head {
                    PersonKind::Worker
                } else {
                    c.people[p].kind
                })
                &&& !r.fences.dom().contains(p)
            } else {
                &&& r.people[p].employment_state == c.people[p].employment_state
                &&& r.people[p].department_id == c.people[p].department_id
                &&& r.people[p].kind == c.people[p].kind
            }
        }),
{
    lemma_pruned(c, department, at, actor);
    if beneath(c.org().departments, c.people[p].department_id, department) {
        lemma_goes(c, department, p);
        lemma_removed_fences(c, department, at, actor);
    }
}

/// Whoever leaves with a unit that is removed has nothing open and is not wanted
/// up.
pub proof fn law_removing_leaves_nothing_open(
    c: CompanyModel,
    department: Text,
    at: Text,
    actor: Text,
    p: Text,
)
    requires
        c.finite(),
        ledgered(c),
        c.allows(Decision::RemoveTree { department }, actor),
        c.people.dom().contains(p),
        beneath(c.org().departments, c.people[p].department_id, department),
    ensures
        none_open(c.department_removed(department, at, actor), p),
        !c.department_removed(department, at, actor).desired(p),
{
    let r = c.department_removed(department, at, actor);
    let units = c.subtree_descending(department);
    let people = c.people_in(units);
    lemma_goes(c, department, p);
    let rests = c.departments[department].parent_id->0;
    let reason = "department "@ + department + " removed"@;
    lemma_left_at_rest(c, people, rests, reason, at, p);
    let left = c.left_behind_all(people, rests, reason, at);
    lemma_delete_departments(left, units);
    let cut = left.delete_departments(units);
    lemma_number_departments(cut, cut.department_order(), at);
    let ordered = cut.refresh_department_order(at);
    lemma_number_people(ordered, ordered.people_order(), at);
    assert(r.transitions == left.transitions);
    assert(r.activity == left.activity);
}

/// Where the chart is sound, whoever leaves with a unit that is removed is a
/// worker from then on.
pub proof fn law_removing_leaves_workers(
    c: CompanyModel,
    root: Text,
    department: Text,
    at: Text,
    actor: Text,
    p: Text,
)
    requires
        c.finite(),
        charted(c, root),
        c.allows(Decision::RemoveTree { department }, actor),
        c.people.dom().contains(p),
        beneath(c.org().departments, c.people[p].department_id, department),
    ensures
        c.department_removed(department, at, actor).people[p].kind == PersonKind::Worker,
{
    let home = c.people[p].department_id;
    lemma_org(c);
    lemma_pruned(c, department, at, actor);
    assert(person_sound(c, p));
    lemma_beneath_step(c.org().departments, root, department);
    assert(home != root);
    if c.people[p].kind != PersonKind::Worker {
        assert(unit_sound(c, root, home));
    }
}

/// How far a unit is beneath another is one more than how far its parent is.
proof fn lemma_steps_parent(
    m: Map<Text, UnitModel>,
    y: Text,
    e: Text,
    top: Text,
)
    requires
        m.dom().contains(y),
        m[y].parent == Some(e),
        y != top,
        beneath(m, e, top),
    ensures
        steps_beneath(m, y, top) == steps_beneath(m, e, top) + 1,
{
    let n = lemma_steps(m, e, top);
    assert(above(m, y, 0) == Some(y));
    lemma_above_parent(m, y, e, n);
    assert forall|k: nat| k < n + 1 implies #[trigger] above(m, y, k) != Some(top) by {
        if k > 0 {
            lemma_above_parent(m, y, e, (k - 1) as nat);
            assert(above(m, e, (k - 1) as nat) != Some(top));
        }
    }
    lemma_steps_are(m, y, top, n + 1);
}

/// The least number of steps up to a unit above.
proof fn lemma_steps(m: Map<Text, UnitModel>, y: Text, top: Text) -> (n: nat)
    requires
        beneath(m, y, top),
    ensures
        n == steps_beneath(m, y, top),
        above(m, y, n) == Some(top),
        forall|k: nat| k < n ==> #[trigger] above(m, y, k) != Some(top),
{
    let w = choose|w: nat| #[trigger] above(m, y, w) == Some(top);
    let n = lemma_least(m, y, top, w);
    lemma_steps_are(m, y, top, n);
    n
}

proof fn lemma_least(
    m: Map<Text, UnitModel>,
    y: Text,
    top: Text,
    w: nat,
) -> (n: nat)
    requires
        above(m, y, w) == Some(top),
    ensures
        n <= w,
        above(m, y, n) == Some(top),
        forall|k: nat| k < n ==> #[trigger] above(m, y, k) != Some(top),
    decreases w,
{
    if exists|k: nat| k < w && #[trigger] above(m, y, k) == Some(top) {
        let k = choose|k: nat| k < w && #[trigger] above(m, y, k) == Some(top);
        lemma_least(m, y, top, k)
    } else {
        w
    }
}

proof fn lemma_steps_are(
    m: Map<Text, UnitModel>,
    y: Text,
    top: Text,
    n: nat,
)
    requires
        above(m, y, n) == Some(top),
        forall|k: nat| k < n ==> #[trigger] above(m, y, k) != Some(top),
    ensures
        steps_beneath(m, y, top) == n,
{
    reveal(steps_beneath);
    let s = steps_beneath(m, y, top);
    assert(above(m, y, s) == Some(top) && forall|k: nat|
        k < s ==> #[trigger] above(m, y, k) != Some(top)) by {
        assert(above(m, y, n) == Some(top) && forall|k: nat|
            k < n ==> #[trigger] above(m, y, k) != Some(top));
    }
    if s < n {
        assert(above(m, y, s) != Some(top));
    } else if n < s {
        assert(above(m, y, n) != Some(top));
    }
}

/// What is beneath another unit of a subtree is further down it.
proof fn lemma_deeper(
    m: Map<Text, UnitModel>,
    y: Text,
    x: Text,
    top: Text,
)
    requires
        all_rooted(m),
        m.dom().contains(y),
        m.dom().contains(x),
        beneath(m, y, x),
        beneath(m, x, top),
        y != x,
    ensures
        steps_beneath(m, y, top) > steps_beneath(m, x, top),
        beneath(m, y, top),
    decreases depth(m, y),
{
    lemma_beneath_step(m, y, x);
    let e = m[y].parent->0;
    lemma_rooted_parent(m, y, e);
    lemma_beneath_depth(m, y, x);
    lemma_beneath_depth(m, x, top);
    if e != x {
        lemma_deeper(m, e, x, top);
    }
    lemma_beneath_step(m, y, top);
    lemma_steps_parent(m, y, e, top);
}

/// A unit stands no further down than there are units.
proof fn lemma_steps_fit(m: Map<Text, UnitModel>, y: Text, top: Text)
    requires
        all_rooted(m),
        m.dom().finite(),
        m.dom().contains(y),
        beneath(m, y, top),
    ensures
        steps_beneath(m, y, top) < depth(m, y),
        depth(m, y) <= m.dom().len(),
    decreases depth(m, y),
{
    lemma_finite_listing(m.dom());
    let q = way_up(m, y);
    lemma_way_distinct(m, y);
    assert forall|i: int| 0 <= i < q.len() implies listing(m.dom()).contains(#[trigger] q[i]) by {
        assert(m.dom().contains(q[i]));
    }
    lemma_distinct_fit(q, listing(m.dom()));
    assert(above(m, y, 0) == Some(y));
    if y == top {
        lemma_steps_are(m, y, top, 0);
        assert(rooted(m, y));
    } else {
        lemma_beneath_step(m, y, top);
        let e = m[y].parent->0;
        lemma_rooted_parent(m, y, e);
        lemma_steps_fit(m, e, top);
        lemma_steps_parent(m, y, e, top);
    }
}

/// A way up names units, and none twice.
proof fn lemma_way_distinct(m: Map<Text, UnitModel>, y: Text)
    requires
        all_rooted(m),
        m.dom().contains(y),
    ensures
        way_up(m, y).no_duplicates(),
        forall|i: int| 0 <= i < way_up(m, y).len() ==> m.dom().contains(#[trigger] way_up(m, y)[i]),
        forall|i: int|
            0 <= i < way_up(m, y).len() ==> depth(m, #[trigger] way_up(m, y)[i]) <= depth(m, y),
        depth(m, y) > 0,
    decreases depth(m, y),
{
    assert(rooted(m, y));
    let q = way_up(m, y);
    match m[y].parent {
        None => {
            let s = seq![y];
            assert(above(m, y, 0) == Some(y));
            assert(above(m, y, 1) == m[y].parent);
            assert(climbs(m, y, s, Climb::Rooted));
            lemma_way_up(m, y, s, Climb::Rooted);
        },
        Some(e) => {
            lemma_rooted_parent(m, y, e);
            lemma_way_distinct(m, e);
            let t = way_up(m, e);
            assert(q == seq![y] + t);
            assert forall|i: int| 0 <= i < q.len() implies m.dom().contains(#[trigger] q[i])
                && depth(m, q[i]) <= depth(m, y) by {
                if i > 0 {
                    assert(q[i] == t[i - 1]);
                }
            }
            assert forall|i: int, j: int|
                0 <= i < q.len() && 0 <= j < q.len() && i != j implies q[i] != q[j] by {
                if i > 0 {
                    assert(q[i] == t[i - 1]);
                }
                if j > 0 {
                    assert(q[j] == t[j - 1]);
                }
            }
        },
    }
}

/// Units of a subtree come in the order of how far down they are.
proof fn lemma_deepest_first(c: CompanyModel, department: Text, i: int, j: int)
    requires
        0 <= j < i < c.subtree_descending(department).len(),
    ensures
        !key_lt(
            c.depth_key(c.subtree_descending(department)[i], department),
            c.depth_key(c.subtree_descending(department)[j], department),
        ),
{
    lemma_sorted(
        those_where(
            listing(c.departments.dom()),
            |d: Text| beneath(c.org().departments, d, department),
        ),
        |d: Text| c.depth_key(d, department),
    );
}

/// Units are removed from the bottom up: whatever hangs beneath a unit goes
/// before it.
pub proof fn law_removing_goes_from_the_bottom_up(
    c: CompanyModel,
    department: Text,
    i: int,
    j: int,
)
    requires
        c.finite(),
        all_rooted(c.org().departments),
        c.departments.dom().len() <= u64::MAX,
        0 <= i < c.subtree_descending(department).len(),
        0 <= j < c.subtree_descending(department).len(),
        c.subtree_descending(department)[i] != c.subtree_descending(department)[j],
        beneath(
            c.org().departments,
            c.subtree_descending(department)[i],
            c.subtree_descending(department)[j],
        ),
    ensures
        i < j,
{
    let q = c.subtree_descending(department);
    lemma_org(c);
    lemma_subtree(c, department);
    assert(q.contains(q[i]) && q.contains(q[j]));
    lemma_deeper_first(c, q[i], q[j], department);
    if j < i {
        lemma_deepest_first(c, department, i, j);
    }
}

/// Further down is further to the front.
proof fn lemma_deeper_first(c: CompanyModel, y: Text, x: Text, department: Text)
    requires
        c.departments.dom().finite(),
        all_rooted(c.org().departments),
        c.departments.dom().len() <= u64::MAX,
        c.departments.dom().contains(y),
        c.departments.dom().contains(x),
        beneath(c.org().departments, y, x),
        beneath(c.org().departments, x, department),
        y != x,
    ensures
        key_lt(c.depth_key(y, department), c.depth_key(x, department)),
{
    let m = c.org().departments;
    lemma_org(c);
    lemma_deeper(m, y, x, department);
    lemma_steps_fit(m, y, department);
    lemma_steps_fit(m, x, department);
    assert(c.depth_key(y, department)[0] < c.depth_key(x, department)[0]);
}

} // verus!
