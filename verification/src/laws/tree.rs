//! Trees of units: what hangs beneath a root, and what keeps it so.

use vstd::prelude::*;

use crate::org_view::{above, beneath, climbs, lemma_way_up, rooted, way_up, Climb, UnitModel};
use crate::text::Text;

verus! {

/// Whether every unit's parent is there and stands closer to the top than the
/// unit does.
pub open spec fn descends(m: Map<Text, UnitModel>, depth: spec_fn(Text) -> nat) -> bool {
    forall|d: Text| #[trigger]
        m.dom().contains(d) ==> (m[d].parent matches Some(e) ==> m.dom().contains(e) && depth(e)
            < depth(d))
}

/// Whether every unit hangs beneath a root.
pub open spec fn all_rooted(m: Map<Text, UnitModel>) -> bool {
    forall|d: Text| m.dom().contains(d) ==> #[trigger] rooted(m, d)
}

/// How far a unit stands beneath its root.
pub open spec fn depth(m: Map<Text, UnitModel>, id: Text) -> nat {
    way_up(m, id).len()
}

/// What is above a unit's parent is above the unit, one step further.
pub proof fn lemma_above_parent(m: Map<Text, UnitModel>, d: Text, e: Text, n: nat)
    requires
        m.dom().contains(d),
        m[d].parent == Some(e),
    ensures
        above(m, d, n + 1) == above(m, e, n),
    decreases n,
{
    if n == 0 {
        assert(above(m, d, 0) == Some(d));
        assert(above(m, d, 1) == m[d].parent);
        assert(above(m, e, 0) == Some(e));
    } else {
        lemma_above_parent(m, d, e, (n - 1) as nat);
        assert(above(m, d, n) == above(m, e, (n - 1) as nat));
    }
}

/// Who hangs beneath a root has a parent that does, one step closer.
pub proof fn lemma_rooted_parent(m: Map<Text, UnitModel>, d: Text, e: Text)
    requires
        rooted(m, d),
        m.dom().contains(d),
        m[d].parent == Some(e),
    ensures
        m.dom().contains(e),
        rooted(m, e),
        way_up(m, d) == seq![d] + way_up(m, e),
        depth(m, e) < depth(m, d),
{
    let q = way_up(m, d);
    assert(climbs(m, d, q, Climb::Rooted));
    assert(above(m, d, 0) == Some(d));
    assert(q[0] == d);
    assert(above(m, d, 1) == Some(e));
    if q.len() == 1 {
        assert(above(m, d, q.len()) is None);
    }
    let t = q.drop_first();
    assert forall|k: nat| k < t.len() implies #[trigger] above(m, e, k) == Some(t[k as int]) by {
        lemma_above_parent(m, d, e, k);
        assert(above(m, d, (k + 1) as nat) == Some(q[(k + 1) as int]));
    }
    assert forall|k: int| 0 <= k < t.len() - 1 implies m.dom().contains(#[trigger] t[k]) by {
        assert(t[k] == q[k + 1]);
    }
    lemma_above_parent(m, d, e, t.len());
    assert(t.last() == q.last());
    assert(climbs(m, e, t, Climb::Rooted));
    lemma_way_up(m, e, t, Climb::Rooted);
    assert(above(m, e, 0) == Some(t[0]));
    if t.len() > 1 {
        assert(m.dom().contains(t[0]));
    }
    assert(q =~= seq![d] + t);
}

/// Where every unit hangs beneath a root, depth descends.
pub proof fn lemma_depth_descends(m: Map<Text, UnitModel>)
    requires
        all_rooted(m),
    ensures
        descends(m, |d: Text| depth(m, d)),
{
    let f = |d: Text| depth(m, d);
    assert forall|d: Text| #[trigger] m.dom().contains(d) implies (m[d].parent matches Some(e)
        ==> m.dom().contains(e) && f(e) < f(d)) by {
        if let Some(e) = m[d].parent {
            lemma_rooted_parent(m, d, e);
        }
    }
}

/// Where some measure descends, every unit hangs beneath a root.
pub proof fn lemma_descends_rooted(m: Map<Text, UnitModel>, f: spec_fn(Text) -> nat)
    requires
        descends(m, f),
    ensures
        all_rooted(m),
{
    assert forall|d: Text| m.dom().contains(d) implies #[trigger] rooted(m, d) by {
        lemma_rooted_by(m, f, d);
    }
}

proof fn lemma_rooted_by(m: Map<Text, UnitModel>, f: spec_fn(Text) -> nat, d: Text)
    requires
        descends(m, f),
        m.dom().contains(d),
    ensures
        rooted(m, d),
    decreases f(d),
{
    assert(above(m, d, 0) == Some(d));
    match m[d].parent {
        None => {
            assert(above(m, d, 1) == m[d].parent);
            let q = seq![d];
            assert(climbs(m, d, q, Climb::Rooted));
        },
        Some(e) => {
            lemma_rooted_by(m, f, e);
            let t = way_up(m, e);
            assert(climbs(m, e, t, Climb::Rooted));
            let q = seq![d] + t;
            assert forall|k: nat| k < q.len() implies #[trigger] above(m, d, k) == Some(
                q[k as int],
            ) by {
                if k > 0 {
                    lemma_above_parent(m, d, e, (k - 1) as nat);
                    assert(above(m, e, (k - 1) as nat) == Some(t[k - 1]));
                }
            }
            assert forall|k: int| 0 <= k < q.len() - 1 implies m.dom().contains(
                #[trigger] q[k],
            ) by {
                if k > 0 {
                    assert(q[k] == t[k - 1]);
                }
            }
            lemma_above_parent(m, d, e, t.len());
            assert(q.last() == t.last());
            assert(climbs(m, d, q, Climb::Rooted));
        },
    }
}

/// Units keep their places in the tree where nobody's parent changes.
pub proof fn lemma_same_parents(m: Map<Text, UnitModel>, n: Map<Text, UnitModel>)
    requires
        m.dom() == n.dom(),
        forall|d: Text| #[trigger] m.dom().contains(d) ==> m[d].parent == n[d].parent,
    ensures
        forall|d: Text, k: nat| #[trigger] above(m, d, k) == above(n, d, k),
        forall|d: Text, top: Text| #[trigger] beneath(m, d, top) == beneath(n, d, top),
        all_rooted(m) ==> all_rooted(n),
{
    assert forall|d: Text, k: nat| #[trigger] above(m, d, k) == above(n, d, k) by {
        lemma_same_above(m, n, d, k);
    }
    assert forall|d: Text, top: Text| #[trigger] beneath(m, d, top) == beneath(n, d, top) by {
        if beneath(m, d, top) {
            let k = choose|k: nat| #[trigger] above(m, d, k) == Some(top);
            assert(above(n, d, k) == Some(top));
        }
        if beneath(n, d, top) {
            let k = choose|k: nat| #[trigger] above(n, d, k) == Some(top);
            assert(above(m, d, k) == Some(top));
        }
    }
    if all_rooted(m) {
        lemma_depth_descends(m);
        lemma_descends_rooted(n, |d: Text| depth(m, d));
    }
}

proof fn lemma_same_above(m: Map<Text, UnitModel>, n: Map<Text, UnitModel>, d: Text, k: nat)
    requires
        m.dom() == n.dom(),
        forall|x: Text| #[trigger] m.dom().contains(x) ==> m[x].parent == n[x].parent,
    ensures
        above(m, d, k) == above(n, d, k),
    decreases k,
{
    if k > 0 {
        lemma_same_above(m, n, d, (k - 1) as nat);
    }
}

/// A unit is beneath another exactly where it is that unit or its parent is
/// beneath it.
pub proof fn lemma_beneath_step(m: Map<Text, UnitModel>, d: Text, top: Text)
    ensures
        beneath(m, d, d),
        m.dom().contains(d) ==> (beneath(m, d, top) <==> d == top || (m[d].parent matches Some(e)
            && beneath(m, e, top))),
{
    assert(above(m, d, 0) == Some(d));
    if m.dom().contains(d) {
        if beneath(m, d, top) && d != top {
            let k = choose|k: nat| #[trigger] above(m, d, k) == Some(top);
            assert(k > 0);
            match m[d].parent {
                Some(e) => {
                    lemma_above_parent(m, d, e, (k - 1) as nat);
                    assert(above(m, e, (k - 1) as nat) == Some(top));
                },
                None => {
                    lemma_above_root(m, d, k);
                },
            }
        }
        if let Some(e) = m[d].parent {
            if beneath(m, e, top) {
                let k = choose|k: nat| #[trigger] above(m, e, k) == Some(top);
                lemma_above_parent(m, d, e, k);
                assert(above(m, d, k + 1) == Some(top));
            }
        }
    }
}

proof fn lemma_above_root(m: Map<Text, UnitModel>, d: Text, k: nat)
    requires
        m.dom().contains(d),
        m[d].parent is None,
        k > 0,
    ensures
        above(m, d, k) is None,
    decreases k,
{
    if k > 1 {
        lemma_above_root(m, d, (k - 1) as nat);
    } else {
        assert(above(m, d, 0) == Some(d));
    }
}

/// Beneath what is beneath a unit is beneath the unit.
pub proof fn lemma_beneath_through(m: Map<Text, UnitModel>, a: Text, b: Text, c: Text)
    requires
        all_rooted(m),
        m.dom().contains(a),
        beneath(m, a, b),
        beneath(m, b, c),
    ensures
        beneath(m, a, c),
    decreases depth(m, a),
{
    if a != b {
        lemma_beneath_step(m, a, b);
        let e = m[a].parent->0;
        lemma_rooted_parent(m, a, e);
        lemma_beneath_through(m, e, b, c);
        lemma_beneath_step(m, a, c);
    }
}

/// A unit's parent is not beneath it.
pub proof fn lemma_parent_not_beneath(m: Map<Text, UnitModel>, d: Text, e: Text)
    requires
        all_rooted(m),
        m.dom().contains(d),
        m[d].parent == Some(e),
    ensures
        !beneath(m, e, d),
{
    lemma_rooted_parent(m, d, e);
    if beneath(m, e, d) {
        lemma_beneath_depth(m, e, d);
    }
}

/// What is beneath a unit stands no higher.
pub proof fn lemma_beneath_depth(m: Map<Text, UnitModel>, a: Text, b: Text)
    requires
        all_rooted(m),
        m.dom().contains(a),
        beneath(m, a, b),
    ensures
        m.dom().contains(b),
        depth(m, b) <= depth(m, a),
        a != b ==> depth(m, b) < depth(m, a),
    decreases depth(m, a),
{
    if a != b {
        lemma_beneath_step(m, a, b);
        let e = m[a].parent->0;
        lemma_rooted_parent(m, a, e);
        lemma_beneath_depth(m, e, b);
    }
}

/// Everything hangs beneath the one root.
pub proof fn lemma_beneath_root(m: Map<Text, UnitModel>, root: Text, d: Text)
    requires
        all_rooted(m),
        forall|x: Text| #[trigger] m.dom().contains(x) && m[x].parent is None ==> x == root,
        m.dom().contains(d),
    ensures
        beneath(m, d, root),
    decreases depth(m, d),
{
    lemma_beneath_step(m, d, root);
    if let Some(e) = m[d].parent {
        lemma_rooted_parent(m, d, e);
        lemma_beneath_root(m, root, e);
    }
}

/// A new unit beneath one that is there keeps the tree a tree.
pub proof fn lemma_leaf_added(m: Map<Text, UnitModel>, n: Map<Text, UnitModel>, id: Text, parent: Text)
    requires
        all_rooted(m),
        !m.dom().contains(id),
        m.dom().contains(parent),
        n.dom() == m.dom().insert(id),
        n[id].parent == Some(parent),
        forall|d: Text| #[trigger] m.dom().contains(d) ==> m[d].parent == n[d].parent,
    ensures
        all_rooted(n),
{
    lemma_depth_descends(m);
    let f = |d: Text|
        if d == id {
            depth(m, parent) + 1
        } else {
            depth(m, d)
        };
    assert forall|d: Text| #[trigger] n.dom().contains(d) implies (n[d].parent matches Some(e)
        ==> n.dom().contains(e) && f(e) < f(d)) by {
        if d != id {
            assert(m.dom().contains(d));
            if let Some(e) = m[d].parent {
                lemma_rooted_parent(m, d, e);
            }
        }
    }
    lemma_descends_rooted(n, f);
}

/// Units that nothing that stays hangs beneath may go, and the tree stays a
/// tree.
pub proof fn lemma_units_removed(m: Map<Text, UnitModel>, n: Map<Text, UnitModel>)
    requires
        all_rooted(m),
        n.dom().subset_of(m.dom()),
        forall|d: Text| #[trigger] n.dom().contains(d) ==> m[d].parent == n[d].parent,
        forall|d: Text| #[trigger]
            n.dom().contains(d) ==> (n[d].parent matches Some(e) ==> n.dom().contains(e)),
    ensures
        all_rooted(n),
{
    let f = |d: Text| depth(m, d);
    assert forall|d: Text| #[trigger] n.dom().contains(d) implies (n[d].parent matches Some(e)
        ==> n.dom().contains(e) && f(e) < f(d)) by {
        assert(m.dom().contains(d));
        if let Some(e) = m[d].parent {
            lemma_rooted_parent(m, d, e);
        }
    }
    lemma_descends_rooted(n, f);
}

/// Hanging a unit beneath one that is not beneath it keeps the tree a tree.
pub proof fn lemma_unit_hung(m: Map<Text, UnitModel>, n: Map<Text, UnitModel>, x: Text, parent: Text)
    requires
        all_rooted(m),
        m.dom().contains(x),
        m.dom().contains(parent),
        !beneath(m, parent, x),
        n.dom() == m.dom(),
        n[x].parent == Some(parent),
        forall|d: Text| #[trigger] m.dom().contains(d) && d != x ==> m[d].parent == n[d].parent,
    ensures
        all_rooted(n),
{
    let f = |d: Text|
        if beneath(m, d, x) {
            depth(m, d) + depth(m, parent) + 1
        } else {
            depth(m, d)
        };
    assert forall|d: Text| #[trigger] n.dom().contains(d) implies (n[d].parent matches Some(e)
        ==> n.dom().contains(e) && f(e) < f(d)) by {
        lemma_beneath_step(m, d, x);
        if d != x {
            if let Some(e) = m[d].parent {
                lemma_rooted_parent(m, d, e);
            }
        }
    }
    lemma_descends_rooted(n, f);
}

} // verus!
