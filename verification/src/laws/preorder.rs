//! The order of units is that of a walk down the tree, and people follow their
//! units.

use vstd::prelude::*;

use crate::company::CompanyModel;
use crate::laws::chart::{charted, lemma_org, person_sound};
use crate::laws::chart_kept::{law_chart_stays_sound, lemma_freed, lemma_units_ordered};
use crate::laws::decision::Decision;
use crate::laws::frames::{
    lemma_delete_departments, lemma_left_behind_all, lemma_move_all, lemma_number_departments,
    lemma_number_people, lemma_rehome, lemma_seeded_all, seeds,
};
use crate::laws::history::law_nothing_is_lost;
use crate::laws::places::{
    countable, lemma_department_order, lemma_people_order, lemma_person_place, lemma_still,
    lemma_unit_place, lemma_vacated, numbered, reorders, units_apart, units_in_place,
    units_numbered,
};
use crate::laws::tree::{
    all_rooted, depth, lemma_beneath_step, lemma_leaf_added, lemma_rooted_parent,
    lemma_same_parents,
};
use crate::order::{key_lt, lemma_key_irreflexive, Key};
use crate::org_ops::create::hire_line;
use crate::org_ops::decisions::{HeadDecisionModel, HeadVacancyModel};
use crate::org_ops::guards::ledger_line;
use crate::org_projection::{create_refusal, CreateModel};
use crate::org_view::{above, beneath, climbs, lemma_way_up, rooted, way_up, Climb};
use crate::table::lemma_finite_listing;
use crate::text::Text;

verus! {

/// Whether every unit comes after its parent.
pub open spec fn parents_first(c: CompanyModel) -> bool {
    forall|d: Text| #[trigger]
        c.departments.dom().contains(d) ==> (c.departments[d].parent_id matches Some(e)
            ==> c.departments.dom().contains(e) && c.departments[e].ordinal
            < c.departments[d].ordinal)
}

/// Whether what hangs beneath a unit comes right after it, with nothing else in
/// between.
pub open spec fn subtrees_together(c: CompanyModel) -> bool {
    forall|d: Text, x: Text, y: Text|
        c.departments.dom().contains(d) && c.departments.dom().contains(x)
            && c.departments.dom().contains(y) && #[trigger] beneath(c.org().departments, x, d)
            && c.departments[d].ordinal <= c.departments[y].ordinal <= c.departments[x].ordinal
            ==> #[trigger] beneath(c.org().departments, y, d)
}

/// Whether units come in the order of a walk down the tree.
pub open spec fn in_preorder(c: CompanyModel) -> bool {
    parents_first(c) && subtrees_together(c)
}

/// Whether `b` begins with the key `a`.
spec fn opens(a: Key, b: Key) -> bool {
    a.len() <= b.len() && b.take(a.len() as int) == a
}

/// A key comes before any longer key that begins with it.
proof fn lemma_opening_first(a: Key, b: Key)
    requires
        opens(a, b),
        a.len() < b.len(),
    ensures
        key_lt(a, b),
    decreases a.len(),
{
    if a.len() > 0 {
        assert(b.take(a.len() as int)[0] == b[0]);
        assert(b.drop_first().take(a.drop_first().len() as int) =~= b.take(
            a.len() as int,
        ).drop_first());
        lemma_opening_first(a.drop_first(), b.drop_first());
    }
}

/// What comes between a key and one that begins with it begins with it too.
proof fn lemma_between(a: Key, m: Key, b: Key)
    requires
        opens(a, b),
        !key_lt(m, a),
        !key_lt(b, m),
    ensures
        opens(a, m),
    decreases a.len(),
{
    if a.len() > 0 {
        assert(b.take(a.len() as int)[0] == b[0]);
        assert(b.drop_first().take(a.drop_first().len() as int) =~= b.take(
            a.len() as int,
        ).drop_first());
        assert(m.len() > 0);
        assert(m[0] == a[0]);
        lemma_between(a.drop_first(), m.drop_first(), b.drop_first());
        assert(m.take(a.len() as int) =~= a) by {
            let t = m.drop_first().take(a.drop_first().len() as int);
            assert forall|i: int| 0 <= i < a.len() implies m.take(a.len() as int)[i] == a[i] by {
                if i > 0 {
                    assert(t[i - 1] == m[i]);
                    assert(a.drop_first()[i - 1] == a[i]);
                }
            }
        }
    } else {
        assert(m.take(0) =~= a);
    }
}

/// A unit's key is its parent's with one more number.
proof fn lemma_key_parent(c: CompanyModel, d: Text, e: Text)
    requires
        all_rooted(c.org().departments),
        c.departments.dom().contains(d),
        c.departments[d].parent_id == Some(e),
    ensures
        c.departments.dom().contains(e),
        c.department_key(d) == c.department_key(e).push(c.departments[d].ordinal),
        c.department_key(d).len() > c.department_key(e).len(),
        depth(c.org().departments, e) < depth(c.org().departments, d),
{
    lemma_org(c);
    let m = c.org().departments;
    assert(rooted(m, d));
    lemma_rooted_parent(m, d, e);
    let q = way_up(m, d);
    let t = way_up(m, e);
    assert(q == seq![d] + t);
    assert forall|i: int| 0 <= i < c.department_key(d).len() implies #[trigger] c.department_key(
        d,
    )[i] == c.department_key(e).push(c.departments[d].ordinal)[i] by {
        if 0 < i < q.len() {
            assert(q[q.len() - i] == t[t.len() - i]);
        } else if i == q.len() {
            assert(q[0] == d);
        }
    }
    assert(c.department_key(d) =~= c.department_key(e).push(c.departments[d].ordinal));
}

/// The key of a unit without a parent.
proof fn lemma_key_root(c: CompanyModel, d: Text)
    requires
        all_rooted(c.org().departments),
        c.departments.dom().contains(d),
        c.departments[d].parent_id is None,
    ensures
        c.department_key(d) == seq![0u64, c.departments[d].ordinal],
{
    lemma_org(c);
    let m = c.org().departments;
    assert(rooted(m, d));
    let q = seq![d];
    assert(above(m, d, 0) == Some(d));
    assert(above(m, d, 1) == m[d].parent);
    assert(climbs(m, d, q, Climb::Rooted));
    lemma_way_up(m, d, q, Climb::Rooted);
    assert(c.department_key(d) =~= seq![0u64, c.departments[d].ordinal]);
}

/// Keys have a number for the unit and for each above it.
proof fn lemma_key_len(c: CompanyModel, d: Text)
    requires
        all_rooted(c.org().departments),
        c.departments.dom().contains(d),
    ensures
        c.department_key(d).len() >= 2,
        c.department_key(d).last() == c.departments[d].ordinal,
{
    match c.departments[d].parent_id {
        None => {
            lemma_key_root(c, d);
        },
        Some(e) => {
            lemma_key_parent(c, d, e);
            assert(c.department_key(e).len() >= 1) by {
                lemma_org(c);
                assert(rooted(c.org().departments, e));
            }
        },
    }
}

/// The key of a unit begins with that of every unit above it.
proof fn lemma_key_beneath(c: CompanyModel, x: Text, d: Text)
    requires
        all_rooted(c.org().departments),
        c.departments.dom().contains(x),
        beneath(c.org().departments, x, d),
    ensures
        opens(c.department_key(d), c.department_key(x)),
    decreases depth(c.org().departments, x),
{
    lemma_org(c);
    let m = c.org().departments;
    if x == d {
        assert(c.department_key(x).take(c.department_key(d).len() as int) =~= c.department_key(d));
    } else {
        lemma_beneath_step(m, x, d);
        let e = c.departments[x].parent_id->0;
        lemma_key_parent(c, x, e);
        lemma_key_beneath(c, e, d);
        let k = c.department_key(d);
        assert(c.department_key(x).take(k.len() as int) =~= c.department_key(e).take(
            k.len() as int,
        ));
    }
}

/// Where no two units have one number, only what is beneath a unit has a key
/// that begins with its key.
proof fn lemma_key_opens(c: CompanyModel, y: Text, d: Text)
    requires
        all_rooted(c.org().departments),
        units_apart(c.departments),
        c.departments.dom().contains(y),
        c.departments.dom().contains(d),
        opens(c.department_key(d), c.department_key(y)),
    ensures
        beneath(c.org().departments, y, d),
    decreases depth(c.org().departments, y),
{
    lemma_org(c);
    let m = c.org().departments;
    lemma_beneath_step(m, y, d);
    lemma_key_len(c, d);
    lemma_key_len(c, y);
    let k = c.department_key(d);
    let l = c.department_key(y);
    if k.len() == l.len() {
        assert(l.take(k.len() as int) =~= l);
        assert(c.departments[y].ordinal == c.departments[d].ordinal);
        assert(y == d);
    } else {
        match c.departments[y].parent_id {
            None => {
                lemma_key_root(c, y);
            },
            Some(e) => {
                lemma_key_parent(c, y, e);
                assert(c.department_key(e).take(k.len() as int) =~= l.take(k.len() as int));
                lemma_key_opens(c, e, d);
            },
        }
    }
}

/// Refreshing the order of a tree's units walks down the tree.
pub proof fn lemma_walk(c: CompanyModel, at: Text)
    requires
        c.finite(),
        c.departments.dom().len() <= u64::MAX,
        all_rooted(c.org().departments),
        units_apart(c.departments),
    ensures
        in_preorder(c.refresh_department_order(at)),
{
    let r = c.refresh_department_order(at);
    lemma_org(c);
    lemma_units_ordered(c, at);
    lemma_department_order(c);
    let q = c.department_order();
    assert forall|d: Text| #[trigger] r.departments.dom().contains(d) implies (
    r.departments[d].parent_id matches Some(e) ==> r.departments.dom().contains(e)
        && r.departments[e].ordinal < r.departments[d].ordinal) by {
        assert(c.departments.dom().contains(d));
        if let Some(e) = c.departments[d].parent_id {
            lemma_key_parent(c, d, e);
            let i = lemma_unit_place(c, at, d);
            let j = lemma_unit_place(c, at, e);
            assert(c.department_key(d).take(c.department_key(e).len() as int)
                =~= c.department_key(e));
            lemma_opening_first(c.department_key(e), c.department_key(d));
            if i < j {
                assert(!key_lt(c.department_key(q[j]), c.department_key(q[i])));
            }
        }
    }
    assert forall|d: Text, x: Text, y: Text|
        r.departments.dom().contains(d) && r.departments.dom().contains(x)
            && r.departments.dom().contains(y) && #[trigger] beneath(r.org().departments, x, d)
            && r.departments[d].ordinal <= r.departments[y].ordinal
            <= r.departments[x].ordinal implies #[trigger] beneath(
        r.org().departments,
        y,
        d,
    ) by {
        let i = lemma_unit_place(c, at, d);
        let j = lemma_unit_place(c, at, y);
        let k = lemma_unit_place(c, at, x);
        lemma_key_beneath(c, x, d);
        lemma_key_irreflexive(c.department_key(d));
        lemma_key_irreflexive(c.department_key(x));
        if i < j {
            assert(!key_lt(c.department_key(q[j]), c.department_key(q[i])));
        }
        if j < k {
            assert(!key_lt(c.department_key(q[k]), c.department_key(q[j])));
        }
        lemma_between(c.department_key(d), c.department_key(y), c.department_key(x));
        lemma_key_opens(c, y, d);
    }
}

/// Units that keep their numbers and parents keep their order.
proof fn lemma_walk_kept(a: CompanyModel, b: CompanyModel)
    requires
        in_preorder(a),
        units_in_place(a, b),
    ensures
        in_preorder(b),
{
    lemma_org(a);
    lemma_org(b);
    lemma_same_parents(a.org().departments, b.org().departments);
    assert forall|d: Text| #[trigger] b.departments.dom().contains(d) implies (
    b.departments[d].parent_id matches Some(e) ==> b.departments.dom().contains(e)
        && b.departments[e].ordinal < b.departments[d].ordinal) by {
        assert(a.departments.dom().contains(d));
        if let Some(e) = a.departments[d].parent_id {
            assert(a.departments.dom().contains(e));
        }
    }
    assert forall|d: Text, x: Text, y: Text|
        b.departments.dom().contains(d) && b.departments.dom().contains(x)
            && b.departments.dom().contains(y) && #[trigger] beneath(b.org().departments, x, d)
            && b.departments[d].ordinal <= b.departments[y].ordinal
            <= b.departments[x].ordinal implies #[trigger] beneath(
        b.org().departments,
        y,
        d,
    ) by {
        assert(a.departments.dom().contains(d) && a.departments.dom().contains(x)
            && a.departments.dom().contains(y));
        assert(beneath(a.org().departments, x, d));
        assert(beneath(a.org().departments, y, d));
    }
}

/// Units that come from refreshing the order of a tree's units walk down it.
proof fn lemma_walk_by(s: CompanyModel, r: CompanyModel, at: Text)
    requires
        s.finite(),
        s.departments.dom().len() <= u64::MAX,
        units_apart(s.departments),
        r.departments == s.refresh_department_order(at).departments,
        all_rooted(r.org().departments),
    ensures
        in_preorder(r),
{
    let t = s.refresh_department_order(at);
    lemma_units_ordered(s, at);
    assert(r.org().departments =~= t.org().departments);
    lemma_walk(s, at);
    lemma_walk_kept(t, r);
}

proof fn lemma_transferred_walk(
    c: CompanyModel,
    root: Text,
    person: Text,
    destination: Text,
    intent: Text,
    at: Text,
    actor: Text,
    vacates: Option<HeadVacancyModel>,
)
    requires
        c.finite(),
        charted(c.transferred(person, destination, intent, at, actor, vacates), root),
        c.departments.dom().len() <= u64::MAX,
        units_numbered(c.departments),
        in_preorder(c),
    ensures
        in_preorder(c.transferred(person, destination, intent, at, actor, vacates)),
{
    let r = c.transferred(person, destination, intent, at, actor, vacates);
    let reason = ledger_line("transferred"@, actor);
    let there = c.move_all(seq![person], destination, intent, reason, true, at);
    lemma_move_all(c, seq![person], destination, intent, reason, true, at);
    lemma_number_people(there, there.people_order(), at);
    let moved = there.refresh_people_order(at);
    assert(moved.departments == c.departments);
    match vacates {
        None => {
            lemma_walk_kept(c, r);
        },
        Some(decision) => {
            let freed = moved.vacated(person, decision, reason, at);
            assert(r.departments == freed.departments);
            match (moved.headed_by(person), decision) {
                (Some(unit), HeadVacancyModel::Dissolve) => {
                    let left = match moved.departments[unit].parent_id {
                        Some(parent) => {
                            lemma_rehome(
                                moved,
                                moved.people_in(seq![unit]),
                                person,
                                unit,
                                parent,
                                reason,
                                at,
                            );
                            moved.rehome(
                                moved.people_in(seq![unit]),
                                person,
                                unit,
                                parent,
                                reason,
                                at,
                            )
                        },
                        None => moved,
                    };
                    let cut = left.delete_department(unit);
                    assert(cut.departments.dom() =~= c.departments.dom().remove(unit));
                    law_nothing_is_lost(
                        c,
                        Decision::Transfer { person, destination, intent, vacates },
                        at,
                        actor,
                    );
                    lemma_number_departments(cut, cut.department_order(), at);
                    assert(r.people.dom() =~= cut.people.dom());
                    assert(cut.finite());
                    assert(units_apart(cut.departments));
                    lemma_walk_by(cut, r, at);
                },
                (Some(unit), HeadVacancyModel::HandOver { successor_person_id }) => {
                    if c.departments.dom().contains(unit) {
                        assert(r.departments.dom() =~= c.departments.dom());
                    }
                    lemma_walk_kept(c, r);
                },
                _ => {
                    lemma_walk_kept(c, r);
                },
            }
        },
    }
}

proof fn lemma_created_walk(c: CompanyModel, root: Text, p: CreateModel, actor: Text)
    requires
        c.finite(),
        charted(c, root),
        units_numbered(c.departments),
        create_refusal(c.org(), p) is None,
        !c.create_breaks(p),
        countable(c),
        countable(c.department_created(p, actor)),
    ensures
        in_preorder(c.department_created(p, actor)),
{
    let r = c.department_created(p, actor);
    let head = p.head.person_id();
    lemma_freed(c, root, p);
    let freed = c.head_freed(p);
    let there = match p.vacates {
        Some(HeadVacancyModel::Dissolve) => c.move_person(head, p.parent_id, p.at),
        _ => c,
    };
    if let Some(decision) = p.vacates {
        lemma_vacated(there, head, decision, p.audit_reason, p.at);
    }
    assert(units_numbered(freed.departments));
    let unit = freed.insert_department(
        p.department_id,
        p.parent_id,
        p.name,
        p.purpose,
        p.unit,
        head,
        p.at,
    );
    lemma_finite_listing(freed.departments.dom());
    let headed = match p.head {
        HeadDecisionModel::AppointExisting { person_id } => unit.head_appointed(
            person_id,
            if c.people.dom().contains(person_id) {
                Some(c.people[person_id].department_id)
            } else {
                None
            },
            p,
        ),
        HeadDecisionModel::HireNew { person_id, seed } => unit.seeded(
            person_id,
            p.department_id,
            seed,
            p.audit_reason,
            p.at,
        ),
    };
    assert(headed.departments == unit.departments);
    let staffed = headed.seeded_all(p.staff, p.department_id, p.audit_reason, p.at);
    lemma_seeded_all(headed, p.staff, p.department_id, p.audit_reason, p.at);
    let ordered = staffed.refresh_department_order(p.at);
    lemma_number_departments(staffed, staffed.department_order(), p.at);
    lemma_number_people(ordered, ordered.people_order(), p.at);
    assert(r.departments == ordered.departments);
    law_nothing_is_lost(c, Decision::Create { proposal: p }, p.at, actor);
    assert(staffed.finite());
    assert(unit.departments.dom() =~= freed.departments.dom().insert(p.department_id));
    assert(unit.departments[p.department_id].ordinal == freed.departments.dom().len());
    assert(units_apart(staffed.departments));
    lemma_org(freed);
    lemma_org(staffed);
    lemma_leaf_added(
        freed.org().departments,
        staffed.org().departments,
        p.department_id,
        p.parent_id,
    );
    assert(r.org().departments =~= ordered.org().departments);
    lemma_walk_by(staffed, r, p.at);
}

proof fn lemma_reparented_walk(
    c: CompanyModel,
    root: Text,
    department: Text,
    parent: Text,
    at: Text,
    actor: Text,
)
    requires
        c.finite(),
        c.departments.dom().len() <= u64::MAX,
        units_numbered(c.departments),
        c.departments.dom().contains(department),
        charted(c.reparented(department, parent, at, actor), root),
    ensures
        in_preorder(c.reparented(department, parent, at, actor)),
{
    let r = c.reparented(department, parent, at, actor);
    let hung = c.set_parent(department, parent, at);
    assert(hung.departments.dom() =~= c.departments.dom());
    lemma_finite_listing(c.departments.dom());
    assert(hung.departments[department].ordinal == c.departments.dom().len());
    assert(units_apart(hung.departments));
    let ordered = hung.refresh_department_order(at);
    lemma_number_people(ordered, ordered.people_order(), at);
    lemma_walk_by(hung, r, at);
}

proof fn lemma_removed_walk(c: CompanyModel, root: Text, department: Text, at: Text, actor: Text)
    requires
        c.finite(),
        c.departments.dom().len() <= u64::MAX,
        units_numbered(c.departments),
        charted(c.department_removed(department, at, actor), root),
    ensures
        in_preorder(c.department_removed(department, at, actor)),
{
    let units = c.subtree_descending(department);
    let people = c.people_in(units);
    let rests = c.departments[department].parent_id->0;
    let reason = "department "@ + department + " removed"@;
    let left = c.left_behind_all(people, rests, reason, at);
    lemma_left_behind_all(c, people, rests, reason, at);
    let cut = left.delete_departments(units);
    lemma_delete_departments(left, units);
    lemma_number_departments(cut, cut.department_order(), at);
    let ordered = cut.refresh_department_order(at);
    lemma_number_people(ordered, ordered.people_order(), at);
    law_nothing_is_lost(c, Decision::RemoveTree { department }, at, actor);
    assert(cut.finite());
    assert(cut.departments.dom().subset_of(c.departments.dom()));
    vstd::set_lib::lemma_len_subset(cut.departments.dom(), c.departments.dom());
    assert(units_apart(cut.departments));
    lemma_walk_by(cut, c.department_removed(department, at, actor), at);
}

/// Every decision keeps the units in the order of a walk down the tree: each
/// after its parent, and what hangs beneath a unit right after it.
pub proof fn law_units_stay_in_preorder(
    c: CompanyModel,
    root: Text,
    d: Decision,
    at: Text,
    actor: Text,
)
    requires
        c.finite(),
        charted(c, root),
        numbered(c),
        in_preorder(c),
        c.allows(d, actor),
        countable(c),
        countable(c.decided(d, at, actor)),
    ensures
        in_preorder(c.decided(d, at, actor)),
{
    match d {
        Decision::Create { proposal } => {
            lemma_created_walk(c, root, proposal, actor);
        },
        Decision::Hire { newcomer } => {
            let line = hire_line(newcomer.person_id, newcomer.department_id);
            let there = c.seeded(
                newcomer.person_id,
                newcomer.department_id,
                newcomer.seed,
                line,
                newcomer.at,
            );
            lemma_number_people(there, there.people_order(), newcomer.at);
            lemma_walk_kept(c, c.hired(newcomer, actor));
        },
        Decision::Reparent { department, parent } => {
            law_chart_stays_sound(c, root, d, at, actor);
            lemma_reparented_walk(c, root, department, parent, at, actor);
        },
        Decision::Transfer { person, destination, intent, vacates } => {
            law_chart_stays_sound(c, root, d, at, actor);
            lemma_transferred_walk(c, root, person, destination, intent, at, actor, vacates);
        },
        Decision::MoveMembers { from, destination, named, intent } => {
            let people = c.batch(from, named);
            lemma_move_all(c, people, destination, intent, intent, false, at);
            let there = c.move_all(people, destination, intent, intent, false, at);
            lemma_number_people(there, there.people_order(), at);
            lemma_walk_kept(c, c.members_moved(people, destination, intent, at, actor));
        },
        Decision::RemoveTree { department } => {
            law_chart_stays_sound(c, root, d, at, actor);
            lemma_removed_walk(c, root, department, at, actor);
        },
        _ => {
            lemma_still(c, d, at, actor);
            lemma_walk_kept(c, c.decided(d, at, actor));
        },
    }
}

/// Whether people come in the order of their units, the head of each first.
pub open spec fn grouped(c: CompanyModel) -> bool {
    forall|p: Text, q: Text|
        #![trigger c.people.dom().contains(p), c.people.dom().contains(q)]
        c.people.dom().contains(p) && c.people.dom().contains(q) && ahead(c, p, q)
            ==> c.people[p].ordinal < c.people[q].ordinal
}

/// Whether somebody's unit comes before another's, or they head the unit that
/// both are in.
pub open spec fn ahead(c: CompanyModel, p: Text, q: Text) -> bool {
    let a = c.departments[c.people[p].department_id];
    let b = c.departments[c.people[q].department_id];
    a.ordinal < b.ordinal || c.people[p].department_id == c.people[q].department_id && p != q
        && a.head_person_id == p
}

/// Whether everybody is in a unit that is there.
pub open spec fn housed(c: CompanyModel) -> bool {
    forall|p: Text| #[trigger]
        c.people.dom().contains(p) ==> c.departments.dom().contains(c.people[p].department_id)
}

/// Refreshing the order of people groups them by unit, in the order of the
/// units, with the head of each first. Among the others of a unit, who came
/// first before comes first.
pub proof fn law_people_follow_their_units(c: CompanyModel, at: Text)
    requires
        c.finite(),
        housed(c),
        c.people.dom().len() <= u64::MAX,
    ensures
        grouped(c.refresh_people_order(at)),
        forall|p: Text, q: Text|
            #![trigger c.people.dom().contains(p), c.people.dom().contains(q)]
            c.people.dom().contains(p) && c.people.dom().contains(q) && c.people[p].department_id
                == c.people[q].department_id && c.people[p].ordinal < c.people[q].ordinal
                && c.departments[c.people[q].department_id].head_person_id != q
                ==> c.refresh_people_order(at).people[p].ordinal < c.refresh_people_order(
                at,
            ).people[q].ordinal,
{
    let r = c.refresh_people_order(at);
    lemma_people_order(c);
    lemma_number_people(c, c.people_order(), at);
    assert forall|p: Text, q: Text|
        #![trigger r.people.dom().contains(p), r.people.dom().contains(q)]
        r.people.dom().contains(p) && r.people.dom().contains(q) && ahead(
            r,
            p,
            q,
        ) implies r.people[p].ordinal < r.people[q].ordinal by {
        assert(c.people.dom().contains(p) && c.people.dom().contains(q));
        lemma_key_ahead(c, p, q);
        lemma_comes_first(c, at, p, q);
    }
    assert forall|p: Text, q: Text|
        #![trigger c.people.dom().contains(p), c.people.dom().contains(q)]
        c.people.dom().contains(p) && c.people.dom().contains(q) && c.people[p].department_id
            == c.people[q].department_id && c.people[p].ordinal < c.people[q].ordinal
            && c.departments[c.people[q].department_id].head_person_id
            != q implies r.people[p].ordinal < r.people[q].ordinal by {
        lemma_key_ahead(c, p, q);
        lemma_comes_first(c, at, p, q);
    }
}

/// Who has the smaller key has the smaller number.
proof fn lemma_comes_first(c: CompanyModel, at: Text, p: Text, q: Text)
    requires
        c.finite(),
        c.people.dom().len() <= u64::MAX,
        c.people.dom().contains(p),
        c.people.dom().contains(q),
        key_lt(c.person_key(p), c.person_key(q)),
    ensures
        c.refresh_people_order(at).people[p].ordinal < c.refresh_people_order(at).people[q].ordinal,
{
    lemma_people_order(c);
    let s = c.people_order();
    let i = lemma_person_place(c, at, p);
    let j = lemma_person_place(c, at, q);
    lemma_key_irreflexive(c.person_key(p));
    if j < i {
        assert(!key_lt(c.person_key(s[i]), c.person_key(s[j])));
    }
}

proof fn lemma_key_ahead(c: CompanyModel, p: Text, q: Text)
    requires
        housed(c),
        c.people.dom().contains(p),
        c.people.dom().contains(q),
        ahead(c, p, q) || c.people[p].department_id == c.people[q].department_id
            && c.people[p].ordinal < c.people[q].ordinal
            && c.departments[c.people[q].department_id].head_person_id != q,
    ensures
        key_lt(c.person_key(p), c.person_key(q)),
{
    let a = c.person_key(p);
    let b = c.person_key(q);
    assert(a.len() == 4 && b.len() == 4);
    let a1 = a.drop_first();
    let b1 = b.drop_first();
    let a2 = a1.drop_first();
    let b2 = b1.drop_first();
    let a3 = a2.drop_first();
    let b3 = b2.drop_first();
    assert(a1[0] == a[1] && b1[0] == b[1]);
    assert(a2[0] == a[2] && b2[0] == b[2]);
    assert(a3[0] == a[3] && b3[0] == b[3]);
    reveal_with_fuel(key_lt, 5);
}

/// A sound chart houses everybody.
proof fn lemma_housed(c: CompanyModel, root: Text)
    requires
        charted(c, root),
    ensures
        housed(c),
{
    assert forall|p: Text| #[trigger] c.people.dom().contains(p) implies c.departments.dom().contains(
        c.people[p].department_id,
    ) by {
        assert(person_sound(c, p));
    }
}

/// People who come from refreshing the order of people are grouped.
proof fn lemma_grouped_by(s: CompanyModel, r: CompanyModel, at: Text)
    requires
        s.finite(),
        s.people.dom().len() <= u64::MAX,
        r.people == s.refresh_people_order(at).people,
        r.departments == s.departments,
        housed(r),
    ensures
        grouped(r),
{
    let t = s.refresh_people_order(at);
    lemma_number_people(s, s.people_order(), at);
    assert forall|p: Text| #[trigger] s.people.dom().contains(p) implies s.departments.dom().contains(
        s.people[p].department_id,
    ) by {
        assert(r.people.dom().contains(p));
    }
    law_people_follow_their_units(s, at);
    assert forall|p: Text, q: Text|
        #![trigger r.people.dom().contains(p), r.people.dom().contains(q)]
        r.people.dom().contains(p) && r.people.dom().contains(q) && ahead(
            r,
            p,
            q,
        ) implies r.people[p].ordinal < r.people[q].ordinal by {
        assert(t.people.dom().contains(p) && t.people.dom().contains(q));
        assert(ahead(t, p, q));
    }
}

proof fn lemma_created_grouped(c: CompanyModel, root: Text, p: CreateModel, actor: Text)
    requires
        c.finite(),
        charted(c, root),
        create_refusal(c.org(), p) is None,
        !c.create_breaks(p),
        countable(c.department_created(p, actor)),
    ensures
        grouped(c.department_created(p, actor)),
{
    let r = c.department_created(p, actor);
    let head = p.head.person_id();
    lemma_freed(c, root, p);
    let freed = c.head_freed(p);
    let unit = freed.insert_department(
        p.department_id,
        p.parent_id,
        p.name,
        p.purpose,
        p.unit,
        head,
        p.at,
    );
    let headed = match p.head {
        HeadDecisionModel::AppointExisting { person_id } => unit.head_appointed(
            person_id,
            if c.people.dom().contains(person_id) {
                Some(c.people[person_id].department_id)
            } else {
                None
            },
            p,
        ),
        HeadDecisionModel::HireNew { person_id, seed } => unit.seeded(
            person_id,
            p.department_id,
            seed,
            p.audit_reason,
            p.at,
        ),
    };
    assert(headed.departments == unit.departments);
    assert(headed.people.dom() =~= freed.people.dom().insert(head));
    assert forall|x: Text| #[trigger] headed.people.dom().contains(x) implies
        headed.departments.dom().contains(headed.people[x].department_id) by {
        if x != head {
            assert(freed.people.dom().contains(x));
            assert(person_sound(freed, x));
        }
    }
    let staffed = headed.seeded_all(p.staff, p.department_id, p.audit_reason, p.at);
    lemma_seeded_all(headed, p.staff, p.department_id, p.audit_reason, p.at);
    let ordered = staffed.refresh_department_order(p.at);
    lemma_number_departments(staffed, staffed.department_order(), p.at);
    lemma_number_people(ordered, ordered.people_order(), p.at);
    law_nothing_is_lost(c, Decision::Create { proposal: p }, p.at, actor);
    assert(ordered.finite());
    assert forall|x: Text| #[trigger] r.people.dom().contains(x) implies r.departments.dom().contains(
        r.people[x].department_id,
    ) by {
        assert(ordered.people.dom().contains(x));
        assert(staffed.people.dom().contains(x));
        if seeds(p.staff, x) {
            assert(staffed.people[x].department_id == p.department_id);
        } else {
            assert(headed.people.dom().contains(x));
            assert(staffed.people[x] == headed.people[x]);
        }
    }
    lemma_grouped_by(ordered, r, p.at);
}

/// A decision that puts the people in order leaves them grouped by unit, in the
/// order of the units, with the head of each first. A transfer of a head who
/// leaves a unit to be handed over or dissolved is the exception: what becomes
/// of it is settled after the people are put in order.
pub proof fn law_people_are_grouped(
    c: CompanyModel,
    root: Text,
    d: Decision,
    at: Text,
    actor: Text,
)
    requires
        c.finite(),
        charted(c, root),
        c.allows(d, actor),
        reorders(d),
        d matches Decision::Transfer { vacates, .. } ==> vacates is None,
        countable(c.decided(d, at, actor)),
    ensures
        grouped(c.decided(d, at, actor)),
{
    let r = c.decided(d, at, actor);
    law_nothing_is_lost(c, d, at, actor);
    match d {
        Decision::Create { proposal } => {
            lemma_created_grouped(c, root, proposal, actor);
        },
        Decision::Hire { newcomer } => {
            law_chart_stays_sound(c, root, d, at, actor);
            lemma_housed(r, root);
            let line = hire_line(newcomer.person_id, newcomer.department_id);
            let there = c.seeded(
                newcomer.person_id,
                newcomer.department_id,
                newcomer.seed,
                line,
                newcomer.at,
            );
            lemma_number_people(there, there.people_order(), newcomer.at);
            assert(there.finite());
            lemma_grouped_by(there, r, newcomer.at);
        },
        Decision::Reparent { department, parent } => {
            law_chart_stays_sound(c, root, d, at, actor);
            lemma_housed(r, root);
            let ordered = c.set_parent(department, parent, at).refresh_department_order(at);
            lemma_number_people(ordered, ordered.people_order(), at);
            assert(ordered.finite());
            lemma_grouped_by(ordered, r, at);
        },
        Decision::Transfer { person, destination, intent, vacates } => {
            law_chart_stays_sound(c, root, d, at, actor);
            lemma_housed(r, root);
            let reason = ledger_line("transferred"@, actor);
            let there = c.move_all(seq![person], destination, intent, reason, true, at);
            lemma_move_all(c, seq![person], destination, intent, reason, true, at);
            lemma_number_people(there, there.people_order(), at);
            let plain = c.transferred(person, destination, intent, at, actor, None);
            law_nothing_is_lost(
                c,
                Decision::Transfer { person, destination, intent, vacates: None },
                at,
                actor,
            );
            assert(there.finite()) by {
                assert(plain.finite());
            }
            let moved = there.refresh_people_order(at);
            assert(moved.org().departments =~= c.org().departments);
            assert(moved.headed_by(person) == c.headed_by(person));
            assert(r.people.dom() =~= plain.people.dom());
            assert(housed(plain)) by {
                assert forall|p: Text| #[trigger] plain.people.dom().contains(p) implies
                    plain.departments.dom().contains(plain.people[p].department_id) by {
                    assert(r.people.dom().contains(p));
                }
            }
            lemma_grouped_by(there, plain, at);
            assert forall|p: Text, q: Text|
                #![trigger r.people.dom().contains(p), r.people.dom().contains(q)]
                r.people.dom().contains(p) && r.people.dom().contains(q) && ahead(
                    r,
                    p,
                    q,
                ) implies r.people[p].ordinal < r.people[q].ordinal by {
                assert(plain.people.dom().contains(p) && plain.people.dom().contains(q));
                assert(ahead(plain, p, q));
            }
        },
        Decision::MoveMembers { from, destination, named, intent } => {
            law_chart_stays_sound(c, root, d, at, actor);
            lemma_housed(r, root);
            let people = c.batch(from, named);
            let there = c.move_all(people, destination, intent, intent, false, at);
            lemma_number_people(there, there.people_order(), at);
            assert(there.finite());
            lemma_grouped_by(there, r, at);
        },
        Decision::RemoveTree { department } => {
            law_chart_stays_sound(c, root, d, at, actor);
            lemma_housed(r, root);
            let units = c.subtree_descending(department);
            let people = c.people_in(units);
            let rests = c.departments[department].parent_id->0;
            let reason = "department "@ + department + " removed"@;
            let cut = c.left_behind_all(people, rests, reason, at).delete_departments(units);
            let ordered = cut.refresh_department_order(at);
            lemma_number_people(ordered, ordered.people_order(), at);
            assert(ordered.finite());
            lemma_grouped_by(ordered, r, at);
        },
        _ => {},
    }
}

} // verus!
