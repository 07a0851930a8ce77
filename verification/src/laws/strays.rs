//! Where units and people come that have lost their place in the tree.

use vstd::prelude::*;

use crate::company::CompanyModel;
use crate::order::{key_lt, lemma_sorted};
use crate::org_view::rooted;
use crate::table::listing;
use crate::text::Text;

verus! {

/// Units from which there is no way up to a root come after all the others, by
/// their places.
pub proof fn law_stray_units_come_last(c: CompanyModel, i: int, j: int)
    requires
        0 <= i < j < c.department_order().len(),
        !rooted(c.org().departments, c.department_order()[i]),
    ensures
        !rooted(c.org().departments, c.department_order()[j]),
        c.departments[c.department_order()[i]].ordinal
            <= c.departments[c.department_order()[j]].ordinal,
{
    let key = |d: Text| c.department_key(d);
    let q = c.department_order();
    lemma_sorted(listing(c.departments.dom()), key);
    assert(!key_lt(key(q[j]), key(q[i])));
    let a = c.department_key(q[i]);
    let b = c.department_key(q[j]);
    assert(a[0] == 1);
    reveal_with_fuel(key_lt, 3);
    if rooted(c.org().departments, q[j]) {
        assert(b.len() > 0 && b[0] == 0);
    } else {
        assert(b[0] == 1 && a[1] == c.departments[q[i]].ordinal && b[1]
            == c.departments[q[j]].ordinal);
        assert(a.drop_first()[0] == a[1] && b.drop_first()[0] == b[1]);
    }
}

/// People whose unit is not there come after all the others, by their places.
pub proof fn law_stray_people_come_last(c: CompanyModel, i: int, j: int)
    requires
        0 <= i < j < c.people_order().len(),
        !c.departments.dom().contains(c.people[c.people_order()[i]].department_id),
    ensures
        !c.departments.dom().contains(c.people[c.people_order()[j]].department_id),
        c.people[c.people_order()[i]].ordinal <= c.people[c.people_order()[j]].ordinal,
{
    let key = |p: Text| c.person_key(p);
    let q = c.people_order();
    lemma_sorted(listing(c.people.dom()), key);
    assert(!key_lt(key(q[j]), key(q[i])));
    let a = c.person_key(q[i]);
    let b = c.person_key(q[j]);
    reveal_with_fuel(key_lt, 5);
    if c.departments.dom().contains(c.people[q[j]].department_id) {
        assert(a[0] == 1 && b[0] == 0);
    } else {
        assert(a =~= seq![1u64, 0u64, 0u64, c.people[q[i]].ordinal]);
        assert(b =~= seq![1u64, 0u64, 0u64, c.people[q[j]].ordinal]);
        let a1 = a.drop_first();
        let b1 = b.drop_first();
        assert(a1[0] == 0 && b1[0] == 0);
        let a2 = a1.drop_first();
        let b2 = b1.drop_first();
        assert(a2[0] == 0 && b2[0] == 0);
        let a3 = a2.drop_first();
        let b3 = b2.drop_first();
        assert(a3[0] == a[3] && b3[0] == b[3]);
    }
}

} // verus!
