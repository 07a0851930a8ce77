//! Display order: units in preorder, people by unit with each head first, and
//! the lists that are read in it.

use vstd::prelude::*;

use crate::company::{
    Company, CompanyModel, DepartmentModel, Entity, EventOp, PersonModel,
};
use crate::order::{lemma_sorted, sort_by_keys, sorted, Key};
use crate::org_view::{
    beneath, climb, climbs, is_beneath, lemma_beneath_climb, lemma_steps_beneath,
    lemma_those_where, lemma_way_up,
    rooted, steps_beneath, those_where, way_up, Climb, OrgView,
};
use crate::organization::EmploymentState;
use crate::rows::chart::eligibility_view;
use crate::table::{listing, Duplicate};
use crate::text::{lemma_seen_push, list_contains, owned, same, seen, Text};

verus! {

// ---------------------------------------------------------------------------
// The order
// ---------------------------------------------------------------------------

impl CompanyModel {
    /// What a unit is ordered by: the places of the units from the root down to
    /// it. A unit that hangs from no root comes behind those that do.
    pub open spec fn department_key(self, id: Text) -> Key {
        let m = self.org().departments;
        if rooted(m, id) {
            let q = way_up(m, id);
            Seq::new(
                q.len() + 1,
                |i: int|
                    if i == 0 {
                        0u64
                    } else {
                        self.departments[q[q.len() - i]].ordinal
                    },
            )
        } else {
            seq![1u64, self.departments[id].ordinal]
        }
    }

    /// The units in display order: each before what hangs beneath it.
    pub open spec fn department_order(self) -> Seq<Text> {
        sorted(listing(self.departments.dom()), |d: Text| self.department_key(d))
    }

    /// What a person is ordered by: the place of their unit, the head before
    /// the others, their own place. Whose unit is unknown comes last.
    pub open spec fn person_key(self, id: Text) -> Key {
        let row = self.people[id];
        if self.departments.dom().contains(row.department_id) {
            let unit = self.departments[row.department_id];
            seq![
                0u64,
                unit.ordinal,
                if unit.head_person_id == id {
                    0u64
                } else {
                    1u64
                },
                row.ordinal,
            ]
        } else {
            seq![1u64, 0u64, 0u64, row.ordinal]
        }
    }

    /// The people in display order.
    pub open spec fn people_order(self) -> Seq<Text> {
        sorted(listing(self.people.dom()), |p: Text| self.person_key(p))
    }

    /// A unit gets this place.
    pub open spec fn place_department(self, id: Text, place: u64, at: Text) -> CompanyModel {
        if !self.departments.dom().contains(id) || self.departments[id].ordinal == place {
            self
        } else {
            CompanyModel {
                departments: self.departments.insert(
                    id,
                    DepartmentModel { ordinal: place, updated_at: at, ..self.departments[id] },
                ),
                ..self
            }.touch_once(Entity::Department, id, EventOp::Upsert)
        }
    }

    /// These units get the places from zero on.
    pub open spec fn number_departments(self, order: Seq<Text>, at: Text) -> CompanyModel
        decreases order.len(),
    {
        if order.len() == 0 {
            self
        } else {
            self.number_departments(order.drop_last(), at).place_department(
                order.last(),
                (order.len() - 1) as u64,
                at,
            )
        }
    }

    /// The units get their places in display order.
    pub open spec fn refresh_department_order(self, at: Text) -> CompanyModel {
        self.number_departments(self.department_order(), at)
    }

    /// A person gets this place.
    pub open spec fn place_person(self, id: Text, place: u64, at: Text) -> CompanyModel {
        if !self.people.dom().contains(id) || self.people[id].ordinal == place {
            self
        } else {
            CompanyModel {
                people: self.people.insert(
                    id,
                    PersonModel { ordinal: place, updated_at: at, ..self.people[id] },
                ),
                ..self
            }.touch_once(Entity::Person, id, EventOp::Upsert)
        }
    }

    /// These people get the places from zero on.
    pub open spec fn number_people(self, order: Seq<Text>, at: Text) -> CompanyModel
        decreases order.len(),
    {
        if order.len() == 0 {
            self
        } else {
            self.number_people(order.drop_last(), at).place_person(
                order.last(),
                (order.len() - 1) as u64,
                at,
            )
        }
    }

    /// The people get their places in display order.
    pub open spec fn refresh_people_order(self, at: Text) -> CompanyModel {
        self.number_people(self.people_order(), at)
    }
}

// ---------------------------------------------------------------------------
// Lists
// ---------------------------------------------------------------------------

impl CompanyModel {
    /// The people by their places.
    pub open spec fn roster(self) -> Seq<Text> {
        sorted(listing(self.people.dom()), |p: Text| seq![self.people[p].ordinal])
    }

    /// Everybody in a unit or beneath it.
    pub open spec fn subtree_members(self, department: Text) -> Seq<Text> {
        those_where(
            self.roster(),
            |p: Text| beneath(self.org().departments, self.people[p].department_id, department),
        )
    }

    /// Everybody in one of these units.
    pub open spec fn people_in(self, departments: Seq<Text>) -> Seq<Text> {
        those_where(self.roster(), |p: Text| departments.contains(self.people[p].department_id))
    }

    /// Everybody employed in a unit but its head.
    pub open spec fn ordinary_members(self, department: Text) -> Seq<Text> {
        those_where(
            self.roster(),
            |p: Text|
                self.people[p].department_id == department && self.people[p].employment_state
                    != EmploymentState::Departed && !(self.departments.dom().contains(department)
                    && self.departments[department].head_person_id == p),
        )
    }

    /// What a unit beneath another is ordered by when the deepest go first.
    pub open spec fn depth_key(self, id: Text, top: Text) -> Key {
        seq![
            (u64::MAX - steps_beneath(self.org().departments, id, top)) as u64,
            self.departments[id].ordinal,
        ]
    }

    /// A unit and everything beneath it, the deepest first.
    pub open spec fn subtree_descending(self, department: Text) -> Seq<Text> {
        sorted(
            those_where(
                listing(self.departments.dom()),
                |d: Text| beneath(self.org().departments, d, department),
            ),
            |d: Text| self.depth_key(d, department),
        )
    }
}

// ---------------------------------------------------------------------------
// Reading and writing
// ---------------------------------------------------------------------------

fn department_key(company: &Company, view: &OrgView, id: &str) -> (r: Vec<u64>)
    requires
        company.wf(),
        view.wf(),
        view@ == company@.org(),
        company@.departments.dom().contains(id@),
    ensures
        r@ == company@.department_key(id@),
{
    let ghost m = company@.org().departments;
    let (way, out) = climb(&view.departments, id);
    proof {
        lemma_way_up(m, id@, seen(way@), out);
    }
    let mut key: Vec<u64> = Vec::new();
    if out != Climb::Rooted {
        key.push(1);
        if let Some(row) = company.departments.get(id) {
            key.push(row.ordinal);
        }
        proof {
            assert(key@ =~= company@.department_key(id@));
        }
        return key;
    }
    key.push(0);
    let n: usize = way.len();
    let ghost q = seen(way@);
    let mut i: usize = 0;
    while i < n
        invariant
            i <= n,
            n == way@.len(),
            q == seen(way@),
            m == company@.org().departments,
            company.wf(),
            climbs(m, id@, q, Climb::Rooted),
            key@.len() == i + 1,
            key@[0] == 0,
            forall|j: int|
                1 <= j <= i ==> #[trigger] key@[j] == company@.departments[q[q.len() - j]].ordinal,
        decreases n - i,
    {
        let k: usize = n - 1 - i;
        proof {
            assert(q[k as int] == way@[k as int]@);
            if k < q.len() - 1 {
                assert(m.dom().contains(q[k as int]));
            }
        }
        match company.departments.get(way[k].as_str()) {
            Some(row) => {
                key.push(row.ordinal);
            },
            None => {
                key.push(0);
            },
        }
        i = i + 1;
    }
    proof {
        assert(key@ =~= company@.department_key(id@));
    }
    key
}

fn person_key(company: &Company, id: &str) -> (r: Vec<u64>)
    requires
        company.wf(),
        company@.people.dom().contains(id@),
    ensures
        r@ == company@.person_key(id@),
{
    let mut key: Vec<u64> = Vec::new();
    if let Some(row) = company.people.get(id) {
        match company.departments.get(row.department_id.as_str()) {
            Some(unit) => {
                key.push(0);
                key.push(unit.ordinal);
                if same(unit.head_person_id.as_str(), id) {
                    key.push(0);
                } else {
                    key.push(1);
                }
                key.push(row.ordinal);
            },
            None => {
                key.push(1);
                key.push(0);
                key.push(0);
                key.push(row.ordinal);
            },
        }
    }
    proof {
        assert(key@ =~= company@.person_key(id@));
    }
    key
}

/// How many steps a unit hangs beneath another.
fn depth_key(company: &Company, view: &OrgView, id: &str, top: &str) -> (r: Vec<u64>)
    requires
        company.wf(),
        view.wf(),
        view@ == company@.org(),
        company@.departments.dom().contains(id@),
        beneath(company@.org().departments, id@, top@),
    ensures
        r@ == company@.depth_key(id@, top@),
{
    let ghost m = company@.org().departments;
    let (way, out) = climb(&view.departments, id);
    let ghost q = seen(way@);
    proof {
        lemma_beneath_climb(m, id@, q, out, top@);
    }
    let mut i: usize = 0;
    while i < way.len() && !same(way[i].as_str(), top)
        invariant
            i <= way@.len(),
            q == seen(way@),
            forall|j: int| 0 <= j < i ==> q[j] != top@,
        decreases way@.len() - i,
    {
        proof {
            assert(q[i as int] == way@[i as int]@);
        }
        i = i + 1;
    }
    proof {
        let k = choose|k: int| 0 <= k < q.len() && q[k] == top@;
        assert(k >= i);
        lemma_steps_beneath(m, id@, q, out, top@, i as int);
    }
    let mut key: Vec<u64> = Vec::new();
    key.push(u64::MAX - i as u64);
    if let Some(row) = company.departments.get(id) {
        key.push(row.ordinal);
    }
    proof {
        assert(key@ =~= company@.depth_key(id@, top@));
    }
    key
}

impl Company {
    /// The units in display order.
    pub fn department_order(&self) -> (r: Vec<String>)
        requires
            self.wf(),
        ensures
            seen(r@) == self@.department_order(),
    {
        let view = eligibility_view(self);
        let ids = self.departments.list();
        let mut keys: Vec<Vec<u64>> = Vec::new();
        proof {
            self.departments.lemma_listing();
            assert(seen(ids@) == self.departments.ids());
        }
        let mut i: usize = 0;
        while i < ids.len()
            invariant
                i <= ids@.len(),
                self.wf(),
                view.wf(),
                view@ == self@.org(),
                seen(ids@) == self.departments.ids(),
                keys@.len() == i,
                forall|j: int|
                    0 <= j < i ==> (#[trigger] keys@[j])@ == self@.department_key(ids@[j]@),
            decreases ids@.len() - i,
        {
            proof {
                assert(seen(ids@)[i as int] == ids@[i as int]@);
                assert(seen(ids@).len() == self.departments.keys@.len());
                assert(ids@[i as int]@ == self.departments.keys@[i as int]@);
                self.departments.lemma_at(i as int);
            }
            keys.push(department_key(self, &view, ids[i].as_str()));
            i = i + 1;
        }
        sort_by_keys(&ids, &keys, Ghost(|d: Text| self@.department_key(d)))
    }

    /// The people in display order.
    pub fn people_order(&self) -> (r: Vec<String>)
        requires
            self.wf(),
        ensures
            seen(r@) == self@.people_order(),
    {
        let ids = self.people.list();
        let mut keys: Vec<Vec<u64>> = Vec::new();
        proof {
            self.people.lemma_listing();
            assert(seen(ids@) == self.people.ids());
        }
        let mut i: usize = 0;
        while i < ids.len()
            invariant
                i <= ids@.len(),
                self.wf(),
                seen(ids@) == self.people.ids(),
                keys@.len() == i,
                forall|j: int|
                    0 <= j < i ==> (#[trigger] keys@[j])@ == self@.person_key(ids@[j]@),
            decreases ids@.len() - i,
        {
            proof {
                assert(seen(ids@)[i as int] == ids@[i as int]@);
                assert(seen(ids@).len() == self.people.keys@.len());
                assert(ids@[i as int]@ == self.people.keys@[i as int]@);
                self.people.lemma_at(i as int);
            }
            keys.push(person_key(self, ids[i].as_str()));
            i = i + 1;
        }
        sort_by_keys(&ids, &keys, Ghost(|p: Text| self@.person_key(p)))
    }

    /// Give a unit this place.
    pub fn place_department(&mut self, id: &str, place: u64, at: &str)
        requires
            old(self).wf(),
        ensures
            final(self).wf(),
            final(self)@ == old(self)@.place_department(id@, place, at@),
    {
        if let Some(row) = self.departments.get(id) {
            if row.ordinal != place {
                let mut row = row.duplicate();
                row.ordinal = place;
                row.updated_at = owned(at);
                self.departments.put(id, row);
                self.touch_once(Entity::Department, id, EventOp::Upsert);
            }
        }
    }

    /// Give the units their places in display order.
    pub fn refresh_department_order(&mut self, at: &str)
        requires
            old(self).wf(),
        ensures
            final(self).wf(),
            final(self)@ == old(self)@.refresh_department_order(at@),
    {
        let order = self.department_order();
        let ghost q = seen(order@);
        let mut i: usize = 0;
        while i < order.len()
            invariant
                i <= order@.len(),
                q == seen(order@),
                self.wf(),
                self@ == old(self)@.number_departments(q.take(i as int), at@),
            decreases order@.len() - i,
        {
            proof {
                assert(q.take(i + 1).drop_last() =~= q.take(i as int));
                assert(q.take(i + 1).last() == order@[i as int]@);
            }
            self.place_department(order[i].as_str(), i as u64, at);
            i = i + 1;
        }
        proof {
            assert(q.take(i as int) =~= q);
        }
    }

    /// Give a person this place.
    pub fn place_person(&mut self, id: &str, place: u64, at: &str)
        requires
            old(self).wf(),
        ensures
            final(self).wf(),
            final(self)@ == old(self)@.place_person(id@, place, at@),
    {
        if let Some(row) = self.people.get(id) {
            if row.ordinal != place {
                let mut row = row.duplicate();
                row.ordinal = place;
                row.updated_at = owned(at);
                self.people.put(id, row);
                self.touch_once(Entity::Person, id, EventOp::Upsert);
            }
        }
    }

    /// Give the people their places in display order.
    pub fn refresh_people_order(&mut self, at: &str)
        requires
            old(self).wf(),
        ensures
            final(self).wf(),
            final(self)@ == old(self)@.refresh_people_order(at@),
    {
        let order = self.people_order();
        let ghost q = seen(order@);
        let mut i: usize = 0;
        while i < order.len()
            invariant
                i <= order@.len(),
                q == seen(order@),
                self.wf(),
                self@ == old(self)@.number_people(q.take(i as int), at@),
            decreases order@.len() - i,
        {
            proof {
                assert(q.take(i + 1).drop_last() =~= q.take(i as int));
                assert(q.take(i + 1).last() == order@[i as int]@);
            }
            self.place_person(order[i].as_str(), i as u64, at);
            i = i + 1;
        }
        proof {
            assert(q.take(i as int) =~= q);
        }
    }

    /// The people by their places.
    pub fn roster(&self) -> (r: Vec<String>)
        requires
            self.wf(),
        ensures
            seen(r@) == self@.roster(),
    {
        let ids = self.people.list();
        let mut keys: Vec<Vec<u64>> = Vec::new();
        proof {
            self.people.lemma_listing();
            assert(seen(ids@) == self.people.ids());
        }
        let mut i: usize = 0;
        while i < ids.len()
            invariant
                i <= ids@.len(),
                self.wf(),
                seen(ids@) == self.people.ids(),
                keys@.len() == i,
                forall|j: int|
                    0 <= j < i ==> (#[trigger] keys@[j])@ == seq![self@.people[ids@[j]@].ordinal],
            decreases ids@.len() - i,
        {
            proof {
                assert(seen(ids@)[i as int] == ids@[i as int]@);
                assert(seen(ids@).len() == self.people.keys@.len());
                assert(ids@[i as int]@ == self.people.keys@[i as int]@);
                self.people.lemma_at(i as int);
            }
            let mut key: Vec<u64> = Vec::new();
            if let Some(row) = self.people.get(ids[i].as_str()) {
                key.push(row.ordinal);
            }
            proof {
                assert(key@ =~= seq![self@.people[ids@[i as int]@].ordinal]);
            }
            keys.push(key);
            i = i + 1;
        }
        sort_by_keys(&ids, &keys, Ghost(|p: Text| seq![self@.people[p].ordinal]))
    }
}

/// Whoever is on the roster is somebody.
proof fn lemma_roster(company: &Company, i: int)
    requires
        company.wf(),
        0 <= i < company@.roster().len(),
    ensures
        company@.people.dom().contains(company@.roster()[i]),
{
    let q = company@.roster();
    lemma_sorted(
        listing(company@.people.dom()),
        |p: Text| seq![company@.people[p].ordinal],
    );
    assert(q.contains(q[i]));
    company.people.lemma_listing();
}

/// Whoever is in one of these units is somebody.
pub proof fn lemma_people_in(company: &Company, departments: Seq<Text>)
    requires
        company.wf(),
    ensures
        forall|p: Text| #[trigger]
            company@.people_in(departments).contains(p) <==> company@.people.dom().contains(p)
                && departments.contains(company@.people[p].department_id),
{
    lemma_sorted(
        listing(company@.people.dom()),
        |p: Text| seq![company@.people[p].ordinal],
    );
    lemma_those_where(
        company@.roster(),
        |p: Text| departments.contains(company@.people[p].department_id),
    );
    company.people.lemma_listing();
}

impl Company {
    /// Everybody in a unit or beneath it.
    pub fn subtree_members(&self, department: &str) -> (r: Vec<String>)
        requires
            self.wf(),
        ensures
            seen(r@) == self@.subtree_members(department@),
    {
        let view = eligibility_view(self);
        let roster = self.roster();
        let ghost q = seen(roster@);
        let ghost p = |p: Text| beneath(self@.org().departments, self@.people[p].department_id, department@);
        let mut out: Vec<String> = Vec::new();
        let mut i: usize = 0;
        while i < roster.len()
            invariant
                i <= roster@.len(),
                self.wf(),
                view.wf(),
                view@ == self@.org(),
                q == seen(roster@),
                q == self@.roster(),
                p == (|p: Text| beneath(self@.org().departments, self@.people[p].department_id, department@)),
                seen(out@) == those_where(q.take(i as int), p),
            decreases roster@.len() - i,
        {
            proof {
                assert(q[i as int] == roster@[i as int]@);
                lemma_roster(self, i as int);
                assert(q.take(i + 1).drop_last() =~= q.take(i as int));
                assert(q.take(i + 1).last() == q[i as int]);
            }
            if let Some(row) = self.people.get(roster[i].as_str()) {
                if is_beneath(&view.departments, row.department_id.as_str(), department) {
                    proof {
                        lemma_seen_push(out@, roster@[i as int]);
                    }
                    out.push(roster[i].clone());
                }
            }
            i = i + 1;
        }
        proof {
            assert(q.take(i as int) =~= q);
        }
        out
    }

    /// Everybody in one of these units.
    pub fn people_in(&self, departments: &Vec<String>) -> (r: Vec<String>)
        requires
            self.wf(),
        ensures
            seen(r@) == self@.people_in(seen(departments@)),
    {
        let roster = self.roster();
        let ghost q = seen(roster@);
        let ghost p = |p: Text| seen(departments@).contains(self@.people[p].department_id);
        let mut out: Vec<String> = Vec::new();
        let mut i: usize = 0;
        while i < roster.len()
            invariant
                i <= roster@.len(),
                self.wf(),
                q == seen(roster@),
                q == self@.roster(),
                p == (|p: Text| seen(departments@).contains(self@.people[p].department_id)),
                seen(out@) == those_where(q.take(i as int), p),
            decreases roster@.len() - i,
        {
            proof {
                assert(q[i as int] == roster@[i as int]@);
                lemma_roster(self, i as int);
                assert(q.take(i + 1).drop_last() =~= q.take(i as int));
                assert(q.take(i + 1).last() == q[i as int]);
            }
            if let Some(row) = self.people.get(roster[i].as_str()) {
                if list_contains(departments.as_slice(), row.department_id.as_str()) {
                    proof {
                        lemma_seen_push(out@, roster@[i as int]);
                    }
                    out.push(roster[i].clone());
                }
            }
            i = i + 1;
        }
        proof {
            assert(q.take(i as int) =~= q);
        }
        out
    }

    /// Everybody employed in a unit but its head.
    pub fn ordinary_members(&self, department: &str) -> (r: Vec<String>)
        requires
            self.wf(),
        ensures
            seen(r@) == self@.ordinary_members(department@),
    {
        let roster = self.roster();
        let ghost q = seen(roster@);
        let ghost p = |p: Text|
            self@.people[p].department_id == department@ && self@.people[p].employment_state
                != EmploymentState::Departed && !(self@.departments.dom().contains(department@)
                && self@.departments[department@].head_person_id == p);
        let mut out: Vec<String> = Vec::new();
        let mut i: usize = 0;
        while i < roster.len()
            invariant
                i <= roster@.len(),
                self.wf(),
                q == seen(roster@),
                q == self@.roster(),
                p == (|p: Text|
            self@.people[p].department_id == department@ && self@.people[p].employment_state
                != EmploymentState::Departed && !(self@.departments.dom().contains(department@)
                && self@.departments[department@].head_person_id == p)),
                seen(out@) == those_where(q.take(i as int), p),
            decreases roster@.len() - i,
        {
            proof {
                assert(q[i as int] == roster@[i as int]@);
                lemma_roster(self, i as int);
                assert(q.take(i + 1).drop_last() =~= q.take(i as int));
                assert(q.take(i + 1).last() == q[i as int]);
            }
            if let Some(row) = self.people.get(roster[i].as_str()) {
                if same(row.department_id.as_str(), department) && row.employment_state
                    != EmploymentState::Departed && !self.heads(roster[i].as_str(), department) {
                    proof {
                        lemma_seen_push(out@, roster@[i as int]);
                    }
                    out.push(roster[i].clone());
                }
            }
            i = i + 1;
        }
        proof {
            assert(q.take(i as int) =~= q);
        }
        out
    }

    /// Whether somebody heads this unit.
    pub fn heads(&self, person: &str, department: &str) -> (r: bool)
        requires
            self.wf(),
        ensures
            r == (self@.departments.dom().contains(department@)
                && self@.departments[department@].head_person_id == person@),
    {
        match self.departments.get(department) {
            Some(unit) => same(unit.head_person_id.as_str(), person),
            None => false,
        }
    }

    /// A unit and everything beneath it, the deepest first.
    pub fn subtree_descending(&self, department: &str) -> (r: Vec<String>)
        requires
            self.wf(),
        ensures
            seen(r@) == self@.subtree_descending(department@),
    {
        let view = eligibility_view(self);
        let ghost m = self@.org().departments;
        let ghost q = self.departments.ids();
        let ghost p = |d: Text| beneath(self@.org().departments, d, department@);
        proof {
            self.departments.lemma_listing();
        }
        let mut ids: Vec<String> = Vec::new();
        let mut keys: Vec<Vec<u64>> = Vec::new();
        let mut i: usize = 0;
        while i < self.departments.keys.len()
            invariant
                i <= self.departments.keys@.len(),
                self.wf(),
                view.wf(),
                view@ == self@.org(),
                q == self.departments.ids(),
                p == (|d: Text| beneath(self@.org().departments, d, department@)),
                seen(ids@) == those_where(q.take(i as int), p),
                keys@.len() == ids@.len(),
                forall|j: int|
                    0 <= j < ids@.len() ==> (#[trigger] keys@[j])@ == self@.depth_key(
                        ids@[j]@,
                        department@,
                    ),
            decreases self.departments.keys@.len() - i,
        {
            proof {
                self.departments.lemma_at(i as int);
                assert(q[i as int] == self.departments.keys@[i as int]@);
                assert(q.take(i + 1).drop_last() =~= q.take(i as int));
                assert(q.take(i + 1).last() == q[i as int]);
            }
            if is_beneath(&view.departments, self.departments.keys[i].as_str(), department) {
                let key = depth_key(self, &view, self.departments.keys[i].as_str(), department);
                proof {
                    lemma_seen_push(ids@, self.departments.keys@[i as int]);
                }
                ids.push(self.departments.keys[i].clone());
                keys.push(key);
            }
            i = i + 1;
        }
        proof {
            assert(q.take(i as int) =~= q);
        }
        sort_by_keys(&ids, &keys, Ghost(|d: Text| self@.depth_key(d, department@)))
    }
}

} // verus!
