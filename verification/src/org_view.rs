//! The company shape an eligibility decision reads: the tree of units, who
//! heads each, and where everybody sits.

use vstd::prelude::*;

use crate::organization::{
    DepartmentRecordModel, EmploymentState, ManifestModel, OrganizationManifest, PersonKind,
    PersonRecordModel, UnitState,
};
use crate::table::{ascending, lemma_finite_listing, listing, Duplicate, Table};
use crate::text::{list_contains, opt, owned, owned_opt, same, seen, Text};

verus! {

// ---------------------------------------------------------------------------
// Views
// ---------------------------------------------------------------------------

/// One unit, reduced to what an eligibility decision depends on.
#[derive(Debug, Clone, PartialEq, Eq)]
pub struct UnitView {
    /// The unit above; absent only on the root.
    pub parent_department_id: Option<String>,
    /// Who heads it.
    pub head_person_id: String,
    /// Whether it is running.
    pub state: UnitState,
}

/// One unit, as read.
pub struct UnitModel {
    /// The unit above; absent only on the root.
    pub parent: Option<Text>,
    /// Who heads it.
    pub head: Text,
    /// Whether it is running.
    pub state: UnitState,
}

impl View for UnitView {
    type V = UnitModel;

    open spec fn view(&self) -> UnitModel {
        UnitModel {
            parent: opt(self.parent_department_id),
            head: self.head_person_id@,
            state: self.state,
        }
    }
}

/// One person, reduced to what an eligibility decision depends on.
#[derive(Debug, Clone, PartialEq, Eq)]
pub struct PersonView {
    /// Structural role.
    pub kind: PersonKind,
    /// Whether they are staffed.
    pub employment_state: EmploymentState,
    /// The unit they belong to.
    pub department_id: String,
}

/// One person, as read.
pub struct MemberModel {
    /// Structural role.
    pub kind: PersonKind,
    /// Whether they are staffed.
    pub employment: EmploymentState,
    /// The unit they belong to.
    pub department: Text,
}

impl View for PersonView {
    type V = MemberModel;

    open spec fn view(&self) -> MemberModel {
        MemberModel {
            kind: self.kind,
            employment: self.employment_state,
            department: self.department_id@,
        }
    }
}

/// The company shape an eligibility decision reads, and nothing else.
#[derive(Debug, Clone, PartialEq, Eq)]
pub struct OrgView {
    /// Units by id.
    pub departments: Table<UnitView>,
    /// People by id.
    pub people: Table<PersonView>,
}

/// The company shape, as read.
pub struct OrgModel {
    /// Units by id.
    pub departments: Map<Text, UnitModel>,
    /// People by id.
    pub people: Map<Text, MemberModel>,
}

impl View for OrgView {
    type V = OrgModel;

    open spec fn view(&self) -> OrgModel {
        OrgModel { departments: self.departments@, people: self.people@ }
    }
}

// ---------------------------------------------------------------------------
// The tree
// ---------------------------------------------------------------------------

/// The unit `n` steps above a unit, the unit itself being no step above. An
/// unknown unit has nothing above it.
pub open spec fn above(m: Map<Text, UnitModel>, id: Text, n: nat) -> Option<Text>
    decreases n,
{
    if n == 0 {
        Some(id)
    } else {
        match above(m, id, (n - 1) as nat) {
            Some(x) => if m.dom().contains(x) {
                m[x].parent
            } else {
                None
            },
            None => None,
        }
    }
}

/// Whether a unit is `top` or hangs beneath it.
pub open spec fn beneath(m: Map<Text, UnitModel>, id: Text, top: Text) -> bool {
    exists|n: nat| #[trigger] above(m, id, n) == Some(top)
}

/// Whether a unit and every unit above it are known and active, and the way up
/// ends.
pub open spec fn running(m: Map<Text, UnitModel>, id: Text) -> bool {
    exists|n: nat| #[trigger]
        above(m, id, n) is None && forall|k: nat|
            k < n ==> (#[trigger] above(m, id, k) matches Some(x) && m.dom().contains(x)
                && m[x].state == UnitState::Active)
}

/// Whether a unit, known or not, is stopped: itself or somewhere above.
pub open spec fn stopped(m: Map<Text, UnitModel>, id: Text) -> bool {
    !running(m, id)
}

/// How the way up from a unit comes out.
#[derive(Debug, Clone, Copy, PartialEq, Eq, Structural)]
pub enum Climb {
    /// At a root.
    Rooted,
    /// At an id that no unit has.
    Broken,
    /// Back where it has been.
    Looped,
}

/// Whether `q` lists the ids on the way up from a unit, and how it comes out.
pub open spec fn climbs(m: Map<Text, UnitModel>, id: Text, q: Seq<Text>, out: Climb) -> bool {
    &&& q.len() > 0
    &&& forall|k: nat| k < q.len() ==> #[trigger] above(m, id, k) == Some(q[k as int])
    &&& forall|k: int| 0 <= k < q.len() - 1 ==> m.dom().contains(#[trigger] q[k])
    &&& match out {
        Climb::Rooted => above(m, id, q.len()) is None && m.dom().contains(q.last()),
        Climb::Broken => above(m, id, q.len()) is None && !m.dom().contains(q.last()),
        Climb::Looped => m.dom().contains(q.last()) && exists|j: nat|
            j < q.len() && #[trigger] above(m, id, j) == above(m, id, q.len()),
    }
}

proof fn lemma_ended(m: Map<Text, UnitModel>, id: Text, n: nat, k: nat)
    requires
        above(m, id, n) is None,
        n <= k,
    ensures
        above(m, id, k) is None,
    decreases k,
{
    if n < k {
        lemma_ended(m, id, n, (k - 1) as nat);
    }
}

proof fn lemma_repeats(m: Map<Text, UnitModel>, id: Text, j: nat, k: nat, i: nat)
    requires
        above(m, id, j) == above(m, id, k),
    ensures
        above(m, id, j + i) == above(m, id, k + i),
    decreases i,
{
    if i > 0 {
        lemma_repeats(m, id, j, k, (i - 1) as nat);
        assert(above(m, id, j + i) == match above(m, id, (j + i - 1) as nat) {
            Some(x) => if m.dom().contains(x) {
                m[x].parent
            } else {
                None
            },
            None => None,
        });
        assert(above(m, id, k + i) == match above(m, id, (k + i - 1) as nat) {
            Some(x) => if m.dom().contains(x) {
                m[x].parent
            } else {
                None
            },
            None => None,
        });
    }
}

/// Everything on a way up that turns back on itself was passed before the turn.
proof fn lemma_looped(m: Map<Text, UnitModel>, id: Text, q: Seq<Text>, n: nat) -> (t: nat)
    requires
        climbs(m, id, q, Climb::Looped),
    ensures
        t < q.len(),
        above(m, id, n) == Some(q[t as int]),
    decreases n,
{
    if n < q.len() {
        n
    } else {
        let j = choose|j: nat| j < q.len() && #[trigger] above(m, id, j) == above(m, id, q.len());
        let i = (n - q.len()) as nat;
        lemma_repeats(m, id, j, q.len(), i);
        assert(above(m, id, j + i) == above(m, id, n));
        lemma_looped(m, id, q, j + i)
    }
}

/// A unit is beneath `top` exactly when the way up passes `top`.
pub proof fn lemma_beneath_climb(
    m: Map<Text, UnitModel>,
    id: Text,
    q: Seq<Text>,
    out: Climb,
    top: Text,
)
    requires
        climbs(m, id, q, out),
    ensures
        beneath(m, id, top) <==> q.contains(top),
{
    if q.contains(top) {
        let k = choose|k: int| 0 <= k < q.len() && q[k] == top;
        assert(above(m, id, k as nat) == Some(top));
    }
    if beneath(m, id, top) {
        let n = choose|n: nat| #[trigger] above(m, id, n) == Some(top);
        if n < q.len() {
            assert(q[n as int] == top);
        } else if out == Climb::Looped {
            let t = lemma_looped(m, id, q, n);
            assert(q[t as int] == top);
        } else {
            lemma_ended(m, id, q.len(), n);
        }
    }
}

/// A unit runs exactly when the way up ends at a root and passes only active
/// units.
pub proof fn lemma_running_climb(m: Map<Text, UnitModel>, id: Text, q: Seq<Text>, out: Climb)
    requires
        climbs(m, id, q, out),
    ensures
        running(m, id) <==> out == Climb::Rooted && forall|k: int|
            0 <= k < q.len() ==> m[#[trigger] q[k]].state == UnitState::Active,
{
    if out == Climb::Rooted && forall|k: int|
        0 <= k < q.len() ==> m[#[trigger] q[k]].state == UnitState::Active {
        let n = q.len();
        assert forall|k: nat| k < n implies (#[trigger] above(m, id, k) matches Some(x)
            && m.dom().contains(x) && m[x].state == UnitState::Active) by {
            assert(above(m, id, k) == Some(q[k as int]));
            if k < n - 1 {
                assert(m.dom().contains(q[k as int]));
            }
        }
        assert(above(m, id, n) is None);
    }
    if running(m, id) {
        let n = choose|n: nat| #[trigger]
            above(m, id, n) is None && forall|k: nat|
                k < n ==> (#[trigger] above(m, id, k) matches Some(x) && m.dom().contains(x)
                    && m[x].state == UnitState::Active);
        if out == Climb::Looped {
            let t = lemma_looped(m, id, q, n);
        }
        if n < q.len() {
            assert(above(m, id, n) == Some(q[n as int]));
        }
        assert forall|k: int| 0 <= k < q.len() implies m[#[trigger] q[k]].state
            == UnitState::Active by {
            assert(above(m, id, k as nat) == Some(q[k]));
        }
        if out == Climb::Broken {
            assert(above(m, id, (q.len() - 1) as nat) == Some(q.last()));
        }
    }
}

/// Whether the way up from a unit ends at a root.
pub open spec fn rooted(m: Map<Text, UnitModel>, id: Text) -> bool {
    exists|q: Seq<Text>| climbs(m, id, q, Climb::Rooted)
}

/// The units on the way up from a unit to its root.
pub open spec fn way_up(m: Map<Text, UnitModel>, id: Text) -> Seq<Text> {
    choose|q: Seq<Text>| climbs(m, id, q, Climb::Rooted)
}

/// However the way up is found, it is the same way.
pub proof fn lemma_way_up(m: Map<Text, UnitModel>, id: Text, q: Seq<Text>, out: Climb)
    requires
        climbs(m, id, q, out),
    ensures
        rooted(m, id) <==> out == Climb::Rooted,
        out == Climb::Rooted ==> way_up(m, id) == q,
{
    if rooted(m, id) {
        let w = way_up(m, id);
        assert(climbs(m, id, w, Climb::Rooted));
        if out == Climb::Looped {
            let t = lemma_looped(m, id, q, w.len());
        } else {
            if w.len() < q.len() {
                assert(above(m, id, w.len()) == Some(q[w.len() as int]));
            }
            if q.len() < w.len() {
                assert(above(m, id, q.len()) == Some(w[q.len() as int]));
            }
            assert forall|k: int| 0 <= k < q.len() implies q[k] == w[k] by {
                assert(above(m, id, k as nat) == Some(q[k]));
                assert(above(m, id, k as nat) == Some(w[k]));
            }
            assert(w =~= q);
        }
    }
}

/// How many steps a unit hangs beneath another, the first time it is met.
#[verifier::opaque]
pub open spec fn steps_beneath(m: Map<Text, UnitModel>, id: Text, top: Text) -> nat {
    choose|n: nat| #[trigger]
        above(m, id, n) == Some(top) && forall|k: nat|
            k < n ==> #[trigger] above(m, id, k) != Some(top)
}

/// The steps are counted to where `top` is first met on the way up.
pub proof fn lemma_steps_beneath(
    m: Map<Text, UnitModel>,
    id: Text,
    q: Seq<Text>,
    out: Climb,
    top: Text,
    i: int,
)
    requires
        climbs(m, id, q, out),
        0 <= i < q.len(),
        q[i] == top,
        forall|j: int| 0 <= j < i ==> q[j] != top,
    ensures
        steps_beneath(m, id, top) == i,
{
    reveal(steps_beneath);
    assert(above(m, id, i as nat) == Some(top));
    assert forall|k: nat| k < i implies #[trigger] above(m, id, k) != Some(top) by {
        assert(above(m, id, k) == Some(q[k as int]));
    }
    let n = steps_beneath(m, id, top);
    assert(above(m, id, n) == Some(top) && forall|k: nat|
        k < n ==> #[trigger] above(m, id, k) != Some(top));
    if i < n {
        assert(above(m, id, i as nat) != Some(top));
    }
    if n < i {
        assert(above(m, id, n) != Some(top));
    }
}

/// Distinct members of a list are no more than the list has.
pub proof fn lemma_distinct_fit(s: Seq<Text>, q: Seq<Text>)
    requires
        s.no_duplicates(),
        forall|i: int| 0 <= i < s.len() ==> q.contains(#[trigger] s[i]),
    ensures
        s.len() <= q.len(),
{
    s.unique_seq_to_set();
    q.lemma_cardinality_of_set();
    assert(s.to_set().subset_of(q.to_set())) by {
        assert forall|x: Text| s.to_set().contains(x) implies q.to_set().contains(x) by {
            let i = choose|i: int| 0 <= i < s.len() && s[i] == x;
            assert(q.contains(s[i]));
        }
    }
    vstd::set_lib::lemma_len_subset(s.to_set(), q.to_set());
}

/// The ids on the way up from a unit, and how it comes out.
pub fn climb(departments: &Table<UnitView>, id: &str) -> (r: (Vec<String>, Climb))
    requires
        departments.wf(),
    ensures
        climbs(departments@, id@, seen(r.0@), r.1),
{
    let ghost m = departments@;
    let mut way: Vec<String> = Vec::new();
    let mut here = owned(id);
    proof {
        departments.lemma_listing();
    }
    loop
        invariant
            departments.wf(),
            m == departments@,
            departments.ids() == listing(m.dom()),
            forall|t: Text| #[trigger] m.dom().contains(t) <==> departments.ids().contains(t),
            departments.ids().len() == departments.keys@.len(),
            above(m, id@, way@.len()) == Some(here@),
            forall|k: nat| k < way@.len() ==> #[trigger] above(m, id@, k) == Some(way@[k as int]@),
            forall|k: int| 0 <= k < way@.len() ==> m.dom().contains(#[trigger] seen(way@)[k]),
            seen(way@).no_duplicates(),
            !seen(way@).contains(here@),
            way@.len() <= departments.keys@.len(),
        decreases departments.keys@.len() - way@.len(),
    {
        let ghost before = seen(way@);
        way.push(here.clone());
        proof {
            assert(seen(way@) =~= before.push(here@));
            assert forall|k: nat| k < way@.len() implies #[trigger] above(m, id@, k) == Some(
                way@[k as int]@,
            ) by {}
            assert forall|k: int| 0 <= k < seen(way@).len() - 1 implies m.dom().contains(
                #[trigger] seen(way@)[k],
            ) by {
                assert(seen(way@)[k] == before[k]);
            }
        }
        match departments.get(here.as_str()) {
            None => {
                return (way, Climb::Broken);
            },
            Some(unit) => {
                proof {
                    assert forall|i: int| 0 <= i < seen(way@).len() implies departments.ids().contains(
                    #[trigger] seen(way@)[i]) by {
                        assert(m.dom().contains(seen(way@)[i]));
                    }
                    lemma_distinct_fit(seen(way@), departments.ids());
                }
                match &unit.parent_department_id {
                    None => {
                        return (way, Climb::Rooted);
                    },
                    Some(parent) => {
                        if list_contains(way.as_slice(), parent.as_str()) {
                            proof {
                                let j = choose|j: int|
                                    0 <= j < seen(way@).len() && seen(way@)[j] == parent@;
                                assert(above(m, id@, j as nat) == Some(way@[j]@));
                            }
                            return (way, Climb::Looped);
                        }
                        here = parent.clone();
                    },
                }
            },
        }
    }
}

/// Whether a unit is `top` or hangs beneath it.
pub fn is_beneath(departments: &Table<UnitView>, id: &str, top: &str) -> (r: bool)
    requires
        departments.wf(),
    ensures
        r == beneath(departments@, id@, top@),
{
    let (way, out) = climb(departments, id);
    proof {
        lemma_beneath_climb(departments@, id@, seen(way@), out, top@);
    }
    list_contains(way.as_slice(), top)
}

/// Whether a unit or one above it is paused. An unknown unit and a way up that
/// does not end count as paused: neither leads where anybody may be placed.
pub fn department_or_ancestor_is_paused(view: &OrgView, department_id: &str) -> (r: bool)
    requires
        view.wf(),
    ensures
        r == stopped(view@.departments, department_id@),
{
    let (way, out) = climb(&view.departments, department_id);
    let ghost m = view@.departments;
    proof {
        lemma_running_climb(m, department_id@, seen(way@), out);
    }
    if out != Climb::Rooted {
        return true;
    }
    let mut k: usize = 0;
    while k < way.len()
        invariant
            k <= way.len(),
            view.wf(),
            m == view@.departments,
            climbs(m, department_id@, seen(way@), out),
            out == Climb::Rooted,
            running(m, department_id@) <==> forall|j: int|
                0 <= j < seen(way@).len() ==> m[#[trigger] seen(way@)[j]].state
                    == UnitState::Active,
            forall|j: int|
                0 <= j < k ==> m[#[trigger] seen(way@)[j]].state == UnitState::Active,
        decreases way.len() - k,
    {
        proof {
            assert(seen(way@)[k as int] == way@[k as int]@);
            assert(m.dom().contains(seen(way@)[k as int]));
        }
        match view.departments.get(way[k].as_str()) {
            Some(unit) => {
                if unit.state != UnitState::Active {
                    return true;
                }
            },
            None => {
                return true;
            },
        }
        k = k + 1;
    }
    false
}

// ---------------------------------------------------------------------------
// Reads
// ---------------------------------------------------------------------------

/// The first member of a list that has a property.
pub open spec fn first_where(q: Seq<Text>, p: spec_fn(Text) -> bool) -> Option<Text>
    decreases q.len(),
{
    if q.len() == 0 {
        None
    } else if p(q[0]) {
        Some(q[0])
    } else {
        first_where(q.drop_first(), p)
    }
}

/// The members of a list that have a property, in the list's order.
pub open spec fn those_where(q: Seq<Text>, p: spec_fn(Text) -> bool) -> Seq<Text>
    decreases q.len(),
{
    if q.len() == 0 {
        Seq::empty()
    } else if p(q.last()) {
        those_where(q.drop_last(), p).push(q.last())
    } else {
        those_where(q.drop_last(), p)
    }
}

/// Who has the property is named, nobody else is, and in the same order.
pub proof fn lemma_those_where(q: Seq<Text>, p: spec_fn(Text) -> bool)
    ensures
        forall|x: Text| #[trigger] those_where(q, p).contains(x) <==> q.contains(x) && p(x),
        q.no_duplicates() ==> those_where(q, p).no_duplicates(),
    decreases q.len(),
{
    if q.len() > 0 {
        let r = q.drop_last();
        lemma_those_where(r, p);
        let a = those_where(r, p);
        let b = those_where(q, p);
        assert forall|x: Text| #[trigger] b.contains(x) <==> q.contains(x) && p(x) by {
            if b.contains(x) {
                let i = choose|i: int| 0 <= i < b.len() && b[i] == x;
                if p(q.last()) && i == b.len() - 1 {
                    assert(q[q.len() - 1] == x);
                } else {
                    assert(a[i] == x);
                    assert(a.contains(x));
                    assert(r.contains(x));
                    let j = choose|j: int| 0 <= j < r.len() && r[j] == x;
                    assert(q[j] == x);
                }
            }
            if q.contains(x) && p(x) {
                let i = choose|i: int| 0 <= i < q.len() && q[i] == x;
                if i < r.len() {
                    assert(r[i] == x);
                    assert(a.contains(x));
                    let j = choose|j: int| 0 <= j < a.len() && a[j] == x;
                    assert(b[j] == x);
                } else {
                    assert(b[b.len() - 1] == x);
                }
            }
        }
        if q.no_duplicates() {
            assert(r.no_duplicates());
            if p(q.last()) {
                assert forall|i: int, j: int| 0 <= i < b.len() && 0 <= j < b.len() && i
                    != j implies b[i] != b[j] by {
                    if i == b.len() - 1 {
                        assert(a.contains(a[j]));
                    } else if j == b.len() - 1 {
                        assert(a.contains(a[i]));
                    }
                }
            }
        }
    }
}

/// The unit somebody heads: the first in id order that names them.
pub open spec fn headed_by(m: Map<Text, UnitModel>, person: Text) -> Option<Text> {
    first_where(listing(m.dom()), |d: Text| m[d].head == person)
}

/// The root: the first unit in id order that has nothing above it.
pub open spec fn root_of(m: Map<Text, UnitModel>) -> Option<Text> {
    first_where(listing(m.dom()), |d: Text| m[d].parent is None)
}

/// Whether somebody is the CEO: the head of the root, and nobody else.
pub open spec fn ceo(m: Map<Text, UnitModel>, person: Text) -> bool {
    root_of(m) matches Some(r) && m[r].head == person
}

/// Who belongs to a unit and is employed, but for one person, in id order.
pub open spec fn members_but(o: OrgModel, department: Text, except: Text) -> Seq<Text> {
    those_where(listing(o.people.dom()), member_but(o, department, except))
}

/// Belonging to a unit and being employed, but for one person.
pub open spec fn member_but(o: OrgModel, department: Text, except: Text) -> spec_fn(Text) -> bool {
    |p: Text|
        p != except && o.people[p].employment != EmploymentState::Departed
            && o.people[p].department == department
}

/// The units right beneath a unit, in id order.
pub open spec fn children(m: Map<Text, UnitModel>, department: Text) -> Seq<Text> {
    those_where(listing(m.dom()), |d: Text| m[d].parent == Some(department))
}

/// Whether somebody manages a unit: employed, and an executive, or a head of a
/// unit it is beneath.
pub open spec fn manages(o: OrgModel, person: Text, department: Text) -> bool {
    &&& o.people.dom().contains(person)
    &&& o.people[person].employment != EmploymentState::Departed
    &&& {
        ||| o.people[person].kind == PersonKind::Executive
        ||| o.people[person].kind == PersonKind::Head && (headed_by(
            o.departments,
            person,
        ) matches Some(top) && beneath(o.departments, department, top))
    }
}

/// Whether somebody may create a unit right beneath `parent`: they manage it,
/// or they head nothing and sit in it.
pub open spec fn may_create_under(o: OrgModel, person: Text, parent: Text) -> bool {
    ||| manages(o, person, parent)
    ||| {
        &&& o.people.dom().contains(person)
        &&& o.people[person].employment != EmploymentState::Departed
        &&& headed_by(o.departments, person) is None
        &&& o.people[person].department == parent
    }
}

/// What stands before the first member with a property may be left out.
pub proof fn lemma_first_skip(q: Seq<Text>, p: spec_fn(Text) -> bool, i: int)
    requires
        0 <= i <= q.len(),
        forall|j: int| 0 <= j < i ==> !p(#[trigger] q[j]),
    ensures
        first_where(q, p) == first_where(q.skip(i), p),
    decreases i,
{
    if i == 0 {
        assert(q.skip(0) =~= q);
    } else {
        assert(!p(q[0]));
        let r = q.drop_first();
        assert forall|j: int| 0 <= j < i - 1 implies !p(#[trigger] r[j]) by {
            assert(r[j] == q[j + 1]);
        }
        lemma_first_skip(r, p, i - 1);
        assert(r.skip(i - 1) =~= q.skip(i));
    }
}

/// A list's first member with a property has it, and is in the list.
pub proof fn lemma_first_where(q: Seq<Text>, p: spec_fn(Text) -> bool)
    ensures
        match first_where(q, p) {
            Some(x) => q.contains(x) && p(x),
            None => forall|i: int| 0 <= i < q.len() ==> !p(#[trigger] q[i]),
        },
    decreases q.len(),
{
    if q.len() > 0 {
        if p(q[0]) {
            assert(q.contains(q[0]));
        } else {
            let r = q.drop_first();
            lemma_first_where(r, p);
            match first_where(r, p) {
                Some(x) => {
                    let i = choose|i: int| 0 <= i < r.len() && r[i] == x;
                    assert(q[i + 1] == x);
                },
                None => {
                    assert forall|i: int| 0 <= i < q.len() implies !p(#[trigger] q[i]) by {
                        if i > 0 {
                            assert(q[i] == r[i - 1]);
                        }
                    }
                },
            }
        }
    }
}

/// The listing of a table's ids names its rows.
pub proof fn lemma_listed<V: View>(t: &Table<V>, k: Text)
    requires
        t.wf(),
    ensures
        listing(t@.dom()).contains(k) <==> t@.dom().contains(k),
        ascending(listing(t@.dom())),
{
    t.lemma_listing();
}

/// The state of a unit.
pub fn department_state(view: &OrgView, department_id: &str) -> (r: Option<UnitState>)
    requires
        view.wf(),
    ensures
        r == (if view@.departments.dom().contains(department_id@) {
            Some(view@.departments[department_id@].state)
        } else {
            None
        }),
{
    match view.departments.get(department_id) {
        Some(unit) => Some(unit.state),
        None => None,
    }
}

/// The unit somebody heads.
pub fn department_headed_by_person<'a>(view: &'a OrgView, person_id: &str) -> (r: Option<&'a str>)
    requires
        view.wf(),
    ensures
        opt(r) == headed_by(view@.departments, person_id@),
{
    let ghost m = view@.departments;
    let ghost q = view.departments.ids();
    let ghost p = |d: Text| m[d].head == person_id@;
    proof {
        view.departments.lemma_listing();
    }
    let mut i: usize = 0;
    while i < view.departments.keys.len()
        invariant
            i <= view.departments.keys@.len(),
            view.wf(),
            m == view@.departments,
            q == view.departments.ids(),
            q == listing(m.dom()),
            p == (|d: Text| m[d].head == person_id@),
            forall|j: int| 0 <= j < i ==> !p(#[trigger] q[j]),
        decreases view.departments.keys@.len() - i,
    {
        proof {
            view.departments.lemma_at(i as int);
            assert(q[i as int] == view.departments.keys@[i as int]@);
        }
        if same(view.departments.values[i].head_person_id.as_str(), person_id) {
            proof {
                lemma_first_skip(q, p, i as int);
                assert(q.skip(i as int)[0] == q[i as int]);
            }
            return Some(view.departments.keys[i].as_str());
        }
        i = i + 1;
    }
    proof {
        lemma_first_skip(q, p, i as int);
        assert(q.skip(i as int).len() == 0);
    }
    None
}

/// The root, if there is one.
pub fn company_root(view: &OrgView) -> (r: Option<&str>)
    requires
        view.wf(),
    ensures
        opt(r) == root_of(view@.departments),
{
    let ghost m = view@.departments;
    let ghost q = view.departments.ids();
    let ghost p = |d: Text| m[d].parent is None;
    proof {
        view.departments.lemma_listing();
    }
    let mut i: usize = 0;
    while i < view.departments.keys.len()
        invariant
            i <= view.departments.keys@.len(),
            view.wf(),
            m == view@.departments,
            q == view.departments.ids(),
            q == listing(m.dom()),
            p == (|d: Text| m[d].parent is None),
            forall|j: int| 0 <= j < i ==> !p(#[trigger] q[j]),
        decreases view.departments.keys@.len() - i,
    {
        proof {
            view.departments.lemma_at(i as int);
            assert(q[i as int] == view.departments.keys@[i as int]@);
        }
        if view.departments.values[i].parent_department_id.is_none() {
            proof {
                lemma_first_skip(q, p, i as int);
                assert(q.skip(i as int)[0] == q[i as int]);
            }
            return Some(view.departments.keys[i].as_str());
        }
        i = i + 1;
    }
    proof {
        lemma_first_skip(q, p, i as int);
        assert(q.skip(i as int).len() == 0);
    }
    None
}

/// Whether somebody is the CEO.
pub fn is_ceo(view: &OrgView, person_id: &str) -> (r: bool)
    requires
        view.wf(),
    ensures
        r == ceo(view@.departments, person_id@),
{
    match company_root(view) {
        Some(root) => {
            proof {
                lemma_first_where(
                    listing(view@.departments.dom()),
                    |d: Text| view@.departments[d].parent is None,
                );
                lemma_listed(&view.departments, root@);
            }
            match view.departments.get(root) {
                Some(unit) => same(unit.head_person_id.as_str(), person_id),
                None => false,
            }
        },
        None => false,
    }
}

/// Whoever belongs to a unit and is employed, but for one person, and nobody
/// else.
pub proof fn lemma_members_but(o: OrgModel, department: Text, except: Text)
    requires
        o.people.dom().finite(),
    ensures
        forall|x: Text| #[trigger]
            members_but(o, department, except).contains(x) <==> o.people.dom().contains(x) && x
                != except && o.people[x].employment != EmploymentState::Departed
                && o.people[x].department == department,
{
    lemma_finite_listing(o.people.dom());
    lemma_those_where(listing(o.people.dom()), member_but(o, department, except));
}

/// Who belongs to a unit and is employed, but for one person, in id order.
pub fn unit_members_other_than(view: &OrgView, department_id: &str, except: &str) -> (r: Vec<
    String,
>)
    requires
        view.wf(),
    ensures
        seen(r@) == members_but(view@, department_id@, except@),
{
    let ghost o = view@;
    let ghost q = view.people.ids();
    let ghost p = member_but(o, department_id@, except@);
    proof {
        view.people.lemma_listing();
    }
    let mut out: Vec<String> = Vec::new();
    let mut i: usize = 0;
    while i < view.people.keys.len()
        invariant
            i <= view.people.keys@.len(),
            view.wf(),
            o == view@,
            q == view.people.ids(),
            q == listing(o.people.dom()),
            p == member_but(o, department_id@, except@),
            seen(out@) == those_where(q.take(i as int), p),
        decreases view.people.keys@.len() - i,
    {
        proof {
            view.people.lemma_at(i as int);
            assert(q[i as int] == view.people.keys@[i as int]@);
            assert(q.take(i + 1).drop_last() =~= q.take(i as int));
            assert(q.take(i + 1).last() == q[i as int]);
        }
        let ghost before = seen(out@);
        let person = &view.people.values[i];
        if !same(view.people.keys[i].as_str(), except) && person.employment_state
            != EmploymentState::Departed && same(person.department_id.as_str(), department_id) {
            out.push(view.people.keys[i].clone());
            proof {
                assert(seen(out@) =~= before.push(q[i as int]));
            }
        }
        i = i + 1;
    }
    proof {
        assert(q.take(i as int) =~= q);
    }
    out
}

/// The units right beneath a unit, in id order.
pub fn child_department_ids(view: &OrgView, department_id: &str) -> (r: Vec<String>)
    requires
        view.wf(),
    ensures
        seen(r@) == children(view@.departments, department_id@),
{
    let ghost m = view@.departments;
    let ghost q = view.departments.ids();
    let ghost p = |d: Text| m[d].parent == Some(department_id@);
    proof {
        view.departments.lemma_listing();
    }
    let mut out: Vec<String> = Vec::new();
    let mut i: usize = 0;
    while i < view.departments.keys.len()
        invariant
            i <= view.departments.keys@.len(),
            view.wf(),
            m == view@.departments,
            q == view.departments.ids(),
            q == listing(m.dom()),
            p == (|d: Text| m[d].parent == Some(department_id@)),
            seen(out@) == those_where(q.take(i as int), p),
        decreases view.departments.keys@.len() - i,
    {
        proof {
            view.departments.lemma_at(i as int);
            assert(q[i as int] == view.departments.keys@[i as int]@);
            assert(q.take(i + 1).drop_last() =~= q.take(i as int));
            assert(q.take(i + 1).last() == q[i as int]);
        }
        let ghost before = seen(out@);
        let child = match &view.departments.values[i].parent_department_id {
            Some(parent) => same(parent.as_str(), department_id),
            None => false,
        };
        if child {
            out.push(view.departments.keys[i].clone());
            proof {
                assert(seen(out@) =~= before.push(q[i as int]));
            }
        }
        i = i + 1;
    }
    proof {
        assert(q.take(i as int) =~= q);
    }
    out
}

/// Whether somebody manages a unit. Executives reach the whole company; a head
/// reaches the unit it heads and everything beneath it; nobody else reaches
/// anything.
pub fn person_manages_department(
    view: &OrgView,
    requester_person_id: &str,
    department_id: &str,
) -> (r: bool)
    requires
        view.wf(),
    ensures
        r == manages(view@, requester_person_id@, department_id@),
{
    match view.people.get(requester_person_id) {
        Some(requester) => {
            if requester.employment_state == EmploymentState::Departed {
                return false;
            }
            if requester.kind == PersonKind::Executive {
                return true;
            }
            if requester.kind != PersonKind::Head {
                return false;
            }
            match department_headed_by_person(view, requester_person_id) {
                Some(top) => is_beneath(&view.departments, department_id, top),
                None => false,
            }
        },
        None => false,
    }
}

/// Whether somebody may create a unit right beneath `parent_department_id`:
/// more than management, because nothing that exists changes hands.
pub fn person_may_create_under_department(
    view: &OrgView,
    requester_person_id: &str,
    parent_department_id: &str,
) -> (r: bool)
    requires
        view.wf(),
    ensures
        r == may_create_under(view@, requester_person_id@, parent_department_id@),
{
    if person_manages_department(view, requester_person_id, parent_department_id) {
        return true;
    }
    match view.people.get(requester_person_id) {
        Some(requester) => {
            requester.employment_state != EmploymentState::Departed && department_headed_by_person(
                view,
                requester_person_id,
            ).is_none() && same(requester.department_id.as_str(), parent_department_id)
        },
        None => false,
    }
}

// ---------------------------------------------------------------------------
// From a manifest
// ---------------------------------------------------------------------------

/// What a manifest's unit comes to.
pub open spec fn unit_of(r: DepartmentRecordModel) -> UnitModel {
    UnitModel { parent: r.parent_department_id, head: r.head_person_id, state: r.state }
}

/// What a manifest's person comes to.
pub open spec fn member_of(r: PersonRecordModel) -> MemberModel {
    MemberModel { kind: r.kind, employment: r.employment_state, department: r.department_id }
}

/// The shape of a manifest.
pub open spec fn shape_of(m: ManifestModel) -> OrgModel {
    OrgModel {
        departments: m.departments.map_values(
            |r: DepartmentRecordModel| unit_of(r),
        ),
        people: m.people.map_values(|r: PersonRecordModel| member_of(r)),
    }
}

impl Default for OrgView {
    /// A company without units or people.
    fn default() -> (r: Self)
        ensures
            r.wf(),
            r@.departments == Map::<Text, UnitModel>::empty(),
            r@.people == Map::<Text, MemberModel>::empty(),
    {
        OrgView { departments: Table::new(), people: Table::new() }
    }
}

impl OrgView {
    /// One entry to an id.
    pub open spec fn wf(&self) -> bool {
        self.departments.wf() && self.people.wf()
    }

    /// The shape of a manifest.
    pub fn from_manifest(manifest: &OrganizationManifest) -> (r: Self)
        requires
            manifest.wf(),
        ensures
            r.wf(),
            r@ == shape_of(manifest@),
    {
        let mut values: Vec<UnitView> = Vec::new();
        let mut i: usize = 0;
        while i < manifest.departments.keys.len()
            invariant
                i <= manifest.departments.keys@.len(),
                manifest.wf(),
                values.len() == i,
                forall|j: int|
                    0 <= j < i ==> (#[trigger] values@[j])@ == unit_of(
                        manifest.departments.values@[j]@,
                    ),
            decreases manifest.departments.keys@.len() - i,
        {
            let department = &manifest.departments.values[i];
            values.push(
                UnitView {
                    parent_department_id: owned_opt(&department.parent_department_id),
                    head_person_id: department.head_person_id.clone(),
                    state: department.state,
                },
            );
            i = i + 1;
        }
        let departments = manifest.departments.with_values(
            values,
            Ghost(|r: DepartmentRecordModel| unit_of(r)),
        );
        let mut people_values: Vec<PersonView> = Vec::new();
        let mut k: usize = 0;
        while k < manifest.people.keys.len()
            invariant
                k <= manifest.people.keys@.len(),
                manifest.wf(),
                people_values.len() == k,
                forall|j: int|
                    0 <= j < k ==> (#[trigger] people_values@[j])@ == member_of(
                        manifest.people.values@[j]@,
                    ),
            decreases manifest.people.keys@.len() - k,
        {
            let person = &manifest.people.values[k];
            people_values.push(
                PersonView {
                    kind: person.kind,
                    employment_state: person.employment_state,
                    department_id: person.department_id.clone(),
                },
            );
            k = k + 1;
        }
        let people = manifest.people.with_values(
            people_values,
            Ghost(|r: PersonRecordModel| member_of(r)),
        );
        OrgView { departments, people }
    }
}

} // verus!
