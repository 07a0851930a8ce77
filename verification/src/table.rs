//! Rows keyed by id, kept in id order.

use vstd::prelude::*;

use crate::text::{
    lemma_seen_push, lemma_text_irreflexive, lemma_text_total, lemma_text_transitive, owned,
    owned_list, same, seen, text_before, text_lt, Text,
};

verus! {

/// Whether each id stands before the next.
pub open spec fn ascending(q: Seq<Text>) -> bool {
    forall|i: int, j: int| 0 <= i < j < q.len() ==> text_lt(#[trigger] q[i], #[trigger] q[j])
}

/// Whether `q` names every member of `s` once, in id order.
pub open spec fn lists(q: Seq<Text>, s: Set<Text>) -> bool {
    &&& ascending(q)
    &&& forall|t: Text| #[trigger] s.contains(t) <==> q.contains(t)
}

/// The members of a set of ids in id order.
pub open spec fn listing(s: Set<Text>) -> Seq<Text> {
    choose|q: Seq<Text>| lists(q, s)
}

/// A set of ids has at most one listing.
pub proof fn lemma_listing_unique(p: Seq<Text>, q: Seq<Text>, s: Set<Text>)
    requires
        lists(p, s),
        lists(q, s),
    ensures
        p == q,
    decreases p.len(),
{
    if p.len() == 0 {
        if q.len() > 0 {
            assert(q.contains(q[0]));
            assert(s.contains(q[0]));
            assert(p.contains(q[0]));
        }
        assert(p =~= q);
    } else {
        assert(p.contains(p.last()));
        assert(s.contains(p.last()));
        assert(q.contains(p.last()));
        let k = choose|k: int| 0 <= k < q.len() && q[k] == p.last();
        if k < q.len() - 1 {
            assert(text_lt(q[k], q[q.len() - 1]));
            assert(q.contains(q.last()));
            assert(s.contains(q.last()));
            assert(p.contains(q.last()));
            let m = choose|m: int| 0 <= m < p.len() && p[m] == q.last();
            if m < p.len() - 1 {
                assert(text_lt(p[m], p[p.len() - 1]));
                lemma_text_transitive(p.last(), q.last(), p.last());
            }
            lemma_text_irreflexive(p.last());
        }
        let x = p.last();
        let p0 = p.drop_last();
        let q0 = q.drop_last();
        let s0 = s.remove(x);
        assert forall|t: Text| #[trigger] s0.contains(t) <==> p0.contains(t) by {
            lemma_without_last(p, t);
        }
        assert forall|t: Text| #[trigger] s0.contains(t) <==> q0.contains(t) by {
            lemma_without_last(q, t);
        }
        lemma_listing_unique(p0, q0, s0);
        assert(p =~= p0.push(x));
        assert(q =~= q0.push(x));
    }
}

proof fn lemma_without_last(q: Seq<Text>, t: Text)
    requires
        ascending(q),
        q.len() > 0,
    ensures
        q.drop_last().contains(t) <==> q.contains(t) && t != q.last(),
{
    let r = q.drop_last();
    if r.contains(t) {
        let i = choose|i: int| 0 <= i < r.len() && r[i] == t;
        assert(q[i] == t);
        assert(text_lt(q[i], q[q.len() - 1]));
        lemma_text_irreflexive(t);
    }
    if q.contains(t) && t != q.last() {
        let i = choose|i: int| 0 <= i < q.len() && q[i] == t;
        assert(r[i] == t);
    }
}

/// A finite set of ids has a listing, which names nobody twice.
pub proof fn lemma_finite_listing(s: Set<Text>)
    requires
        s.finite(),
    ensures
        lists(listing(s), s),
        listing(s).no_duplicates(),
        listing(s).len() == s.len(),
{
    let q = lemma_listable(s);
    lemma_listing_unique(q, listing(s), s);
    assert forall|i: int, j: int| 0 <= i < q.len() && 0 <= j < q.len() && i != j implies q[i]
        != q[j] by {
        lemma_text_irreflexive(q[i]);
        if i < j {
            assert(text_lt(q[i], q[j]));
        } else {
            assert(text_lt(q[j], q[i]));
        }
    }
    q.unique_seq_to_set();
    assert(q.to_set() =~= s);
}

proof fn lemma_listable(s: Set<Text>) -> (q: Seq<Text>)
    requires
        s.finite(),
    ensures
        lists(q, s),
    decreases s.len(),
{
    if s.len() == 0 {
        assert(s =~= Set::empty());
        Seq::empty()
    } else {
        let x = s.choose();
        let p = lemma_listable(s.remove(x));
        let q = lemma_placed(p, x, p.len());
        assert forall|t: Text| #[trigger] s.contains(t) <==> q.contains(t) by {
            assert(s.remove(x).contains(t) <==> p.contains(t));
        }
        q
    }
}

/// `x` finds its place among the first `n` of `p`.
proof fn lemma_placed(p: Seq<Text>, x: Text, n: nat) -> (q: Seq<Text>)
    requires
        ascending(p),
        !p.contains(x),
        n <= p.len(),
        forall|i: int| n <= i < p.len() ==> text_lt(x, #[trigger] p[i]),
    ensures
        ascending(q),
        forall|t: Text| #[trigger] q.contains(t) <==> p.contains(t) || t == x,
    decreases n,
{
    if n > 0 && text_lt(x, p[n - 1]) {
        lemma_placed(p, x, (n - 1) as nat)
    } else {
        let q = p.insert(n as int, x);
        if n > 0 {
            assert(p.contains(p[n - 1]));
            lemma_text_total(x, p[n - 1]);
        }
        assert forall|i: int, j: int| 0 <= i < j < q.len() implies text_lt(
            #[trigger] q[i],
            #[trigger] q[j],
        ) by {
            if i < n && j == n {
                if i < n - 1 {
                    assert(text_lt(p[i], p[n - 1]));
                    lemma_text_transitive(p[i], p[n - 1], x);
                }
            } else if i == n {
                assert(q[j] == p[j - 1]);
            } else {
                let a = if i < n { i } else { i - 1 };
                let b = if j < n { j } else { j - 1 };
                assert(q[i] == p[a] && q[j] == p[b]);
                assert(text_lt(p[a], p[b]));
            }
        }
        assert forall|t: Text| #[trigger] q.contains(t) <==> p.contains(t) || t == x by {
            if p.contains(t) {
                let i = choose|i: int| 0 <= i < p.len() && p[i] == t;
                if i < n {
                    assert(q[i] == t);
                } else {
                    assert(q[i + 1] == t);
                }
            }
            if q.contains(t) {
                let i = choose|i: int| 0 <= i < q.len() && q[i] == t;
                if i < n {
                    assert(p[i] == t);
                } else if i > n {
                    assert(p[i - 1] == t);
                }
            }
            assert(q[n as int] == x);
        }
        q
    }
}

/// A value that can be copied whole.
pub trait Duplicate: View + Sized {
    /// A copy that reads the same.
    fn duplicate(&self) -> (r: Self)
        ensures
            r@ == self@,
    ;
}

impl Duplicate for String {
    fn duplicate(&self) -> (r: Self) {
        self.clone()
    }
}

/// Rows by id.
#[derive(Debug, Clone, PartialEq, Eq)]
pub struct Table<V> {
    /// The ids, in id order.
    pub keys: Vec<String>,
    /// The row of each id.
    pub values: Vec<V>,
}

impl<V: View> View for Table<V> {
    type V = Map<Text, V::V>;

    open spec fn view(&self) -> Map<Text, V::V> {
        Map::new(
            |k: Text| exists|i: int| 0 <= i < self.keys@.len() && #[trigger] self.keys@[i]@ == k,
            |k: Text| self.values@[self.place(k)]@,
        )
    }
}

impl<V> Table<V> {
    /// Where the row of an id stands.
    pub open spec fn place(&self, k: Text) -> int {
        choose|i: int| 0 <= i < self.keys@.len() && #[trigger] self.keys@[i]@ == k
    }

    /// One row to an id, and the ids in order.
    pub open spec fn wf(&self) -> bool {
        &&& self.keys@.len() == self.values@.len()
        &&& forall|i: int, j: int|
            0 <= i < j < self.keys@.len() ==> text_lt(
                #[trigger] self.keys@[i]@,
                #[trigger] self.keys@[j]@,
            )
    }

    /// The ids in order.
    pub open spec fn ids(&self) -> Seq<Text> {
        self.keys@.map_values(|k: String| k@)
    }

    proof fn lemma_place(&self, i: int)
        requires
            self.wf(),
            0 <= i < self.keys@.len(),
        ensures
            self.place(self.keys@[i]@) == i,
    {
        let j = self.place(self.keys@[i]@);
        assert(0 <= j < self.keys@.len() && self.keys@[j]@ == self.keys@[i]@);
        if i < j {
            assert(text_lt(self.keys@[i]@, self.keys@[j]@));
            lemma_text_irreflexive(self.keys@[i]@);
        } else if j < i {
            assert(text_lt(self.keys@[j]@, self.keys@[i]@));
            lemma_text_irreflexive(self.keys@[i]@);
        }
    }
}

impl<V: View> Table<V> {
    /// The row that stands at a place.
    pub proof fn lemma_at(&self, i: int)
        requires
            self.wf(),
            0 <= i < self.keys@.len(),
        ensures
            self@.dom().contains(self.keys@[i]@),
            self@[self.keys@[i]@] == self.values@[i]@,
    {
        self.lemma_place(i);
    }

    /// An id that no row has.
    proof fn lemma_absent(&self, k: Text)
        requires
            forall|i: int| 0 <= i < self.keys@.len() ==> #[trigger] self.keys@[i]@ != k,
        ensures
            !self@.dom().contains(k),
    {
    }

    /// Finitely many ids have rows.
    pub proof fn lemma_finite(&self)
        requires
            self.wf(),
        ensures
            self@.dom().finite(),
    {
        self.lemma_listing();
        assert(self@.dom() =~= self.ids().to_set());
        vstd::seq_lib::seq_to_set_is_finite(self.ids());
    }

    /// The ids of a table are the listing of its rows' ids.
    pub proof fn lemma_listing(&self)
        requires
            self.wf(),
        ensures
            lists(self.ids(), self@.dom()),
            self.ids() == listing(self@.dom()),
            self.ids().len() == self.keys@.len(),
    {
        let q = self.ids();
        assert forall|i: int, j: int| 0 <= i < j < q.len() implies text_lt(
            #[trigger] q[i],
            #[trigger] q[j],
        ) by {
            assert(q[i] == self.keys@[i]@);
            assert(q[j] == self.keys@[j]@);
        }
        assert forall|t: Text| #[trigger] self@.dom().contains(t) <==> q.contains(t) by {
            if self@.dom().contains(t) {
                let i = choose|i: int| 0 <= i < self.keys@.len() && #[trigger] self.keys@[i]@ == t;
                assert(q[i] == t);
            }
            if q.contains(t) {
                let i = choose|i: int| 0 <= i < q.len() && q[i] == t;
                assert(self.keys@[i]@ == t);
            }
        }
        assert(lists(q, self@.dom()));
        lemma_listing_unique(q, listing(self@.dom()), self@.dom());
    }

    /// A table without rows.
    pub fn new() -> (r: Self)
        ensures
            r.wf(),
            r@ == Map::<Text, V::V>::empty(),
    {
        let r = Table { keys: Vec::new(), values: Vec::new() };
        proof {
            assert(r@ =~= Map::<Text, V::V>::empty());
        }
        r
    }

    /// How many rows there are.
    pub fn len(&self) -> (r: usize)
        requires
            self.wf(),
        ensures
            r == listing(self@.dom()).len(),
    {
        proof {
            self.lemma_listing();
        }
        self.keys.len()
    }

    /// Where the row of an id stands, if there is one.
    pub fn find(&self, k: &str) -> (r: Option<usize>)
        requires
            self.wf(),
        ensures
            r is Some <==> self@.dom().contains(k@),
            match r {
                Some(i) => i < self.keys@.len() && i < self.values@.len() && self.keys@[i as int]@
                    == k@ && self@[k@] == self.values@[i as int]@,
                None => true,
            },
    {
        let mut i: usize = 0;
        while i < self.keys.len()
            invariant
                i <= self.keys.len(),
                self.wf(),
                forall|j: int| 0 <= j < i ==> #[trigger] self.keys@[j]@ != k@,
            decreases self.keys.len() - i,
        {
            if same(self.keys[i].as_str(), k) {
                proof {
                    self.lemma_at(i as int);
                }
                return Some(i);
            }
            i = i + 1;
        }
        proof {
            self.lemma_absent(k@);
        }
        None
    }

    /// The row of an id.
    pub fn get(&self, k: &str) -> (r: Option<&V>)
        requires
            self.wf(),
        ensures
            r is Some <==> self@.dom().contains(k@),
            match r {
                Some(v) => v@ == self@[k@],
                None => true,
            },
    {
        match self.find(k) {
            Some(i) => Some(&self.values[i]),
            None => None,
        }
    }

    /// Whether an id has a row.
    pub fn has(&self, k: &str) -> (r: bool)
        requires
            self.wf(),
        ensures
            r == self@.dom().contains(k@),
    {
        self.find(k).is_some()
    }

    /// Give an id this row, in place of the one it has.
    pub fn put(&mut self, k: &str, v: V)
        requires
            old(self).wf(),
        ensures
            final(self).wf(),
            final(self)@ == old(self)@.insert(k@, v@),
    {
        let ghost before = *self;
        let mut i: usize = 0;
        while i < self.keys.len() && text_before(self.keys[i].as_str(), k)
            invariant
                i <= self.keys.len(),
                *self == before,
                before.wf(),
                forall|j: int| 0 <= j < i ==> text_lt(#[trigger] self.keys@[j]@, k@),
            decreases self.keys.len() - i,
        {
            i = i + 1;
        }
        if i < self.keys.len() && same(self.keys[i].as_str(), k) {
            self.values.set(i, v);
            proof {
                assert(self.keys@ == before.keys@);
                assert(self.wf());
                before.lemma_at(i as int);
                self.lemma_at(i as int);
                let want = before@.insert(k@, v@);
                assert forall|t: Text| #[trigger] self@.dom().contains(t) implies self@[t]
                    == want[t] by {
                    let j = choose|j: int|
                        0 <= j < self.keys@.len() && #[trigger] self.keys@[j]@ == t;
                    self.lemma_at(j);
                    before.lemma_at(j);
                }
                assert(self@.dom() =~= want.dom());
                assert(self@ =~= want);
            }
        } else {
            self.keys.insert(i, owned(k));
            self.values.insert(i, v);
            proof {
                lemma_put(before, *self, i as int, k@, v);
            }
        }
    }

    /// Take the row of an id out.
    pub fn take_out(&mut self, k: &str)
        requires
            old(self).wf(),
        ensures
            final(self).wf(),
            final(self)@ == old(self)@.remove(k@),
    {
        let ghost before = *self;
        match self.find(k) {
            Some(i) => {
                let _ = self.keys.remove(i);
                let _ = self.values.remove(i);
                proof {
                    lemma_take_out(before, *self, i as int);
                }
            },
            None => {
                proof {
                    assert(before@.remove(k@) =~= before@);
                }
            },
        }
    }

    /// A table of the same ids, each with a value made of its row.
    pub(crate) fn with_values<W: View>(&self, values: Vec<W>, Ghost(f): Ghost<
        spec_fn(V::V) -> W::V,
    >) -> (r: Table<W>)
        requires
            self.wf(),
            values@.len() == self.keys@.len(),
            forall|i: int|
                0 <= i < values@.len() ==> (#[trigger] values@[i])@ == f(self.values@[i]@),
        ensures
            r.wf(),
            r@ == self@.map_values(f),
    {
        let r = Table { keys: owned_list(&self.keys), values };
        proof {
            assert(r.keys@.len() == seen(r.keys@).len());
            assert(self.keys@.len() == seen(self.keys@).len());
            assert forall|i: int| 0 <= i < self.keys@.len() implies #[trigger] r.keys@[i]@
                == self.keys@[i]@ by {
                assert(seen(r.keys@)[i] == r.keys@[i]@);
                assert(seen(self.keys@)[i] == self.keys@[i]@);
            }
            assert(r.wf());
            assert forall|t: Text| #[trigger] r@.dom().contains(t) <==> self@.dom().contains(t) by {
                if r@.dom().contains(t) {
                    let i = choose|i: int| 0 <= i < r.keys@.len() && #[trigger] r.keys@[i]@ == t;
                    assert(self.keys@[i]@ == t);
                }
                if self@.dom().contains(t) {
                    let i = choose|i: int|
                        0 <= i < self.keys@.len() && #[trigger] self.keys@[i]@ == t;
                    assert(r.keys@[i]@ == t);
                }
            }
            assert forall|t: Text| #[trigger] r@.dom().contains(t) implies r@[t]
                == self@.map_values(f)[t] by {
                let i = choose|i: int| 0 <= i < r.keys@.len() && #[trigger] r.keys@[i]@ == t;
                r.lemma_at(i);
                self.lemma_at(i);
            }
            assert(r@ =~= self@.map_values(f));
        }
        r
    }

    /// The ids in order.
    pub fn list(&self) -> (r: Vec<String>)
        requires
            self.wf(),
        ensures
            seen(r@) == listing(self@.dom()),
    {
        proof {
            self.lemma_listing();
            assert(self.ids() =~= seen(self.keys@));
        }
        owned_list(&self.keys)
    }
}

/// A copy of every value of a list.
pub fn copy_list<T: Duplicate>(v: &Vec<T>) -> (r: Vec<T>)
    ensures
        seen(r@) == seen(v@),
{
    let mut out: Vec<T> = Vec::new();
    let mut i: usize = 0;
    while i < v.len()
        invariant
            i <= v@.len(),
            seen(out@) == seen(v@).take(i as int),
        decreases v@.len() - i,
    {
        let x = v[i].duplicate();
        proof {
            lemma_seen_push(out@, x);
            assert(seen(v@).take(i + 1) =~= seen(v@).take(i as int).push(
                v@[i as int]@,
            ));
        }
        out.push(x);
        i = i + 1;
    }
    proof {
        assert(seen(v@).take(i as int) =~= seen(v@));
    }
    out
}

impl<V: Duplicate> Table<V> {
    /// A copy of every row.
    pub fn copy_all(&self) -> (r: Self)
        requires
            self.wf(),
        ensures
            r.wf(),
            r@ == self@,
    {
        let mut keys: Vec<String> = Vec::new();
        let mut values: Vec<V> = Vec::new();
        let mut i: usize = 0;
        while i < self.keys.len()
            invariant
                i <= self.keys.len(),
                self.wf(),
                keys.len() == i,
                values.len() == i,
                forall|j: int| 0 <= j < i ==> keys@[j] == self.keys@[j],
                forall|j: int| 0 <= j < i ==> values@[j]@ == self.values@[j]@,
            decreases self.keys.len() - i,
        {
            keys.push(self.keys[i].clone());
            values.push(self.values[i].duplicate());
            i = i + 1;
        }
        let r = Table { keys, values };
        proof {
            assert(r.keys@ =~= self.keys@);
            assert(r.wf());
            assert(r@.dom() =~= self@.dom());
            assert forall|t: Text| #[trigger] r@.dom().contains(t) implies r@[t] == self@[t] by {
                let j = choose|j: int| 0 <= j < r.keys@.len() && #[trigger] r.keys@[j]@ == t;
                r.lemma_at(j);
                self.lemma_at(j);
            }
            assert(r@ =~= self@);
        }
        r
    }
}

proof fn lemma_put<V: View>(before: Table<V>, after: Table<V>, i: int, k: Text, v: V)
    requires
        before.wf(),
        0 <= i <= before.keys@.len(),
        forall|j: int| 0 <= j < i ==> text_lt(#[trigger] before.keys@[j]@, k),
        i < before.keys@.len() ==> !text_lt(before.keys@[i]@, k) && before.keys@[i]@ != k,
        after.keys@.len() == before.keys@.len() + 1,
        after.keys@[i]@ == k,
        forall|j: int| 0 <= j < i ==> after.keys@[j] == before.keys@[j],
        forall|j: int| i < j < after.keys@.len() ==> after.keys@[j] == before.keys@[j - 1],
        after.values@ == before.values@.insert(i, v),
    ensures
        after.wf(),
        after@ == before@.insert(k, v@),
{
    if i < before.keys@.len() {
        lemma_text_total(before.keys@[i]@, k);
    }
    assert forall|a: int, b: int| 0 <= a < b < after.keys@.len() implies text_lt(
        #[trigger] after.keys@[a]@,
        #[trigger] after.keys@[b]@,
    ) by {
        let x: int = if a < i { a } else { a - 1 };
        let y: int = if b < i { b } else { b - 1 };
        if a != i && b != i {
            assert(text_lt(before.keys@[x]@, before.keys@[y]@));
        } else if a == i {
            assert(after.keys@[b]@ == before.keys@[y]@);
            if y > i {
                assert(text_lt(before.keys@[i]@, before.keys@[y]@));
                lemma_text_transitive(k, before.keys@[i]@, before.keys@[y]@);
            }
        } else {
            assert(after.keys@[a]@ == before.keys@[a]@);
        }
    }
    let want = before@.insert(k, v@);
    assert forall|t: Text| #[trigger] after@.dom().contains(t) <==> want.dom().contains(t) by {
        if after@.dom().contains(t) {
            let j = choose|j: int| 0 <= j < after.keys@.len() && #[trigger] after.keys@[j]@ == t;
            if j < i {
                assert(before.keys@[j]@ == t);
            } else if j > i {
                assert(before.keys@[j - 1]@ == t);
            }
        }
        if want.dom().contains(t) && t != k {
            let j = choose|j: int| 0 <= j < before.keys@.len() && #[trigger] before.keys@[j]@ == t;
            if j < i {
                assert(after.keys@[j]@ == t);
            } else {
                assert(after.keys@[j + 1]@ == t);
            }
        }
        if t == k {
            assert(after.keys@[i]@ == t);
        }
    }
    assert forall|t: Text| #[trigger] after@.dom().contains(t) implies after@[t] == want[t] by {
        let j = choose|j: int| 0 <= j < after.keys@.len() && #[trigger] after.keys@[j]@ == t;
        after.lemma_at(j);
        if j < i {
            before.lemma_at(j);
            assert(text_lt(before.keys@[j]@, k));
            lemma_text_irreflexive(k);
        } else if j > i {
            before.lemma_at(j - 1);
            assert(text_lt(after.keys@[i]@, after.keys@[j]@));
            lemma_text_irreflexive(k);
        }
    }
    assert(after@.dom() =~= want.dom());
    assert(after@ =~= want);
}

proof fn lemma_take_out<V: View>(before: Table<V>, after: Table<V>, i: int)
    requires
        before.wf(),
        0 <= i < before.keys@.len(),
        after.keys@ == before.keys@.remove(i),
        after.values@ == before.values@.remove(i),
    ensures
        after.wf(),
        after@ == before@.remove(before.keys@[i]@),
{
    let k = before.keys@[i]@;
    assert forall|a: int, b: int| 0 <= a < b < after.keys@.len() implies text_lt(
        #[trigger] after.keys@[a]@,
        #[trigger] after.keys@[b]@,
    ) by {
        let x: int = if a < i { a } else { a + 1 };
        let y: int = if b < i { b } else { b + 1 };
        assert(text_lt(before.keys@[x]@, before.keys@[y]@));
    }
    let want = before@.remove(k);
    assert forall|t: Text| #[trigger] after@.dom().contains(t) <==> want.dom().contains(t) by {
        if after@.dom().contains(t) {
            let j = choose|j: int| 0 <= j < after.keys@.len() && #[trigger] after.keys@[j]@ == t;
            let x: int = if j < i { j } else { j + 1 };
            before.lemma_at(x);
            before.lemma_at(i);
            if x < i {
                assert(text_lt(before.keys@[x]@, before.keys@[i]@));
            } else {
                assert(text_lt(before.keys@[i]@, before.keys@[x]@));
            }
            lemma_text_irreflexive(k);
        }
        if want.dom().contains(t) {
            let j = choose|j: int| 0 <= j < before.keys@.len() && #[trigger] before.keys@[j]@ == t;
            let x: int = if j < i { j } else { j - 1 };
            assert(after.keys@[x]@ == t);
        }
    }
    assert forall|t: Text| #[trigger] after@.dom().contains(t) implies after@[t] == want[t] by {
        let j = choose|j: int| 0 <= j < after.keys@.len() && #[trigger] after.keys@[j]@ == t;
        let x: int = if j < i { j } else { j + 1 };
        after.lemma_at(j);
        before.lemma_at(x);
    }
    assert(after@.dom() =~= want.dom());
    assert(after@ =~= want);
}

} // verus!
