//! Putting ids in order by keys of numbers.

use vstd::prelude::*;

use crate::text::{seen, Text};

verus! {

/// The key an id is ordered by.
pub type Key = Seq<u64>;

/// Number by number order of keys, a shorter key before what it is the front
/// of.
pub open spec fn key_lt(a: Key, b: Key) -> bool
    decreases a.len(),
{
    if b.len() == 0 {
        false
    } else if a.len() == 0 {
        true
    } else if a[0] != b[0] {
        a[0] < b[0]
    } else {
        key_lt(a.drop_first(), b.drop_first())
    }
}

/// No key stands before itself.
pub proof fn lemma_key_irreflexive(a: Key)
    ensures
        !key_lt(a, a),
    decreases a.len(),
{
    if a.len() > 0 {
        lemma_key_irreflexive(a.drop_first());
    }
}

/// The order of keys chains.
pub proof fn lemma_key_transitive(a: Key, b: Key, c: Key)
    requires
        key_lt(a, b),
        key_lt(b, c),
    ensures
        key_lt(a, c),
    decreases a.len(),
{
    if a.len() > 0 && a[0] == b[0] && b[0] == c[0] {
        lemma_key_transitive(a.drop_first(), b.drop_first(), c.drop_first());
    }
}

/// Of two different keys one stands before the other.
pub proof fn lemma_key_total(a: Key, b: Key)
    ensures
        a == b || key_lt(a, b) || key_lt(b, a),
    decreases a.len(),
{
    if a.len() > 0 && b.len() > 0 && a[0] == b[0] {
        lemma_key_total(a.drop_first(), b.drop_first());
        if a.drop_first() == b.drop_first() {
            assert(a =~= seq![a[0]] + a.drop_first());
            assert(b =~= seq![b[0]] + b.drop_first());
        }
    } else if a.len() == 0 && b.len() == 0 {
        assert(a =~= b);
    }
}

/// What stands before a key also stands before everything not before the key.
proof fn lemma_key_through(a: Key, b: Key, c: Key)
    requires
        key_lt(a, b),
        !key_lt(c, b),
    ensures
        key_lt(a, c),
{
    lemma_key_total(b, c);
    if key_lt(b, c) {
        lemma_key_transitive(a, b, c);
    }
}

/// An ordered list with one more id: behind everything whose key is not
/// greater.
pub open spec fn with_inserted(s: Seq<Text>, x: Text, key: spec_fn(Text) -> Key) -> Seq<Text>
    decreases s.len(),
{
    if s.len() > 0 && key_lt(key(x), key(s.last())) {
        with_inserted(s.drop_last(), x, key).push(s.last())
    } else {
        s.push(x)
    }
}

/// The ids of a list in the order of their keys; ids with the same key keep
/// their order.
pub open spec fn sorted(q: Seq<Text>, key: spec_fn(Text) -> Key) -> Seq<Text>
    decreases q.len(),
{
    if q.len() == 0 {
        q
    } else {
        with_inserted(sorted(q.drop_last(), key), q.last(), key)
    }
}

/// Whether no id of a list stands behind one with a greater key.
pub open spec fn in_order(s: Seq<Text>, key: spec_fn(Text) -> Key) -> bool {
    forall|i: int, j: int|
        0 <= i < j < s.len() ==> !key_lt(key(#[trigger] s[j]), key(#[trigger] s[i]))
}

proof fn lemma_with_inserted(s: Seq<Text>, x: Text, key: spec_fn(Text) -> Key)
    requires
        in_order(s, key),
    ensures
        in_order(with_inserted(s, x, key), key),
        with_inserted(s, x, key).len() == s.len() + 1,
        forall|t: Text| #[trigger]
            with_inserted(s, x, key).contains(t) <==> s.contains(t) || t == x,
        s.no_duplicates() && !s.contains(x) ==> with_inserted(s, x, key).no_duplicates(),
    decreases s.len(),
{
    let r = with_inserted(s, x, key);
    if s.len() > 0 && key_lt(key(x), key(s.last())) {
        let s0 = s.drop_last();
        let r0 = with_inserted(s0, x, key);
        assert(in_order(s0, key));
        lemma_with_inserted(s0, x, key);
        assert forall|i: int, j: int| 0 <= i < j < r.len() implies !key_lt(
            key(#[trigger] r[j]),
            key(#[trigger] r[i]),
        ) by {
            if j == r.len() - 1 {
                assert(r0.contains(r0[i]));
                if r0[i] == x {
                    if key_lt(key(s.last()), key(x)) {
                        lemma_key_transitive(key(x), key(s.last()), key(x));
                        lemma_key_irreflexive(key(x));
                    }
                } else {
                    let k = choose|k: int| 0 <= k < s0.len() && s0[k] == r0[i];
                    assert(!key_lt(key(s[s.len() - 1]), key(s[k])));
                }
            }
        }
        assert forall|t: Text| #[trigger] r.contains(t) <==> s.contains(t) || t == x by {
            if r.contains(t) {
                let i = choose|i: int| 0 <= i < r.len() && r[i] == t;
                if i < r0.len() {
                    assert(r0.contains(t));
                    if t != x {
                        let k = choose|k: int| 0 <= k < s0.len() && s0[k] == t;
                        assert(s[k] == t);
                    }
                } else {
                    assert(s[s.len() - 1] == t);
                }
            }
            if s.contains(t) || t == x {
                if s.contains(t) && t != s.last() {
                    let k = choose|k: int| 0 <= k < s.len() && s[k] == t;
                    assert(s0[k] == t);
                }
                if t != s.last() || t == x {
                    assert(r0.contains(t));
                    let i = choose|i: int| 0 <= i < r0.len() && r0[i] == t;
                    assert(r[i] == t);
                } else {
                    assert(r[r.len() - 1] == t);
                }
            }
        }
        if s.no_duplicates() && !s.contains(x) {
            assert(s0.no_duplicates());
            assert(!s0.contains(x)) by {
                if s0.contains(x) {
                    let k = choose|k: int| 0 <= k < s0.len() && s0[k] == x;
                    assert(s[k] == x);
                }
            }
            assert(!r0.contains(s.last())) by {
                if r0.contains(s.last()) {
                    assert(s.contains(s.last()));
                    let k = choose|k: int| 0 <= k < s0.len() && s0[k] == s.last();
                    assert(s[k] == s[s.len() - 1]);
                }
            }
            assert forall|i: int, j: int| 0 <= i < r.len() && 0 <= j < r.len() && i
                != j implies r[i] != r[j] by {
                if i == r.len() - 1 {
                    assert(r0.contains(r0[j]));
                } else if j == r.len() - 1 {
                    assert(r0.contains(r0[i]));
                }
            }
        }
    } else {
        assert forall|i: int, j: int| 0 <= i < j < r.len() implies !key_lt(
            key(#[trigger] r[j]),
            key(#[trigger] r[i]),
        ) by {
            if j == r.len() - 1 && key_lt(key(x), key(s[i])) {
                if i < s.len() - 1 {
                    assert(!key_lt(key(s[s.len() - 1]), key(s[i])));
                    lemma_key_through(key(x), key(s[i]), key(s.last()));
                }
            }
        }
        assert forall|t: Text| #[trigger] r.contains(t) <==> s.contains(t) || t == x by {
            if r.contains(t) {
                let i = choose|i: int| 0 <= i < r.len() && r[i] == t;
                if i < s.len() {
                    assert(s[i] == t);
                }
            }
            if s.contains(t) {
                let i = choose|i: int| 0 <= i < s.len() && s[i] == t;
                assert(r[i] == t);
            }
            assert(r[s.len() as int] == x);
        }
    }
}

/// Ordering a list keeps its members and puts them in the order of their keys.
pub proof fn lemma_sorted(q: Seq<Text>, key: spec_fn(Text) -> Key)
    ensures
        in_order(sorted(q, key), key),
        sorted(q, key).len() == q.len(),
        forall|t: Text| #[trigger] sorted(q, key).contains(t) <==> q.contains(t),
        q.no_duplicates() ==> sorted(q, key).no_duplicates(),
    decreases q.len(),
{
    if q.len() > 0 {
        let q0 = q.drop_last();
        lemma_sorted(q0, key);
        lemma_with_inserted(sorted(q0, key), q.last(), key);
        assert forall|t: Text| #[trigger] sorted(q, key).contains(t) <==> q.contains(t) by {
            if q.contains(t) && t != q.last() {
                let i = choose|i: int| 0 <= i < q.len() && q[i] == t;
                assert(q0[i] == t);
            }
            if q0.contains(t) {
                let i = choose|i: int| 0 <= i < q0.len() && q0[i] == t;
                assert(q[i] == t);
            }
            if t == q.last() {
                assert(q[q.len() - 1] == t);
            }
        }
        if q.no_duplicates() {
            assert(!q0.contains(q.last())) by {
                if q0.contains(q.last()) {
                    let i = choose|i: int| 0 <= i < q0.len() && q0[i] == q.last();
                    assert(q[i] == q[q.len() - 1]);
                }
            }
        }
    }
}

proof fn lemma_inserted_at(s: Seq<Text>, x: Text, key: spec_fn(Text) -> Key, at: int)
    requires
        0 <= at <= s.len(),
        forall|j: int| at <= j < s.len() ==> key_lt(key(x), key(#[trigger] s[j])),
        at > 0 ==> !key_lt(key(x), key(s[at - 1])),
    ensures
        with_inserted(s, x, key) == s.insert(at, x),
    decreases s.len(),
{
    if at < s.len() {
        let s0 = s.drop_last();
        assert(key_lt(key(x), key(s[s.len() - 1])));
        lemma_inserted_at(s0, x, key, at);
        assert(s0.insert(at, x).push(s.last()) =~= s.insert(at, x));
    } else {
        assert(s.insert(at, x) =~= s.push(x));
    }
}

/// Whether one key stands before another.
pub fn key_before(a: &Vec<u64>, b: &Vec<u64>) -> (r: bool)
    ensures
        r == key_lt(a@, b@),
{
    let mut i: usize = 0;
    proof {
        assert(a@.skip(0) =~= a@);
        assert(b@.skip(0) =~= b@);
    }
    loop
        invariant
            i <= a@.len(),
            i <= b@.len(),
            key_lt(a@, b@) == key_lt(a@.skip(i as int), b@.skip(i as int)),
        decreases a@.len() - i,
    {
        if i >= b.len() {
            return false;
        }
        if i >= a.len() {
            return true;
        }
        if a[i] != b[i] {
            return a[i] < b[i];
        }
        proof {
            assert(a@.skip(i as int).drop_first() =~= a@.skip(i + 1));
            assert(b@.skip(i as int).drop_first() =~= b@.skip(i + 1));
        }
        i = i + 1;
    }
}

fn copy_key(k: &Vec<u64>) -> (r: Vec<u64>)
    ensures
        r@ == k@,
{
    let mut out: Vec<u64> = Vec::new();
    let mut i: usize = 0;
    while i < k.len()
        invariant
            i <= k@.len(),
            out@ == k@.take(i as int),
        decreases k@.len() - i,
    {
        out.push(k[i]);
        proof {
            assert(out@ =~= k@.take(i + 1));
        }
        i = i + 1;
    }
    proof {
        assert(k@.take(i as int) =~= k@);
    }
    out
}

/// The ids in the order of their keys.
pub fn sort_by_keys(
    ids: &Vec<String>,
    keys: &Vec<Vec<u64>>,
    Ghost(key): Ghost<spec_fn(Text) -> Key>,
) -> (r: Vec<String>)
    requires
        keys@.len() == ids@.len(),
        forall|i: int| 0 <= i < ids@.len() ==> (#[trigger] keys@[i])@ == key(ids@[i]@),
    ensures
        seen(r@) == sorted(seen(ids@), key),
{
    let ghost q = seen(ids@);
    let mut out: Vec<String> = Vec::new();
    let mut out_keys: Vec<Vec<u64>> = Vec::new();
    let mut i: usize = 0;
    while i < ids.len()
        invariant
            i <= ids@.len(),
            q == seen(ids@),
            keys@.len() == ids@.len(),
            forall|j: int| 0 <= j < ids@.len() ==> (#[trigger] keys@[j])@ == key(ids@[j]@),
            out@.len() == i,
            out_keys@.len() == i,
            seen(out@) == sorted(q.take(i as int), key),
            forall|j: int| 0 <= j < i ==> (#[trigger] out_keys@[j])@ == key(out@[j]@),
        decreases ids@.len() - i,
    {
        let ghost s = seen(out@);
        let ghost x = ids@[i as int]@;
        let mut at: usize = i;
        while at > 0 && key_before(&keys[i], &out_keys[at - 1])
            invariant
                at <= i < ids@.len(),
                keys@.len() == ids@.len(),
                out@.len() == i,
                out_keys@.len() == i,
                s == seen(out@),
                keys@[i as int]@ == key(x),
                forall|j: int| 0 <= j < i ==> (#[trigger] out_keys@[j])@ == key(out@[j]@),
                forall|j: int| at <= j < s.len() ==> key_lt(key(x), key(#[trigger] s[j])),
            decreases at,
        {
            proof {
                assert(s[at - 1] == out@[at - 1]@);
            }
            at = at - 1;
        }
        let ghost before = out_keys@;
        let ghost out_before = out@;
        out.insert(at, ids[i].clone());
        out_keys.insert(at, copy_key(&keys[i]));
        proof {
            if at > 0 {
                assert(s[at - 1] == out_before[at - 1]@);
                assert(before[at - 1]@ == key(out_before[at - 1]@));
            }
            lemma_inserted_at(s, x, key, at as int);
            assert(seen(out@) =~= s.insert(at as int, x));
            assert(q.take(i + 1).drop_last() =~= q.take(i as int));
            assert(q.take(i + 1).last() == x);
            assert forall|j: int| 0 <= j < i + 1 implies (#[trigger] out_keys@[j])@ == key(
                out@[j]@,
            ) by {
                if j < at {
                    assert(out_keys@[j] == before[j]);
                } else if j > at {
                    assert(out_keys@[j] == before[j - 1]);
                }
            }
        }
        i = i + 1;
    }
    proof {
        assert(q.take(i as int) =~= q);
    }
    out
}

} // verus!
