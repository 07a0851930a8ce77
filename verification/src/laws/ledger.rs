//! The ledger of transitions: what every decision keeps of it.

use vstd::prelude::*;

use crate::company::{CompanyModel, TransitionAction, TransitionModel, TransitionStatus};
use crate::org_view::{first_where, lemma_first_where};
use crate::rows::ledger::transition_id;
use crate::table::{lemma_finite_listing, listing};
use crate::text::{decimal, digit, Text};

verus! {

/// Whether nobody has two open transitions.
pub open spec fn one_open(c: CompanyModel) -> bool {
    forall|s: Text, t: Text|
        #![trigger c.transitions.dom().contains(s), c.transitions.dom().contains(t)]
        c.transitions.dom().contains(s) && c.transitions.dom().contains(t)
            && c.transitions[s].status.open() && c.transitions[t].status.open()
            && c.transitions[s].person_id == c.transitions[t].person_id ==> s == t
}

/// Whether whatever somebody's activity points at is a transition of theirs
/// that was not cancelled.
pub open spec fn pointers_stand(c: CompanyModel) -> bool {
    forall|p: Text| #[trigger]
        c.activity.dom().contains(p) ==> (c.activity[p].active_transition_id matches Some(t)
            ==> points(c, p, t))
}

/// Whether a transition may stand under somebody's activity.
pub open spec fn points(c: CompanyModel, p: Text, t: Text) -> bool {
    &&& c.transitions.dom().contains(t)
    &&& c.transitions[t].person_id == p
    &&& c.transitions[t].status != TransitionStatus::Cancelled
}

/// Whether no transition carries a number that has not been given out.
pub open spec fn ids_counted(c: CompanyModel) -> bool {
    forall|n: nat, p: Text, a: TransitionAction|
        c.transitions.dom().contains(#[trigger] transition_id(n, p, a)) ==> n <= c.transition_seq
}

/// Whether the ledger is sound: nobody has two open transitions, whatever
/// somebody's activity points at is theirs and stands, and the next number is
/// free.
pub open spec fn ledgered(c: CompanyModel) -> bool {
    one_open(c) && pointers_stand(c) && ids_counted(c)
}

/// Whether a transition is as it was, or was open and has been cancelled.
pub open spec fn same_or_cancelled(a: TransitionModel, b: TransitionModel) -> bool {
    ||| b == a
    ||| a.status.open() && b == TransitionModel {
        status: TransitionStatus::Cancelled,
        reason: b.reason,
        cancelled_at: b.cancelled_at,
        ..a
    }
}

/// Whether every transition of `a` is in `b`, as it was or cancelled where it
/// was open.
pub open spec fn carried(a: CompanyModel, b: CompanyModel) -> bool {
    forall|t: Text| #[trigger]
        a.transitions.dom().contains(t) ==> b.transitions.dom().contains(t) && same_or_cancelled(
            a.transitions[t],
            b.transitions[t],
        )
}

/// Whether somebody has no open transition.
pub open spec fn none_open(c: CompanyModel, person: Text) -> bool {
    forall|t: Text| #[trigger]
        c.transitions.dom().contains(t) && c.transitions[t].person_id == person
            ==> !c.transitions[t].status.open()
}

// ---------------------------------------------------------------------------
// Numbers and ids
// ---------------------------------------------------------------------------

/// A number written in decimal is all digits, and no two numbers are written
/// alike.
proof fn lemma_decimal(n: nat)
    ensures
        decimal(n).len() > 0,
        forall|i: int| 0 <= i < decimal(n).len() ==> '0' <= #[trigger] decimal(n)[i] <= '9',
    decreases n,
{
    if n >= 10 {
        lemma_decimal(n / 10);
    }
}

proof fn lemma_digit(m: nat, n: nat)
    requires
        m < 10,
        n < 10,
        digit(m) == digit(n),
    ensures
        m == n,
{
}

proof fn lemma_decimal_one(m: nat, n: nat)
    requires
        decimal(m) == decimal(n),
    ensures
        m == n,
    decreases m,
{
    lemma_decimal(m);
    lemma_decimal(n);
    if m < 10 && n < 10 {
        assert(decimal(m)[0] == digit(m) && decimal(n)[0] == digit(n));
        lemma_digit(m, n);
    } else if m >= 10 && n >= 10 {
        let a = decimal(m / 10);
        let b = decimal(n / 10);
        assert(decimal(m).last() == digit(m % 10));
        assert(decimal(n).last() == digit(n % 10));
        lemma_digit(m % 10, n % 10);
        assert(a =~= decimal(m).drop_last());
        assert(b =~= decimal(n).drop_last());
        lemma_decimal_one(m / 10, n / 10);
    } else if m < 10 {
        lemma_decimal(n / 10);
        assert(decimal(n).len() == decimal(n / 10).len() + 1);
        assert(decimal(m).len() == 1);
    } else {
        lemma_decimal(m / 10);
        assert(decimal(m).len() == decimal(m / 10).len() + 1);
        assert(decimal(n).len() == 1);
    }
}

/// Transitions that carry different numbers have different ids.
pub proof fn law_transition_ids_differ(
    m: nat,
    p: Text,
    a: TransitionAction,
    n: nat,
    q: Text,
    b: TransitionAction,
)
    requires
        m != n,
    ensures
        transition_id(m, p, a) != transition_id(n, q, b),
{
    reveal_strlit(":");
    let x = transition_id(m, p, a);
    let y = transition_id(n, q, b);
    if x == y {
        let k = "transition:"@.len() as int;
        lemma_decimal(m);
        lemma_decimal(n);
        let u = decimal(m);
        let v = decimal(n);
        assert forall|i: int| 0 <= i < u.len() implies x[k + i] == u[i] by {}
        assert forall|i: int| 0 <= i < v.len() implies y[k + i] == v[i] by {}
        assert(x[k + u.len()] == ':');
        assert(y[k + v.len()] == ':');
        if u.len() < v.len() {
            assert('0' <= v[u.len() as int] <= '9');
        } else if v.len() < u.len() {
            assert('0' <= u[v.len() as int] <= '9');
        } else {
            assert(u =~= v) by {
                assert forall|i: int| 0 <= i < u.len() implies u[i] == v[i] by {
                    assert(x[k + i] == u[i]);
                    assert(y[k + i] == v[i]);
                }
            }
            lemma_decimal_one(m, n);
        }
    }
}

/// Where every number beyond the last is free, no decision fails for the id of
/// a transition it makes.
pub proof fn law_numbers_are_free(
    c: CompanyModel,
    person: Text,
    action: TransitionAction,
    department: Text,
)
    requires
        ids_counted(c),
    ensures
        !c.next_taken(person, action),
        !c.pause_breaks(department),
{
}

/// The next id is free.
pub proof fn lemma_next_is_free(c: CompanyModel, person: Text, action: TransitionAction)
    requires
        ids_counted(c),
    ensures
        !c.transitions.dom().contains(c.next_transition_id(person, action)),
{
}

// ---------------------------------------------------------------------------
// Single changes
// ---------------------------------------------------------------------------

/// What leaves the ledger alone keeps it sound.
pub proof fn lemma_ledger_same(a: CompanyModel, b: CompanyModel)
    requires
        a.transitions == b.transitions,
        a.activity == b.activity,
        a.transition_seq == b.transition_seq,
    ensures
        ledgered(a) ==> ledgered(b),
        carried(a, b),
{
}

/// What happens to the ledger on the way happens to it.
pub proof fn lemma_carried_through(a: CompanyModel, b: CompanyModel, c: CompanyModel)
    requires
        carried(a, b),
        carried(b, c),
    ensures
        carried(a, c),
{
    assert forall|t: Text| #[trigger] a.transitions.dom().contains(t) implies
        c.transitions.dom().contains(t) && same_or_cancelled(
        a.transitions[t],
        c.transitions[t],
    ) by {
        assert(b.transitions.dom().contains(t));
    }
}

/// The open transition of somebody, if there is one.
pub proof fn lemma_open_transition(c: CompanyModel, person: Text)
    requires
        c.finite(),
    ensures
        match c.open_transition(person) {
            Some(t) => c.transitions.dom().contains(t) && c.transitions[t].person_id == person
                && c.transitions[t].status.open(),
            None => none_open(c, person),
        },
{
    let q = listing(c.transitions.dom());
    let f = |t: Text| c.transitions[t].person_id == person && c.transitions[t].status.open();
    lemma_finite_listing(c.transitions.dom());
    lemma_first_where(q, f);
    assert(c.open_transition(person) == first_where(q, f));
    match c.open_transition(person) {
        Some(t) => {
            assert(q.contains(t));
            assert(c.transitions.dom().contains(t));
        },
        None => {
            assert forall|t: Text| #[trigger]
                c.transitions.dom().contains(t) && c.transitions[t].person_id == person implies
                !c.transitions[t].status.open() by {
                assert(q.contains(t));
                let i = choose|i: int| 0 <= i < q.len() && q[i] == t;
                assert(!f(q[i]));
            }
        },
    }
}

/// The ready transition of somebody, if there is one.
pub proof fn lemma_ready_transition(c: CompanyModel, person: Text, action: TransitionAction)
    requires
        c.finite(),
    ensures
        match c.ready_transition(person, action) {
            Some(t) => c.transitions.dom().contains(t) && c.transitions[t].person_id == person
                && c.transitions[t].action == action && c.transitions[t].status
                == TransitionStatus::Ready,
            None => true,
        },
{
    let q = listing(c.transitions.dom());
    let f = |t: Text|
        c.transitions[t].person_id == person && c.transitions[t].action == action
            && c.transitions[t].status == TransitionStatus::Ready;
    lemma_finite_listing(c.transitions.dom());
    lemma_first_where(q, f);
    assert(c.ready_transition(person, action) == first_where(q, f));
    if let Some(t) = c.ready_transition(person, action) {
        assert(q.contains(t));
        assert(c.transitions.dom().contains(t));
    }
}

/// Cancelling an open transition and letting go of it keeps the ledger sound.
pub proof fn lemma_cancelled(c: CompanyModel, b: CompanyModel, person: Text, id: Text)
    requires
        ledgered(c),
        c.transitions.dom().contains(id),
        c.transitions[id].person_id == person,
        c.transitions[id].status.open(),
        b.transitions.dom() == c.transitions.dom(),
        forall|t: Text| #[trigger]
            c.transitions.dom().contains(t) && t != id ==> b.transitions[t] == c.transitions[t],
        b.transitions[id] == (TransitionModel {
            status: TransitionStatus::Cancelled,
            reason: b.transitions[id].reason,
            cancelled_at: b.transitions[id].cancelled_at,
            ..c.transitions[id]
        }),
        b.activity.dom() == c.activity.dom(),
        forall|p: Text| #[trigger]
            c.activity.dom().contains(p) ==> b.activity[p].active_transition_id == (if p == person
                && c.activity[p].active_transition_id == Some(id) {
                None
            } else {
                c.activity[p].active_transition_id
            }),
        b.transition_seq == c.transition_seq,
    ensures
        ledgered(b),
        carried(c, b),
        none_open(b, person),
{
    assert forall|p: Text| #[trigger] b.activity.dom().contains(p) implies (
    b.activity[p].active_transition_id matches Some(t) ==> points(b, p, t)) by {
        assert(c.activity.dom().contains(p));
        if let Some(t) = b.activity[p].active_transition_id {
            assert(points(c, p, t));
        }
    }
    assert forall|t: Text| #[trigger]
        b.transitions.dom().contains(t) && b.transitions[t].person_id == person implies
        !b.transitions[t].status.open() by {
        assert(c.transitions.dom().contains(t) && c.transitions.dom().contains(id));
    }
    assert(one_open(b)) by {
        assert forall|s: Text, t: Text|
            #![trigger b.transitions.dom().contains(s), b.transitions.dom().contains(t)]
            b.transitions.dom().contains(s) && b.transitions.dom().contains(t)
                && b.transitions[s].status.open() && b.transitions[t].status.open()
                && b.transitions[s].person_id == b.transitions[t].person_id implies s == t by {
            assert(c.transitions.dom().contains(s) && c.transitions.dom().contains(t));
        }
    }
}

/// Superseding somebody's open transition leaves them with none.
pub proof fn lemma_superseded(c: CompanyModel, person: Text, marker: Text, at: Text)
    requires
        c.finite(),
        ledgered(c),
    ensures
        ledgered(c.supersede_open_transition(person, marker, at)),
        carried(c, c.supersede_open_transition(person, marker, at)),
        none_open(c.supersede_open_transition(person, marker, at), person),
        c.supersede_open_transition(person, marker, at).finite(),
        c.supersede_open_transition(person, marker, at).transitions.dom() == c.transitions.dom(),
        ledgered(c.superseded_row(person, marker, at)),
        carried(c, c.superseded_row(person, marker, at)),
        none_open(c.superseded_row(person, marker, at), person),
        c.superseded_row(person, marker, at).transitions.dom() == c.transitions.dom(),
{
    lemma_open_transition(c, person);
    if let Some(id) = c.open_transition(person) {
        let b = c.supersede_open_transition(person, marker, at);
        assert(b.transitions.dom() =~= c.transitions.dom());
        assert(b.activity.dom() =~= c.activity.dom());
        lemma_cancelled(c, b, person, id);
        let e = c.superseded_row(person, marker, at);
        assert(e.transitions.dom() =~= c.transitions.dom());
        assert(e.activity.dom() =~= c.activity.dom());
        lemma_cancelled(c, e, person, id);
    }
}

/// Whether `b` is `c` with one more transition, which carries the next number.
pub open spec fn minted(
    c: CompanyModel,
    b: CompanyModel,
    person: Text,
    action: TransitionAction,
) -> bool {
    let id = transition_id((c.transition_seq + 1) as nat, person, action);
    &&& b.transition_seq == c.transition_seq + 1
    &&& b.transitions.dom() == c.transitions.dom().insert(id)
    &&& forall|t: Text| #[trigger]
        c.transitions.dom().contains(t) ==> b.transitions[t] == c.transitions[t]
    &&& b.transitions[id].person_id == person
    &&& b.transitions[id].status.open() ==> none_open(c, person)
}

/// Minting a transition keeps the ledger sound, where whoever points at
/// something new points at it.
pub proof fn lemma_minted(c: CompanyModel, b: CompanyModel, person: Text, action: TransitionAction)
    requires
        ledgered(c),
        minted(c, b, person, action),
        b.activity.dom() == c.activity.dom().insert(person) || b.activity.dom()
            == c.activity.dom(),
        forall|p: Text| #[trigger]
            b.activity.dom().contains(p) ==> (b.activity[p].active_transition_id matches Some(t)
                ==> c.activity.dom().contains(p) && c.activity[p].active_transition_id == Some(t)
                || p == person && points(b, p, t)),
    ensures
        ledgered(b),
        carried(c, b),
{
    let id = transition_id((c.transition_seq + 1) as nat, person, action);
    assert(!c.transitions.dom().contains(id));
    assert forall|n: nat, p: Text, a: TransitionAction|
        b.transitions.dom().contains(#[trigger] transition_id(n, p, a)) implies n
        <= b.transition_seq by {
        let t = transition_id(n, p, a);
        if c.transitions.dom().contains(t) {
            assert(n <= c.transition_seq);
        } else {
            assert(t == id);
            if n != c.transition_seq + 1 {
                law_transition_ids_differ(
                    n,
                    p,
                    a,
                    (c.transition_seq + 1) as nat,
                    person,
                    action,
                );
            }
        }
    }
    assert(one_open(b)) by {
        assert forall|s: Text, t: Text|
            #![trigger b.transitions.dom().contains(s), b.transitions.dom().contains(t)]
            b.transitions.dom().contains(s) && b.transitions.dom().contains(t)
                && b.transitions[s].status.open() && b.transitions[t].status.open()
                && b.transitions[s].person_id == b.transitions[t].person_id implies s == t by {
            if s != id {
                assert(c.transitions.dom().contains(s));
            }
            if t != id {
                assert(c.transitions.dom().contains(t));
            }
        }
    }
    assert forall|p: Text| #[trigger] b.activity.dom().contains(p) implies (
    b.activity[p].active_transition_id matches Some(t) ==> points(b, p, t)) by {
        if let Some(t) = b.activity[p].active_transition_id {
            if c.activity.dom().contains(p) && c.activity[p].active_transition_id == Some(t) {
                assert(points(c, p, t));
            }
        }
    }
}

/// Changing one person's pointer to one that stands keeps the ledger sound.
pub proof fn lemma_repointed(c: CompanyModel, b: CompanyModel, person: Text)
    requires
        ledgered(c),
        b.transitions == c.transitions,
        b.transition_seq == c.transition_seq,
        forall|p: Text| #[trigger]
            b.activity.dom().contains(p) && p != person ==> c.activity.dom().contains(p)
                && b.activity[p].active_transition_id == c.activity[p].active_transition_id,
        b.activity.dom().contains(person) ==> (b.activity[person].active_transition_id matches Some(
            t,
        ) ==> points(c, person, t)),
    ensures
        ledgered(b),
        carried(c, b),
{
    assert forall|p: Text| #[trigger] b.activity.dom().contains(p) implies (
    b.activity[p].active_transition_id matches Some(t) ==> points(b, p, t)) by {
        if p != person {
            if let Some(t) = c.activity[p].active_transition_id {
                assert(c.activity.dom().contains(p));
                assert(points(c, p, t));
            }
        }
    }
}

} // verus!
