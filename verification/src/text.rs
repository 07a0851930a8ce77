//! Text values: equality, order, building and the small scans the rules need.

use vstd::prelude::*;

verus! {

/// What a string says: its characters in order.
pub type Text = Seq<char>;

/// The mathematical reading of every element of a sequence.
pub open spec fn seen<T: View>(s: Seq<T>) -> Seq<T::V> {
    s.map_values(|t: T| t@)
}

/// The mathematical reading of an optional value.
pub open spec fn opt<T: View>(o: Option<T>) -> Option<T::V> {
    match o {
        Some(t) => Some(t@),
        None => None,
    }
}

// ---------------------------------------------------------------------------
// Copying and comparing
// ---------------------------------------------------------------------------

/// What a list with one more member comes to.
pub proof fn lemma_seen_push<T: View>(s: Seq<T>, x: T)
    ensures
        seen(s.push(x)) == seen(s).push(x@),
{
    assert(seen(s.push(x)) =~= seen(s).push(x@));
}

/// An owned copy of a string.
pub fn owned(s: &str) -> (r: String)
    ensures
        r@ == s@,
{
    s.to_owned()
}

/// Whether two strings say the same.
pub fn same(a: &str, b: &str) -> (r: bool)
    ensures
        r == (a@ == b@),
{
    a.to_owned() == b.to_owned()
}

/// An owned copy of an optional string.
pub fn owned_opt(o: &Option<String>) -> (r: Option<String>)
    ensures
        opt(r) == opt(*o),
{
    match o {
        Some(s) => Some(s.clone()),
        None => None,
    }
}

/// An owned copy of a list of strings.
pub fn owned_list(v: &Vec<String>) -> (r: Vec<String>)
    ensures
        seen(r@) == seen(v@),
{
    let mut out: Vec<String> = Vec::new();
    let mut i: usize = 0;
    while i < v.len()
        invariant
            i <= v.len(),
            out.len() == i,
            forall|j: int| 0 <= j < i ==> out@[j]@ == v@[j]@,
        decreases v.len() - i,
    {
        out.push(v[i].clone());
        i = i + 1;
    }
    proof {
        assert(seen(out@) =~= seen(v@));
    }
    out
}

/// An owned copy of a slice of strings.
pub fn owned_slice(v: &[String]) -> (r: Vec<String>)
    ensures
        seen(r@) == seen(v@),
{
    let mut out: Vec<String> = Vec::new();
    let mut i: usize = 0;
    while i < v.len()
        invariant
            i <= v.len(),
            out.len() == i,
            forall|j: int| 0 <= j < i ==> out@[j]@ == v@[j]@,
        decreases v.len() - i,
    {
        out.push(v[i].clone());
        i = i + 1;
    }
    proof {
        assert(seen(out@) =~= seen(v@));
    }
    out
}

/// Whether a list of strings holds one that says `s`.
pub fn list_contains(v: &[String], s: &str) -> (r: bool)
    ensures
        r == seen(v@).contains(s@),
{
    let mut i: usize = 0;
    while i < v.len()
        invariant
            i <= v.len(),
            forall|j: int| 0 <= j < i ==> seen(v@)[j] != s@,
        decreases v.len() - i,
    {
        if same(v[i].as_str(), s) {
            proof {
                assert(seen(v@)[i as int] == s@);
            }
            return true;
        }
        i = i + 1;
    }
    false
}

// ---------------------------------------------------------------------------
// Building
// ---------------------------------------------------------------------------

/// Two strings, one after the other.
pub fn cat2(a: &str, b: &str) -> (r: String)
    ensures
        r@ == a@ + b@,
{
    let mut s = a.to_owned();
    s.append(b);
    s
}

/// Three strings, one after the other.
pub fn cat3(a: &str, b: &str, c: &str) -> (r: String)
    ensures
        r@ == a@ + b@ + c@,
{
    let mut s = a.to_owned();
    s.append(b);
    s.append(c);
    s
}

/// Four strings, one after the other.
pub fn cat4(a: &str, b: &str, c: &str, d: &str) -> (r: String)
    ensures
        r@ == a@ + b@ + c@ + d@,
{
    let mut s = a.to_owned();
    s.append(b);
    s.append(c);
    s.append(d);
    s
}

/// Five strings, one after the other.
pub fn cat5(a: &str, b: &str, c: &str, d: &str, e: &str) -> (r: String)
    ensures
        r@ == a@ + b@ + c@ + d@ + e@,
{
    let mut s = a.to_owned();
    s.append(b);
    s.append(c);
    s.append(d);
    s.append(e);
    s
}

/// The list's members with a comma and a space between each two.
pub open spec fn listed(s: Seq<Text>) -> Text
    decreases s.len(),
{
    if s.len() == 0 {
        Seq::empty()
    } else if s.len() == 1 {
        s[0]
    } else {
        listed(s.drop_last()) + ", "@ + s.last()
    }
}

/// The list's members with a comma and a space between each two.
pub fn list_text(v: &Vec<String>) -> (r: String)
    ensures
        r@ == listed(seen(v@)),
{
    let mut out = String::new();
    let mut i: usize = 0;
    while i < v.len()
        invariant
            i <= v.len(),
            out@ == listed(seen(v@).take(i as int)),
        decreases v.len() - i,
    {
        proof {
            let next = seen(v@).take(i + 1);
            assert(next.drop_last() =~= seen(v@).take(i as int));
            assert(next.last() == v@[i as int]@);
        }
        if i > 0 {
            out.append(", ");
        }
        out.append(v[i].as_str());
        proof {
            if i == 0 {
                assert(out@ =~= v@[0]@);
            }
        }
        i = i + 1;
    }
    proof {
        assert(seen(v@).take(v.len() as int) =~= seen(v@));
    }
    out
}

/// The decimal digit of a number below ten.
pub open spec fn digit(n: nat) -> char {
    if n == 0 { '0' } else if n == 1 { '1' } else if n == 2 { '2' } else if n == 3 { '3' }
    else if n == 4 { '4' } else if n == 5 { '5' } else if n == 6 { '6' } else if n == 7 { '7' }
    else if n == 8 { '8' } else { '9' }
}

/// A number written in decimal, without leading zeros.
pub open spec fn decimal(n: nat) -> Text
    decreases n,
{
    if n < 10 {
        seq![digit(n)]
    } else {
        decimal(n / 10).push(digit(n % 10))
    }
}

/// The text of the decimal digit of a number below ten.
pub fn digit_text(n: u64) -> (r: &'static str)
    requires
        n < 10,
    ensures
        r@ == seq![digit(n as nat)],
{
    proof {
        reveal_strlit("0");
        reveal_strlit("1");
        reveal_strlit("2");
        reveal_strlit("3");
        reveal_strlit("4");
        reveal_strlit("5");
        reveal_strlit("6");
        reveal_strlit("7");
        reveal_strlit("8");
        reveal_strlit("9");
    }
    let r: &'static str = match n {
        0 => "0",
        1 => "1",
        2 => "2",
        3 => "3",
        4 => "4",
        5 => "5",
        6 => "6",
        7 => "7",
        8 => "8",
        _ => "9",
    };
    proof {
        assert(r@ =~= seq![digit(n as nat)]);
    }
    r
}

/// A number written in decimal.
pub fn decimal_text(n: u64) -> (r: String)
    ensures
        r@ == decimal(n as nat),
    decreases n,
{
    if n < 10 {
        owned(digit_text(n))
    } else {
        let mut s = decimal_text(n / 10);
        s.append(digit_text(n % 10));
        proof {
            assert(s@ =~= decimal((n / 10) as nat).push(digit((n % 10) as nat)));
        }
        s
    }
}

// ---------------------------------------------------------------------------
// Scanning
// ---------------------------------------------------------------------------

/// The characters of a string.
pub fn chars_of(s: &str) -> (r: Vec<char>)
    ensures
        r@ == s@,
{
    let n = s.unicode_len();
    let mut out: Vec<char> = Vec::new();
    let mut i: usize = 0;
    while i < n
        invariant
            i <= n,
            n == s@.len(),
            out@ == s@.take(i as int),
        decreases n - i,
    {
        out.push(s.get_char(i));
        proof {
            assert(out@ =~= s@.take(i + 1));
        }
        i = i + 1;
    }
    proof {
        assert(s@.take(n as int) =~= s@);
    }
    out
}

/// The characters with Unicode's `White_Space` property.
pub open spec fn is_space(c: char) -> bool {
    ||| 0x9 <= c as int <= 0xd
    ||| c as int == 0x20
    ||| c as int == 0x85
    ||| c as int == 0xa0
    ||| c as int == 0x1680
    ||| 0x2000 <= c as int <= 0x200a
    ||| c as int == 0x2028
    ||| c as int == 0x2029
    ||| c as int == 0x202f
    ||| c as int == 0x205f
    ||| c as int == 0x3000
}

fn space(c: char) -> (r: bool)
    ensures
        r == is_space(c),
{
    let n: u32 = c as u32;
    (0x9 <= n && n <= 0xd) || n == 0x20 || n == 0x85 || n == 0xa0 || n == 0x1680 || (0x2000 <= n
        && n <= 0x200a) || n == 0x2028 || n == 0x2029 || n == 0x202f || n == 0x205f || n == 0x3000
}

/// Whether a text holds nothing but white space.
pub open spec fn blank(t: Text) -> bool {
    forall|i: int| 0 <= i < t.len() ==> is_space(#[trigger] t[i])
}

/// A text without the white space at its front.
pub open spec fn skip_front(t: Text) -> Text
    decreases t.len(),
{
    if t.len() > 0 && is_space(t[0]) {
        skip_front(t.drop_first())
    } else {
        t
    }
}

/// A text without the white space at its back.
pub open spec fn skip_back(t: Text) -> Text
    decreases t.len(),
{
    if t.len() > 0 && is_space(t.last()) {
        skip_back(t.drop_last())
    } else {
        t
    }
}

/// A text without the white space at either end.
pub open spec fn trimmed(t: Text) -> Text {
    skip_back(skip_front(t))
}

/// A text without the white space at either end.
pub fn trim_text(s: &str) -> (r: String)
    ensures
        r@ == trimmed(s@),
{
    let chars = chars_of(s);
    let mut i: usize = 0;
    proof {
        assert(s@.skip(0) =~= s@);
    }
    while i < chars.len() && space(chars[i])
        invariant
            i <= chars.len(),
            chars@ == s@,
            skip_front(s@) == skip_front(s@.skip(i as int)),
        decreases chars.len() - i,
    {
        proof {
            assert(s@.skip(i as int).drop_first() =~= s@.skip(i + 1));
        }
        i = i + 1;
    }
    let mut j: usize = chars.len();
    proof {
        assert(s@.skip(i as int)[0] == s@[i as int] || i == chars.len());
        assert(skip_front(s@) == s@.skip(i as int));
        assert(s@.subrange(i as int, j as int) =~= s@.skip(i as int));
    }
    while i < j && space(chars[j - 1])
        invariant
            i <= j <= chars.len(),
            chars@ == s@,
            skip_back(skip_front(s@)) == skip_back(s@.subrange(i as int, j as int)),
        decreases j,
    {
        proof {
            let t = s@.subrange(i as int, j as int);
            assert(t.last() == s@[j - 1]);
            assert(t.drop_last() =~= s@.subrange(i as int, j - 1));
        }
        j = j - 1;
    }
    proof {
        let t = s@.subrange(i as int, j as int);
        if i < j {
            assert(t.last() == s@[j - 1]);
        }
        assert(skip_back(t) == t);
    }
    s.substring_char(i, j).to_owned()
}

/// Whether a text holds nothing but white space.
pub fn is_blank(s: &str) -> (r: bool)
    ensures
        r == blank(s@),
{
    let chars = chars_of(s);
    let mut i: usize = 0;
    while i < chars.len()
        invariant
            i <= chars.len(),
            chars@ == s@,
            forall|j: int| 0 <= j < i ==> is_space(#[trigger] s@[j]),
        decreases chars.len() - i,
    {
        if !space(chars[i]) {
            return false;
        }
        i = i + 1;
    }
    true
}

/// A text is blank exactly when nothing is left of it once trimmed.
pub proof fn law_blank_trims_to_nothing(t: Text)
    ensures
        blank(t) <==> trimmed(t).len() == 0,
{
    lemma_skip_front(t);
    lemma_skip_back(skip_front(t));
    let u = skip_front(t);
    if blank(t) {
        if u.len() > 0 {
            assert(is_space(u[0]));
        }
    } else {
        let i = choose|i: int| 0 <= i < t.len() && !is_space(#[trigger] t[i]);
        assert(u.len() > 0);
        assert(trimmed(t).len() > 0);
    }
}

proof fn lemma_skip_front(t: Text)
    ensures
        skip_front(t).len() > 0 ==> !is_space(skip_front(t)[0]),
        blank(t) ==> blank(skip_front(t)),
        skip_front(t).len() == 0 ==> blank(t),
    decreases t.len(),
{
    if t.len() > 0 && is_space(t[0]) {
        let u = t.drop_first();
        lemma_skip_front(u);
        if blank(t) {
            assert forall|i: int| 0 <= i < u.len() implies is_space(#[trigger] u[i]) by {
                assert(u[i] == t[i + 1]);
            }
        }
        if blank(u) {
            assert forall|i: int| 0 <= i < t.len() implies is_space(#[trigger] t[i]) by {
                if i > 0 {
                    assert(t[i] == u[i - 1]);
                }
            }
        }
    }
}

proof fn lemma_skip_back(t: Text)
    ensures
        t.len() > 0 && !is_space(t[0]) ==> skip_back(t).len() > 0,
        skip_back(t).len() <= t.len(),
    decreases t.len(),
{
    if t.len() > 0 && is_space(t.last()) {
        let u = t.drop_last();
        if t.len() > 1 {
            assert(u[0] == t[0]);
        }
        lemma_skip_back(u);
    }
}

// ---------------------------------------------------------------------------
// Order
// ---------------------------------------------------------------------------

/// Character by character order, which is also the order of the encoded bytes.
pub open spec fn text_lt(a: Text, b: Text) -> bool
    decreases a.len(),
{
    if b.len() == 0 {
        false
    } else if a.len() == 0 {
        true
    } else if a[0] as int != b[0] as int {
        (a[0] as int) < (b[0] as int)
    } else {
        text_lt(a.drop_first(), b.drop_first())
    }
}

fn code(c: char) -> (r: u32)
    ensures
        r as int == c as int,
{
    c as u32
}

/// Whether one string stands before another in id order.
pub fn text_before(a: &str, b: &str) -> (r: bool)
    ensures
        r == text_lt(a@, b@),
{
    let x = chars_of(a);
    let y = chars_of(b);
    let mut i: usize = 0;
    proof {
        assert(a@.skip(0) =~= a@);
        assert(b@.skip(0) =~= b@);
    }
    loop
        invariant
            i <= x.len(),
            i <= y.len(),
            x@ == a@,
            y@ == b@,
            text_lt(a@, b@) == text_lt(a@.skip(i as int), b@.skip(i as int)),
        decreases x.len() - i,
    {
        if i >= y.len() {
            return false;
        }
        if i >= x.len() {
            return true;
        }
        let c: u32 = code(x[i]);
        let d: u32 = code(y[i]);
        if c != d {
            return c < d;
        }
        proof {
            assert(a@.skip(i as int).drop_first() =~= a@.skip(i + 1));
            assert(b@.skip(i as int).drop_first() =~= b@.skip(i + 1));
        }
        i = i + 1;
    }
}

/// No text stands before itself.
pub proof fn lemma_text_irreflexive(a: Text)
    ensures
        !text_lt(a, a),
    decreases a.len(),
{
    if a.len() > 0 {
        lemma_text_irreflexive(a.drop_first());
    }
}

/// The order of texts chains.
pub proof fn lemma_text_transitive(a: Text, b: Text, c: Text)
    requires
        text_lt(a, b),
        text_lt(b, c),
    ensures
        text_lt(a, c),
    decreases a.len(),
{
    if a.len() > 0 && a[0] as int == b[0] as int && b[0] as int == c[0] as int {
        lemma_text_transitive(a.drop_first(), b.drop_first(), c.drop_first());
    }
}

/// Of two different texts one stands before the other.
pub proof fn lemma_text_total(a: Text, b: Text)
    ensures
        a == b || text_lt(a, b) || text_lt(b, a),
    decreases a.len(),
{
    if a.len() > 0 && b.len() > 0 && a[0] as int == b[0] as int {
        lemma_text_total(a.drop_first(), b.drop_first());
        if a.drop_first() == b.drop_first() {
            assert(a =~= seq![a[0]] + a.drop_first());
            assert(b =~= seq![b[0]] + b.drop_first());
        }
    } else if a.len() == 0 && b.len() == 0 {
        assert(a =~= b);
    }
}

} // verus!
