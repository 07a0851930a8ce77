//! What a seed may declare, and how much of a refused value is echoed back.

use vstd::prelude::*;

use crate::organization::PersonKind;
use crate::text::{cat3, chars_of, opt, same, seen, Text};

verus! {

/// How many bytes of a refused value a refusal repeats.
pub const MAX_REFUSAL_ECHO_BYTES: usize = 120;

/// How many bytes a character takes in UTF-8.
pub open spec fn char_bytes(c: char) -> nat {
    if (c as int) < 0x80 {
        1
    } else if (c as int) < 0x800 {
        2
    } else if (c as int) < 0x10000 {
        3
    } else {
        4
    }
}

fn bytes_of(c: char) -> (r: usize)
    ensures
        r == char_bytes(c),
{
    let n: u32 = c as u32;
    if n < 0x80 {
        1
    } else if n < 0x800 {
        2
    } else if n < 0x10000 {
        3
    } else {
        4
    }
}

/// How many bytes a text takes in UTF-8.
pub open spec fn text_bytes(t: Text) -> nat
    decreases t.len(),
{
    if t.len() == 0 {
        0
    } else {
        text_bytes(t.drop_last()) + char_bytes(t.last())
    }
}

/// The longest front of a text that a refusal may repeat: whole characters
/// only, [`MAX_REFUSAL_ECHO_BYTES`] at most.
pub open spec fn bounded_text(t: Text) -> Text
    decreases t.len(),
{
    if text_bytes(t) <= MAX_REFUSAL_ECHO_BYTES {
        t
    } else {
        bounded_text(t.drop_last())
    }
}

proof fn lemma_bytes_grow(t: Text, i: int, j: int)
    requires
        0 <= i <= j <= t.len(),
    ensures
        text_bytes(t.take(i)) <= text_bytes(t.take(j)),
    decreases j - i,
{
    if i < j {
        lemma_bytes_grow(t, i, j - 1);
        assert(t.take(j).drop_last() =~= t.take(j - 1));
    }
}

proof fn lemma_bounded_is(t: Text, i: int)
    requires
        0 <= i < t.len(),
        text_bytes(t.take(i)) <= MAX_REFUSAL_ECHO_BYTES,
        text_bytes(t.take(i + 1)) > MAX_REFUSAL_ECHO_BYTES,
    ensures
        bounded_text(t) == t.take(i),
    decreases t.len(),
{
    lemma_bytes_grow(t, i + 1, t.len() as int);
    assert(t.take(t.len() as int) =~= t);
    let u = t.drop_last();
    if i + 1 == t.len() {
        assert(u =~= t.take(i));
        assert(bounded_text(u) == u);
    } else {
        assert(u.take(i) =~= t.take(i));
        assert(u.take(i + 1) =~= t.take(i + 1));
        lemma_bounded_is(u, i);
    }
}

/// The length of the longest front of a value that a refusal may repeat.
pub fn bounded(value: &str) -> (r: usize)
    ensures
        r <= value@.len(),
        bounded_text(value@) == value@.take(r as int),
        r == value@.len() <==> text_bytes(value@) <= MAX_REFUSAL_ECHO_BYTES,
{
    let chars = chars_of(value);
    let mut i: usize = 0;
    let mut n: usize = 0;
    while i < chars.len()
        invariant
            i <= chars.len(),
            chars@ == value@,
            n == text_bytes(value@.take(i as int)),
            n <= MAX_REFUSAL_ECHO_BYTES,
        decreases chars.len() - i,
    {
        proof {
            assert(value@.take(i + 1).drop_last() =~= value@.take(i as int));
            assert(value@.take(i + 1).last() == value@[i as int]);
        }
        let m: usize = n + bytes_of(chars[i]);
        if m > MAX_REFUSAL_ECHO_BYTES {
            proof {
                lemma_bounded_is(value@, i as int);
                lemma_bytes_grow(value@, i + 1, value@.len() as int);
                assert(value@.take(value@.len() as int) =~= value@);
            }
            return i;
        }
        n = m;
        i = i + 1;
    }
    proof {
        assert(value@.take(value@.len() as int) =~= value@);
    }
    i
}

/// A caller's value as a refusal repeats it: quoted, and cut short with an
/// ellipsis where it is too long.
pub open spec fn echo_text(t: Text) -> Text {
    if text_bytes(t) <= MAX_REFUSAL_ECHO_BYTES {
        "'"@ + t + "'"@
    } else {
        "'"@ + bounded_text(t) + "'…"@
    }
}

/// A caller's value as a refusal repeats it.
pub fn echo(value: &str) -> (r: String)
    ensures
        r@ == echo_text(value@),
{
    let kept = bounded(value);
    if kept == value.unicode_len() {
        cat3("'", value, "'")
    } else {
        let front = value.substring_char(0, kept);
        proof {
            assert(front@ =~= value@.take(kept as int));
        }
        cat3("'", front, "'…")
    }
}

/// The names a seed may declare: the built-in tools.
pub open spec fn is_builtin(t: Text) -> bool {
    t == "read"@ || t == "bash"@ || t == "edit"@ || t == "write"@ || t == "grep"@ || t == "find"@
        || t == "ls"@
}

/// The built-in tools.
pub const BUILTIN_TOOLS: [&'static str; 7] = ["read", "bash", "edit", "write", "grep", "find", "ls"];

/// Whether a tool is built in.
pub fn is_builtin_tool(tool: &str) -> (r: bool)
    ensures
        r == is_builtin(tool@),
{
    same(tool, "read") || same(tool, "bash") || same(tool, "edit") || same(tool, "write") || same(
        tool,
        "grep",
    ) || same(tool, "find") || same(tool, "ls")
}

/// The first declared tool that is not built in.
pub open spec fn first_undeclarable(tools: Seq<Text>) -> Option<Text>
    decreases tools.len(),
{
    if tools.len() == 0 {
        None
    } else if !is_builtin(tools[0]) {
        Some(tools[0])
    } else {
        first_undeclarable(tools.drop_first())
    }
}

/// The first declared tool that is not built in.
pub fn undeclarable_tool(tools: &[String]) -> (r: Option<&String>)
    ensures
        opt(r) == first_undeclarable(seen(tools@)),
{
    let mut i: usize = 0;
    proof {
        assert(seen(tools@).skip(0) =~= seen(tools@));
    }
    while i < tools.len()
        invariant
            i <= tools.len(),
            first_undeclarable(seen(tools@)) == first_undeclarable(seen(tools@).skip(i as int)),
        decreases tools.len() - i,
    {
        proof {
            assert(seen(tools@).skip(i as int)[0] == tools@[i as int]@);
            assert(seen(tools@).skip(i as int).drop_first() =~= seen(tools@).skip(i + 1));
        }
        if !is_builtin_tool(tools[i].as_str()) {
            return Some(&tools[i]);
        }
        i = i + 1;
    }
    None
}

/// The sentence that tells a caller what a seed of any kind may declare.
pub open spec fn declarable_text() -> Text {
    "a seed may declare only the builtin tools read, bash, edit, write, grep, find, ls, which are granted to every person automatically; an org_* tool is composed in from the person's kind and must NEVER be declared"@
}

/// The sentence that tells a caller what a seed may declare. Every kind may
/// declare the same tools.
pub fn declarable_tools_sentence(_kind: PersonKind) -> (r: &'static str)
    ensures
        r@ == declarable_text(),
{
    "a seed may declare only the builtin tools read, bash, edit, write, grep, find, ls, which are granted to every person automatically; an org_* tool is composed in from the person's kind and must NEVER be declared"
}

} // verus!
