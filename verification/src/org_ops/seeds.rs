//! What a caller supplies of a new person, and what makes it acceptable.

use vstd::prelude::*;

use crate::organization::{EmploymentState, PersonKind};
use crate::organization_spec::{
    declarable_text, declarable_tools_sentence, echo, echo_text, first_undeclarable,
    undeclarable_tool,
};
use crate::table::Duplicate;
use crate::text::{
    blank, cat2, cat3, cat4, chars_of, decimal, decimal_text, is_blank, owned, owned_list, same,
    seen, trim_text, trimmed, Text,
};

verus! {

/// The seed of a new person, borrowed.
#[derive(Debug, Clone, Copy, PartialEq, Eq)]
pub struct NewPersonSeed<'a> {
    /// Display name.
    pub name: &'a str,
    /// Role title.
    pub title: &'a str,
    /// What they are there to do.
    pub mandate: &'a str,
    /// Structural role.
    pub kind: PersonKind,
    /// Active or benched.
    pub employment_state: EmploymentState,
    /// `resident` or `on-demand`.
    pub activation: &'a str,
    /// Declared tools.
    pub tools: &'a [String],
    /// Prompt templates.
    pub prompts: &'a [String],
}

/// The seed of a new person, as read.
pub struct SeedModel {
    /// Display name.
    pub name: Text,
    /// Role title.
    pub title: Text,
    /// What they are there to do.
    pub mandate: Text,
    /// Structural role.
    pub kind: PersonKind,
    /// Active or benched.
    pub employment_state: EmploymentState,
    /// `resident` or `on-demand`.
    pub activation: Text,
    /// Declared tools.
    pub tools: Seq<Text>,
    /// Prompt templates.
    pub prompts: Seq<Text>,
}

impl<'a> View for NewPersonSeed<'a> {
    type V = SeedModel;

    open spec fn view(&self) -> SeedModel {
        SeedModel {
            name: self.name@,
            title: self.title@,
            mandate: self.mandate@,
            kind: self.kind,
            employment_state: self.employment_state,
            activation: self.activation@,
            tools: seen(self.tools@),
            prompts: seen(self.prompts@),
        }
    }
}

/// The seed of a new person, owned.
#[derive(Debug, Clone, PartialEq, Eq)]
pub struct OwnedNewPersonSeed {
    /// Display name.
    pub name: String,
    /// Role title.
    pub title: String,
    /// What they are there to do.
    pub mandate: String,
    /// Structural role.
    pub kind: PersonKind,
    /// Active or benched.
    pub employment_state: EmploymentState,
    /// `resident` or `on-demand`.
    pub activation: String,
    /// Declared tools.
    pub tools: Vec<String>,
    /// Prompt templates.
    pub prompts: Vec<String>,
}

impl View for OwnedNewPersonSeed {
    type V = SeedModel;

    open spec fn view(&self) -> SeedModel {
        SeedModel {
            name: self.name@,
            title: self.title@,
            mandate: self.mandate@,
            kind: self.kind,
            employment_state: self.employment_state,
            activation: self.activation@,
            tools: seen(self.tools@),
            prompts: seen(self.prompts@),
        }
    }
}

impl Duplicate for OwnedNewPersonSeed {
    fn duplicate(&self) -> (r: Self) {
        OwnedNewPersonSeed {
            name: self.name.clone(),
            title: self.title.clone(),
            mandate: self.mandate.clone(),
            kind: self.kind,
            employment_state: self.employment_state,
            activation: self.activation.clone(),
            tools: owned_list(&self.tools),
            prompts: owned_list(&self.prompts),
        }
    }
}

impl OwnedNewPersonSeed {
    /// The same seed, borrowed.
    pub fn as_ref(&self) -> (r: NewPersonSeed<'_>)
        ensures
            r@ == self@,
    {
        NewPersonSeed {
            name: self.name.as_str(),
            title: self.title.as_str(),
            mandate: self.mandate.as_str(),
            kind: self.kind,
            employment_state: self.employment_state,
            activation: self.activation.as_str(),
            tools: self.tools.as_slice(),
            prompts: self.prompts.as_slice(),
        }
    }
}

// ---------------------------------------------------------------------------
// Ids and prompt templates
// ---------------------------------------------------------------------------

/// The rule of [`valid_entity_id`], as a refusal states it.
pub const ENTITY_ID_RULE: &'static str =
    "an entity id must be 1-64 characters of lowercase ASCII letters, digits and hyphens, starting with a letter";

/// Whether a character is a lowercase ASCII letter.
pub open spec fn is_lower(c: char) -> bool {
    'a' as int <= c as int <= 'z' as int
}

/// Whether a character may stand in an id.
pub open spec fn is_id_char(c: char) -> bool {
    is_lower(c) || '0' as int <= c as int <= '9' as int || c == '-'
}

/// Whether a text is an id: 1 to 64 lowercase ASCII letters, digits and
/// hyphens, a letter first.
pub open spec fn entity_id(t: Text) -> bool {
    &&& 1 <= t.len() <= 64
    &&& is_lower(t[0])
    &&& forall|i: int| 0 <= i < t.len() ==> is_id_char(#[trigger] t[i])
}

fn lower(c: char) -> (r: bool)
    ensures
        r == is_lower(c),
{
    let n: u32 = c as u32;
    97 <= n && n <= 122
}

fn id_char(c: char) -> (r: bool)
    ensures
        r == is_id_char(c),
{
    let n: u32 = c as u32;
    lower(c) || (48 <= n && n <= 57) || n == 45
}

/// Whether a value is an id.
pub fn valid_entity_id(value: &str) -> (r: bool)
    ensures
        r == entity_id(value@),
{
    let t = chars_of(value);
    if t.len() < 1 || t.len() > 64 || !lower(t[0]) {
        return false;
    }
    let mut i: usize = 0;
    while i < t.len()
        invariant
            i <= t.len(),
            t@ == value@,
            forall|j: int| 0 <= j < i ==> is_id_char(#[trigger] value@[j]),
        decreases t.len() - i,
    {
        if !id_char(t[i]) {
            return false;
        }
        i = i + 1;
    }
    true
}

/// Whether the places `i` to `j` hold one whole segment of a path.
pub open spec fn segment(t: Text, i: int, j: int) -> bool {
    &&& 0 <= i <= j <= t.len()
    &&& (i == 0 || t[i - 1] == '/')
    &&& (j == t.len() || t[j] == '/')
    &&& forall|k: int| i <= k < j ==> t[k] != '/'
}

/// Whether a segment names something: neither empty, nor `.`, nor `..`.
pub open spec fn names(s: Text) -> bool {
    s.len() > 0 && s != "."@ && s != ".."@
}

/// Whether a text is a repo-relative `prompts/<name>.md` path.
pub open spec fn prompt_template(t: Text) -> bool {
    &&& t.len() > 0
    &&& trimmed(t) == t
    &&& t.len() >= 8 && t.take(8) == "prompts/"@
    &&& t.len() >= 3 && t.skip(t.len() - 3) == ".md"@
    &&& !t.contains('\\')
    &&& t[0] != '/'
    &&& forall|i: int, j: int| #[trigger] segment(t, i, j) ==> names(t.subrange(i, j))
}

fn segment_names(value: &str, i: usize, j: usize) -> (r: bool)
    requires
        i <= j <= value@.len(),
    ensures
        r == names(value@.subrange(i as int, j as int)),
{
    let s = value.substring_char(i, j);
    i < j && !same(s, ".") && !same(s, "..")
}

/// Whether every segment of a path names something.
fn segments_name(value: &str) -> (r: bool)
    ensures
        r == (forall|i: int, j: int|
            #[trigger] segment(value@, i, j) ==> names(value@.subrange(i, j))),
{
    let t = chars_of(value);
    let mut start: usize = 0;
    let mut k: usize = 0;
    while k < t.len()
        invariant
            start <= k <= t.len(),
            t@ == value@,
            start == 0 || value@[start - 1] == '/',
            forall|m: int| start <= m < k ==> value@[m] != '/',
            forall|i: int, j: int| #[trigger]
                segment(value@, i, j) && j < k ==> names(value@.subrange(i, j)),
        decreases t.len() - k,
    {
        if t[k] == '/' {
            proof {
                assert(segment(value@, start as int, k as int));
            }
            if !segment_names(value, start, k) {
                return false;
            }
            proof {
                assert forall|i: int, j: int| #[trigger]
                    segment(value@, i, j) && j < k + 1 implies names(value@.subrange(i, j)) by {
                    if j == k {
                        assert(i == start);
                    }
                }
            }
            start = k + 1;
        } else {
            proof {
                assert forall|i: int, j: int| #[trigger]
                    segment(value@, i, j) && j < k + 1 implies names(value@.subrange(i, j)) by {
                    assert(j != k);
                }
            }
        }
        k = k + 1;
    }
    proof {
        assert(segment(value@, start as int, k as int));
    }
    let last = segment_names(value, start, k);
    proof {
        assert forall|i: int, j: int| last && #[trigger] segment(value@, i, j) implies names(
            value@.subrange(i, j),
        ) by {
            if j == k {
                assert(i == start);
            }
        }
    }
    last
}

fn has_backslash(value: &str) -> (r: bool)
    ensures
        r == value@.contains('\\'),
{
    let t = chars_of(value);
    let mut i: usize = 0;
    while i < t.len()
        invariant
            i <= t.len(),
            t@ == value@,
            forall|j: int| 0 <= j < i ==> value@[j] != '\\',
        decreases t.len() - i,
    {
        if t[i] == '\\' {
            return true;
        }
        i = i + 1;
    }
    false
}

/// Whether a value is a repo-relative `prompts/<name>.md` path.
pub fn valid_prompt_template(value: &str) -> (r: bool)
    ensures
        r == prompt_template(value@),
{
    let n = value.unicode_len();
    if n < 8 {
        return false;
    }
    let front = value.substring_char(0, 8);
    let back = value.substring_char(n - 3, n);
    proof {
        assert(front@ =~= value@.take(8));
        assert(back@ =~= value@.skip(value@.len() - 3));
    }
    same(trim_text(value).as_str(), value) && same(front, "prompts/") && same(back, ".md")
        && !has_backslash(value) && value.get_char(0) != '/' && segments_name(value)
}

// ---------------------------------------------------------------------------
// Rejections
// ---------------------------------------------------------------------------

/// A rejected seed field and what would have been accepted.
#[derive(Debug, Clone, PartialEq, Eq)]
pub struct SeedRejection {
    /// The offending field's path.
    pub field: String,
    /// One line naming the rule and the accepted values.
    pub detail: String,
}

/// A rejected seed field, as read.
pub struct RejectionModel {
    /// The offending field's path.
    pub field: Text,
    /// One line naming the rule and the accepted values.
    pub detail: Text,
}

impl View for SeedRejection {
    type V = RejectionModel;

    open spec fn view(&self) -> RejectionModel {
        RejectionModel { field: self.field@, detail: self.detail@ }
    }
}

impl SeedRejection {
    /// A rejection of `field`, explained by `detail`.
    pub fn new(field: &str, detail: &str) -> (r: Self)
        ensures
            r@ == (RejectionModel { field: field@, detail: detail@ }),
    {
        SeedRejection { field: owned(field), detail: owned(detail) }
    }

    /// The same rejection under a seed path.
    pub fn under(self, prefix: &str) -> (r: Self)
        ensures
            r@ == (RejectionModel { field: prefix@ + self.field@, detail: self.detail@ }),
    {
        SeedRejection { field: cat2(prefix, self.field.as_str()), detail: self.detail }
    }
}

/// The detail of a blank field.
pub open spec fn required_text(field: Text) -> Text {
    field + " is required and must not be blank"@
}

/// The rejection of a blank field.
pub open spec fn required(field: Text) -> RejectionModel {
    RejectionModel { field, detail: required_text(field) }
}

/// The detail of a refused tool list: the rule that fired, then the vocabulary.
pub open spec fn tools_text(rule: Text) -> Text {
    rule + ". In full: "@ + declarable_text()
}

/// The detail of a refused tool list.
fn tools_vocabulary(expected_kind: PersonKind, rule: &str) -> (r: String)
    ensures
        r@ == tools_text(rule@),
{
    cat3(rule, ". In full: ", declarable_tools_sentence(expected_kind))
}

/// Whether one of the declared tools is blank.
pub open spec fn some_blank(tools: Seq<Text>) -> bool {
    exists|i: int| 0 <= i < tools.len() && blank(#[trigger] tools[i])
}

/// The rejection of the first prompt from place `i` on that is no template.
pub open spec fn prompt_rejection(prompts: Seq<Text>, i: int) -> Option<RejectionModel>
    decreases prompts.len() - i,
{
    if i < 0 || i >= prompts.len() {
        None
    } else if !prompt_template(prompts[i]) {
        Some(
            RejectionModel {
                field: "prompts["@ + decimal(i as nat) + "]"@,
                detail:
                    "every prompts entry must be a repo-relative 'prompts/<name>.md' path with no '.', '..', backslash or leading slash; got "@
                    + echo_text(prompts[i]),
            },
        )
    } else {
        prompt_rejection(prompts, i + 1)
    }
}

/// Why a seed is no good for a position of this kind, if it is not: its kind,
/// a blank name, title or mandate, its activation, a blank tool, an unknown
/// tool, a bad prompt, in this order.
pub open spec fn seed_rejection(seed: SeedModel, expected: PersonKind) -> Option<RejectionModel> {
    if seed.kind != expected {
        Some(
            RejectionModel {
                field: "kind"@,
                detail: "this seed position requires kind "@ + expected.name_text() + ", got "@
                    + seed.kind.name_text(),
            },
        )
    } else if blank(seed.name) {
        Some(required("name"@))
    } else if blank(seed.title) {
        Some(required("title"@))
    } else if blank(seed.mandate) {
        Some(required("mandate"@))
    } else if seed.activation != "resident"@ && seed.activation != "on-demand"@ {
        Some(
            RejectionModel {
                field: "activation"@,
                detail: "activation must be one of resident, on-demand; got "@ + echo_text(
                    seed.activation,
                ),
            },
        )
    } else if some_blank(seed.tools) {
        Some(
            RejectionModel {
                field: "tools"@,
                detail: tools_text("every tools entry must be a non-blank tool name"@),
            },
        )
    } else {
        match first_undeclarable(seed.tools) {
            Some(tool) => Some(
                RejectionModel {
                    field: "tools"@,
                    detail: tools_text(echo_text(tool) + " is not a declarable tool name"@),
                },
            ),
            None => prompt_rejection(seed.prompts, 0),
        }
    }
}

fn reject_required(field: &str) -> (r: SeedRejection)
    ensures
        r@ == required(field@),
{
    let detail = cat2(field, " is required and must not be blank");
    SeedRejection::new(field, detail.as_str())
}

fn has_blank(tools: &[String]) -> (r: bool)
    ensures
        r == some_blank(seen(tools@)),
{
    let mut i: usize = 0;
    while i < tools.len()
        invariant
            i <= tools.len(),
            forall|j: int| 0 <= j < i ==> !blank(#[trigger] seen(tools@)[j]),
        decreases tools.len() - i,
    {
        if is_blank(tools[i].as_str()) {
            proof {
                assert(blank(seen(tools@)[i as int]));
            }
            return true;
        }
        i = i + 1;
    }
    false
}

/// Whether a seed is good for a position of this kind, or why it is not.
pub fn validate_new_person_seed(seed: &NewPersonSeed<'_>, expected_kind: PersonKind) -> (r: Result<
    (),
    SeedRejection,
>)
    ensures
        match r {
            Ok(()) => seed_rejection(seed@, expected_kind) is None,
            Err(e) => seed_rejection(seed@, expected_kind) == Some(e@),
        },
{
    if seed.kind != expected_kind {
        let detail = cat4(
            "this seed position requires kind ",
            expected_kind.name(),
            ", got ",
            seed.kind.name(),
        );
        return Err(SeedRejection::new("kind", detail.as_str()));
    }
    if is_blank(seed.name) {
        return Err(reject_required("name"));
    }
    if is_blank(seed.title) {
        return Err(reject_required("title"));
    }
    if is_blank(seed.mandate) {
        return Err(reject_required("mandate"));
    }
    if !same(seed.activation, "resident") && !same(seed.activation, "on-demand") {
        let shown = echo(seed.activation);
        let detail = cat2("activation must be one of resident, on-demand; got ", shown.as_str());
        return Err(SeedRejection::new("activation", detail.as_str()));
    }
    if has_blank(seed.tools) {
        let detail = tools_vocabulary(
            expected_kind,
            "every tools entry must be a non-blank tool name",
        );
        return Err(SeedRejection::new("tools", detail.as_str()));
    }
    if let Some(unknown) = undeclarable_tool(seed.tools) {
        let shown = echo(unknown.as_str());
        let rule = cat2(shown.as_str(), " is not a declarable tool name");
        let detail = tools_vocabulary(expected_kind, rule.as_str());
        return Err(SeedRejection::new("tools", detail.as_str()));
    }
    let mut i: usize = 0;
    while i < seed.prompts.len()
        invariant
            i <= seed.prompts.len(),
            seed_rejection(seed@, expected_kind) == prompt_rejection(seed@.prompts, i as int),
        decreases seed.prompts.len() - i,
    {
        proof {
            assert(seed@.prompts[i as int] == seed.prompts@[i as int]@);
        }
        if !valid_prompt_template(seed.prompts[i].as_str()) {
            let n = decimal_text(i as u64);
            let field = cat3("prompts[", n.as_str(), "]");
            let shown = echo(seed.prompts[i].as_str());
            let detail = cat2(
                "every prompts entry must be a repo-relative 'prompts/<name>.md' path with no '.', '..', backslash or leading slash; got ",
                shown.as_str(),
            );
            return Err(SeedRejection::new(field.as_str(), detail.as_str()));
        }
        i = i + 1;
    }
    Ok(())
}

/// Whether somebody with this employment comes up when created. A benched seed
/// is durable and stopped by its own definition.
pub fn seed_comes_up(employment_state: EmploymentState) -> (r: bool)
    ensures
        r == (employment_state == EmploymentState::Active),
{
    matches!(employment_state, EmploymentState::Active)
}

} // verus!
