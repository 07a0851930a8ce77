//! When a unit may be created and somebody hired, and what is said where not.

use vstd::prelude::*;

use crate::company::CompanyModel;
use crate::isotime::iso_value;
use crate::laws::answers::{law_how_a_headship_is_left, settles};
use crate::laws::chart::lemma_org;
use crate::laws::frames::{lemma_number_departments, lemma_rehome};
use crate::org_ops::decisions::{
    CreateUnitModel, HeadDecisionModel, HeadVacancyModel, StaffModel,
};
use crate::org_ops::create::{create_answers, hire_answers};
use crate::org_ops::guards::RowError;
use crate::org_ops::refusals::{
    CreateDepartmentOutcome, CreateRefusalModel, HeadIneligibility, HireOutcome, HireRefusalModel,
};
use crate::org_ops::seeds::{
    entity_id, prompt_rejection, prompt_template, seed_rejection, some_blank, SeedModel,
};
use crate::org_projection::{
    contract_refusal, create_refusal, head_refusal, hire_refusal, named_before, roster_refusal,
    seed_refusal, vacancy_refusal, CreateModel, HireModel,
};
use crate::org_view::{
    ceo, headed_by, lemma_first_where, manages, may_create_under, stopped, OrgModel,
};
use crate::organization::{EmploymentState, PersonKind};
use crate::organization_spec::{first_undeclarable, is_builtin};
use crate::table::{lemma_finite_listing, listing};
use crate::text::{blank, decimal, is_space, Text};

verus! {

// ---------------------------------------------------------------------------
// Seeds
// ---------------------------------------------------------------------------

/// Whether a tool is one a seed may declare.
pub open spec fn declarable(t: Text) -> bool {
    !blank(t) && (t == "read"@ || t == "bash"@ || t == "edit"@ || t == "write"@ || t == "grep"@ || t
        == "find"@ || t == "ls"@)
}

/// Whether a seed is whole: for this position, named, titled, with something to
/// do, a known activation, tools that may be declared and prompts that are
/// templates. How it is employed decides nothing.
pub open spec fn whole(seed: SeedModel, expected: PersonKind) -> bool {
    &&& seed.kind == expected
    &&& !blank(seed.name)
    &&& !blank(seed.title)
    &&& !blank(seed.mandate)
    &&& seed.activation == "resident"@ || seed.activation == "on-demand"@
    &&& forall|i: int| 0 <= i < seed.tools.len() ==> declarable(#[trigger] seed.tools[i])
    &&& forall|i: int| 0 <= i < seed.prompts.len() ==> prompt_template(#[trigger] seed.prompts[i])
}

proof fn lemma_undeclarable(tools: Seq<Text>)
    ensures
        first_undeclarable(tools) is None <==> forall|i: int|
            0 <= i < tools.len() ==> is_builtin(#[trigger] tools[i]),
        first_undeclarable(tools) matches Some(t) ==> tools.contains(t) && !is_builtin(t),
    decreases tools.len(),
{
    if tools.len() > 0 {
        let rest = tools.drop_first();
        lemma_undeclarable(rest);
        if is_builtin(tools[0]) {
            if first_undeclarable(rest) is None {
                assert forall|i: int| 0 <= i < tools.len() implies is_builtin(
                    #[trigger] tools[i],
                ) by {
                    if i > 0 {
                        assert(rest[i - 1] == tools[i]);
                    }
                }
            } else {
                let t = first_undeclarable(rest)->0;
                let k = choose|k: int| 0 <= k < rest.len() && rest[k] == t;
                assert(tools[k + 1] == t);
            }
        } else {
            assert(tools.contains(tools[0]));
        }
    }
}

proof fn lemma_prompts(prompts: Seq<Text>, i: int)
    requires
        0 <= i <= prompts.len(),
    ensures
        prompt_rejection(prompts, i) is None <==> forall|k: int|
            i <= k < prompts.len() ==> prompt_template(#[trigger] prompts[k]),
    decreases prompts.len() - i,
{
    if i < prompts.len() {
        lemma_prompts(prompts, i + 1);
        if prompt_rejection(prompts, i) is None {
            assert forall|k: int| i <= k < prompts.len() implies prompt_template(
                #[trigger] prompts[k],
            ) by {}
        } else if forall|k: int| i <= k < prompts.len() ==> prompt_template(#[trigger] prompts[k]) {
            assert(prompt_template(prompts[i]));
        }
    }
}

proof fn lemma_first_prompt(prompts: Seq<Text>, i: int, k: int)
    requires
        0 <= i <= k < prompts.len(),
        !prompt_template(prompts[k]),
        forall|j: int| i <= j < k ==> prompt_template(#[trigger] prompts[j]),
    ensures
        prompt_rejection(prompts, i) == prompt_rejection(prompts, k),
    decreases k - i,
{
    if i < k {
        assert(prompt_template(prompts[i]));
        lemma_first_prompt(prompts, i + 1, k);
    }
}

/// A seed is taken exactly where it is whole, on the bench or at work; and what
/// is refused is the field that is not as it should be.
pub proof fn law_which_seed_is_taken(seed: SeedModel, expected: PersonKind)
    ensures
        ({
            let r = seed_rejection(seed, expected);
            let kind = seed.kind == expected;
            let name = kind && !blank(seed.name);
            let title = name && !blank(seed.title);
            let mandate = title && !blank(seed.mandate);
            let activation = mandate && (seed.activation == "resident"@ || seed.activation
                == "on-demand"@);
            let tools = activation && forall|i: int|
                0 <= i < seed.tools.len() ==> declarable(#[trigger] seed.tools[i]);
            &&& r is None <==> whole(seed, expected)
            &&& !kind ==> r is Some && r->0.field == "kind"@
            &&& kind && !name ==> r is Some && r->0.field == "name"@
            &&& name && !title ==> r is Some && r->0.field == "title"@
            &&& title && !mandate ==> r is Some && r->0.field == "mandate"@
            &&& mandate && !activation ==> r is Some && r->0.field == "activation"@
            &&& activation && !tools ==> r is Some && r->0.field == "tools"@
            &&& tools ==> forall|k: int|
                0 <= k < seed.prompts.len() && !prompt_template(#[trigger] seed.prompts[k]) && (
                forall|j: int| 0 <= j < k ==> prompt_template(#[trigger] seed.prompts[j])) ==> r
                    is Some && r->0.field == "prompts["@ + decimal(k as nat) + "]"@
        }),
{
    let r = seed_rejection(seed, expected);
    lemma_undeclarable(seed.tools);
    lemma_prompts(seed.prompts, 0);
    if some_blank(seed.tools) {
        let i = choose|i: int| 0 <= i < seed.tools.len() && blank(#[trigger] seed.tools[i]);
        assert(!declarable(seed.tools[i]));
    } else {
        match first_undeclarable(seed.tools) {
            Some(t) => {
                let i = choose|i: int| 0 <= i < seed.tools.len() && seed.tools[i] == t;
                assert(!declarable(seed.tools[i]));
            },
            None => {
                assert forall|i: int| 0 <= i < seed.tools.len() implies declarable(
                    #[trigger] seed.tools[i],
                ) by {
                    assert(is_builtin(seed.tools[i]));
                }
            },
        }
    }
    if forall|i: int| 0 <= i < seed.tools.len() ==> declarable(#[trigger] seed.tools[i]) {
        assert(!some_blank(seed.tools));
        assert forall|i: int| 0 <= i < seed.tools.len() implies is_builtin(
            #[trigger] seed.tools[i],
        ) by {
            assert(declarable(seed.tools[i]));
        }
        assert forall|k: int|
            0 <= k < seed.prompts.len() && !prompt_template(#[trigger] seed.prompts[k]) && (forall|
                j: int,
            | 0 <= j < k ==> prompt_template(#[trigger] seed.prompts[j])) implies
            prompt_rejection(seed.prompts, 0) is Some && prompt_rejection(
            seed.prompts,
            0,
        )->0.field == "prompts["@ + decimal(k as nat) + "]"@ by {
            lemma_first_prompt(seed.prompts, 0, k);
        }
    }
}

// ---------------------------------------------------------------------------
// Hiring
// ---------------------------------------------------------------------------

/// Somebody new, with an id and a whole seed, is hired as a worker into any unit
/// that runs, where whoever asks manages it or nobody is said to ask.
pub proof fn law_who_is_hired(o: OrgModel, p: HireModel)
    ensures
        ({
            let r = hire_refusal(o, p);
            let fit = entity_id(p.person_id) && whole(p.seed, PersonKind::Worker);
            let known = o.departments.dom().contains(p.department_id);
            let open = fit && known && !stopped(o.departments, p.department_id);
            let asked = p.requester is None || manages(o, p.requester->0, p.department_id);
            &&& r is None <==> open && asked && !o.people.dom().contains(p.person_id)
            &&& r is Some && r->0 is InvalidSeed <==> !fit
            &&& r == Some(HireRefusalModel::UnknownDepartment) <==> fit && !known
            &&& r == Some(HireRefusalModel::DestinationPaused) <==> fit && known && stopped(
                o.departments,
                p.department_id,
            )
            &&& r == Some(HireRefusalModel::RequesterOutOfScope) <==> open && !asked
            &&& r == Some(HireRefusalModel::DuplicatePersonId) <==> open && asked
                && o.people.dom().contains(p.person_id)
            &&& !entity_id(p.person_id) ==> (r matches Some(
                HireRefusalModel::InvalidSeed { field, .. },
            ) && field == "personId"@)
            &&& entity_id(p.person_id) && !whole(p.seed, PersonKind::Worker) ==> (r matches Some(
                HireRefusalModel::InvalidSeed { field, .. },
            ) && field == seed_rejection(p.seed, PersonKind::Worker)->0.field)
        }),
{
    law_which_seed_is_taken(p.seed, PersonKind::Worker);
}

// ---------------------------------------------------------------------------
// Creating
// ---------------------------------------------------------------------------

/// Whether what a contract carries is in order: it says what it is for, when it
/// was launched, and, if it ends, an end after that.
pub open spec fn in_order(unit: CreateUnitModel) -> bool {
    match unit {
        CreateUnitModel::Department => true,
        CreateUnitModel::Contract(x) => {
            &&& !blank(x.engagement)
            &&& iso_value(x.launched_at) is Some
            &&& x.expires_at matches Some(end) ==> iso_value(end) is Some && iso_value(
                x.launched_at,
            )->0 < iso_value(end)->0
        },
    }
}

/// A contract is taken exactly where what it carries is in order, and what is
/// refused is the field that is not; an ordinary department carries nothing.
pub proof fn law_which_contract_is_taken(unit: CreateUnitModel)
    ensures
        contract_refusal(unit) is None <==> in_order(unit),
        contract_refusal(unit) is Some ==> (unit matches CreateUnitModel::Contract(x) && (
        contract_refusal(unit) matches Some(CreateRefusalModel::InvalidSeed { field, .. }) && field
            == (if blank(x.engagement) {
            "unit.transient.engagement"@
        } else if iso_value(x.launched_at) is None {
            "unit.transient.launchedAt"@
        } else {
            "unit.transient.expiresAt"@
        }))),
{
}

/// Whether somebody of the company is at hand: on work or on the bench, and not
/// the CEO.
pub open spec fn at_hand(o: OrgModel, p: Text) -> bool {
    &&& o.people.dom().contains(p)
    &&& !ceo(o.departments, p)
    &&& o.people[p].employment == EmploymentState::Active || o.people[p].employment
        == EmploymentState::Benched
}

/// Whether whoever asks may take somebody of the company for a head: they are
/// that person, manage the unit they are in, or nobody is said to ask.
pub open spec fn may_take(o: OrgModel, requester: Option<Text>, p: Text) -> bool {
    requester matches Some(r) ==> r == p || manages(o, r, o.people[p].department)
}

/// Anybody employed but the CEO, on the bench or not, may head a new unit: a
/// worker who heads nothing, or whoever heads a unit of which it is settled what
/// becomes. Only who has departed is told so.
pub proof fn law_who_heads_a_new_unit(o: OrgModel, p: CreateModel, person: Text)
    requires
        o.people.dom().finite(),
        o.departments.dom().finite(),
        p.head == (HeadDecisionModel::AppointExisting { person_id: person }),
    ensures
        ({
            let r = head_refusal(o, p);
            let known = o.people.dom().contains(person);
            let chief = ceo(o.departments, person);
            let taken = may_take(o, p.requester, person);
            let heads = headed_by(o.departments, person);
            let settled = settles(o, heads, person, p.vacates);
            let ready = at_hand(o, person) && taken;
            let row = o.people[person];
            &&& r is None <==> ready && settled && (heads is Some || row.kind
                == PersonKind::Worker)
            &&& r == Some(CreateRefusalModel::HeadDecisionRequired) <==> !known
            &&& r == Some(CreateRefusalModel::ExecRootProtected { person_id: person }) <==> known
                && chief
            &&& r == Some(CreateRefusalModel::RequesterOutOfScope) <==> known && !chief && !taken
            &&& r == Some(
                CreateRefusalModel::HeadNotEligible {
                    person_id: person,
                    because: HeadIneligibility::Departed,
                },
            ) <==> known && !chief && taken && row.employment == EmploymentState::Departed
            &&& r == Some(
                CreateRefusalModel::HeadNotEligible {
                    person_id: person,
                    because: HeadIneligibility::NotAWorker,
                },
            ) <==> ready && settled && heads is None && row.kind != PersonKind::Worker
            &&& r is Some && r->0 is HeadVacancy <==> ready && !settled
            &&& ready && !settled ==> r == Some(
                CreateRefusalModel::HeadVacancy(
                    vacancy_refusal(o, heads, person, p.vacates)->0,
                ),
            )
        }),
{
    law_how_a_headship_is_left(o, headed_by(o.departments, person), person, p.vacates);
}

/// Somebody new may be hired to head a new unit, where their id is one that
/// nobody has and their seed is whole for a head.
pub proof fn law_who_is_hired_to_head(o: OrgModel, p: CreateModel, person: Text, seed: SeedModel)
    requires
        p.head == (HeadDecisionModel::HireNew { person_id: person, seed }),
    ensures
        ({
            let r = head_refusal(o, p);
            let known = o.people.dom().contains(person);
            &&& r is None <==> !known && entity_id(person) && whole(seed, PersonKind::Head)
            &&& r == Some(CreateRefusalModel::DuplicatePersonId) <==> known
            &&& !known && !entity_id(person) ==> (r matches Some(
                CreateRefusalModel::InvalidSeed { field, .. },
            ) && field == "head.personId"@)
            &&& !known && entity_id(person) && !whole(seed, PersonKind::Head) ==> (r matches Some(
                CreateRefusalModel::InvalidSeed { field, .. },
            ) && field == "head."@ + seed_rejection(seed, PersonKind::Head)->0.field)
        }),
{
    law_which_seed_is_taken(seed, PersonKind::Head);
}

/// Whether one of a roster may come to a new unit: an id that neither the company
/// has nor the roster before it, and a whole seed of a worker.
pub open spec fn may_join(o: OrgModel, head: Text, staff: Seq<StaffModel>, i: int) -> bool {
    &&& entity_id(staff[i].person_id)
    &&& !o.people.dom().contains(staff[i].person_id)
    &&& staff[i].person_id != head
    &&& forall|j: int| 0 <= j < i ==> (#[trigger] staff[j]).person_id != staff[i].person_id
    &&& whole(staff[i].seed, PersonKind::Worker)
}

proof fn lemma_joins(o: OrgModel, head: Text, staff: Seq<StaffModel>, i: int)
    requires
        0 <= i < staff.len(),
    ensures
        may_join(o, head, staff, i) <==> entity_id(staff[i].person_id) && !named_before(
            head,
            staff,
            i,
        ) && !o.people.dom().contains(staff[i].person_id) && seed_refusal(
            staff[i].seed,
            PersonKind::Worker,
            "staff["@ + decimal(i as nat) + "]."@,
        ) is None,
{
    law_which_seed_is_taken(staff[i].seed, PersonKind::Worker);
}

proof fn lemma_all_join(o: OrgModel, head: Text, staff: Seq<StaffModel>, i: int)
    requires
        0 <= i <= staff.len(),
    ensures
        roster_refusal(o, head, staff, i) is None <==> forall|k: int|
            i <= k < staff.len() ==> #[trigger] may_join(o, head, staff, k),
    decreases staff.len() - i,
{
    if i < staff.len() {
        lemma_all_join(o, head, staff, i + 1);
        lemma_joins(o, head, staff, i);
        if roster_refusal(o, head, staff, i) is None {
            assert forall|k: int| i <= k < staff.len() implies #[trigger] may_join(
                o,
                head,
                staff,
                k,
            ) by {}
        } else if forall|k: int| i <= k < staff.len() ==> #[trigger] may_join(o, head, staff, k) {
            assert(may_join(o, head, staff, i));
        }
    }
}

proof fn lemma_first_that_does_not_join(
    o: OrgModel,
    head: Text,
    staff: Seq<StaffModel>,
    i: int,
    k: int,
)
    requires
        0 <= i <= k < staff.len(),
        !may_join(o, head, staff, k),
        forall|j: int| i <= j < k ==> #[trigger] may_join(o, head, staff, j),
    ensures
        roster_refusal(o, head, staff, i) == roster_refusal(o, head, staff, k),
    decreases k - i,
{
    if i < k {
        assert(may_join(o, head, staff, i));
        lemma_joins(o, head, staff, i);
        lemma_first_that_does_not_join(o, head, staff, i + 1, k);
    }
}

/// A roster is taken exactly where everybody on it may come.
pub proof fn law_which_roster_is_taken(o: OrgModel, head: Text, staff: Seq<StaffModel>)
    ensures
        roster_refusal(o, head, staff, 0) is None <==> forall|k: int|
            0 <= k < staff.len() ==> #[trigger] may_join(o, head, staff, k),
{
    lemma_all_join(o, head, staff, 0);
}

/// A roster is refused for the first on it who may not come, by their place.
pub proof fn law_the_first_who_may_not_come_is_why(
    o: OrgModel,
    head: Text,
    staff: Seq<StaffModel>,
    k: int,
)
    requires
        0 <= k < staff.len(),
        !may_join(o, head, staff, k),
        forall|j: int| 0 <= j < k ==> #[trigger] may_join(o, head, staff, j),
    ensures
        ({
            let r = roster_refusal(o, head, staff, 0);
            let who = staff[k];
            let place = "staff["@ + decimal(k as nat) + "]."@;
            let again = o.people.dom().contains(who.person_id) || who.person_id == head || exists|
                j: int,
            |
                0 <= j < k && (#[trigger] staff[j]).person_id == who.person_id;
            &&& r == Some(CreateRefusalModel::DuplicatePersonId) <==> entity_id(who.person_id)
                && again
            &&& !entity_id(who.person_id) ==> (r matches Some(
                CreateRefusalModel::InvalidSeed { field, .. },
            ) && field == "staff["@ + decimal(k as nat) + "].personId"@)
            &&& entity_id(who.person_id) && !again ==> (r matches Some(
                CreateRefusalModel::InvalidSeed { field, .. },
            ) && field == place + seed_rejection(who.seed, PersonKind::Worker)->0.field)
        }),
{
    lemma_first_that_does_not_join(o, head, staff, 0, k);
    lemma_joins(o, head, staff, k);
    law_which_seed_is_taken(staff[k].seed, PersonKind::Worker);
}

/// Whether the fields of a new unit are filled and its id is one.
pub open spec fn described(p: CreateModel) -> bool {
    !blank(p.name) && !blank(p.purpose) && entity_id(p.department_id)
}

proof fn lemma_id_not_blank(t: Text)
    requires
        entity_id(t),
    ensures
        !blank(t),
{
    assert(!is_space(t[0]));
}

/// A unit is created beneath any unit that runs, under an id that no unit has, by
/// whoever may create there, with its fields filled, and a head and a roster
/// that may come. Each refusal says what stands in the way.
pub proof fn law_which_unit_is_created(o: OrgModel, p: CreateModel)
    ensures
        ({
            let r = create_refusal(o, p);
            let sound = in_order(p.unit);
            let known = o.departments.dom().contains(p.parent_id);
            let open = sound && known && !stopped(o.departments, p.parent_id);
            let new = open && !o.departments.dom().contains(p.department_id);
            let asked = new && (p.requester is None || may_create_under(
                o,
                p.requester->0,
                p.parent_id,
            ));
            let filled = asked && described(p);
            let head = head_refusal(o, p);
            let headed = filled && head is None;
            let staffed = forall|k: int|
                0 <= k < p.staff.len() ==> #[trigger] may_join(o, p.head.person_id(), p.staff, k);
            &&& r is None <==> headed && staffed
            &&& !sound ==> r == contract_refusal(p.unit)
            &&& r == Some(CreateRefusalModel::UnknownParent) <==> sound && !known
            &&& r == Some(CreateRefusalModel::ParentPaused) <==> sound && known && stopped(
                o.departments,
                p.parent_id,
            )
            &&& r == Some(CreateRefusalModel::DuplicateDepartmentId) <==> open && !new
            &&& new && !asked ==> r == Some(CreateRefusalModel::RequesterOutOfScope)
            &&& asked && !filled ==> (r matches Some(CreateRefusalModel::InvalidSeed { field, .. })
                && field == (if blank(p.department_id) {
                "departmentId"@
            } else if blank(p.name) {
                "name"@
            } else if blank(p.purpose) {
                "purpose"@
            } else {
                "departmentId"@
            }))
            &&& filled && head is Some ==> r == head
            &&& headed ==> r == roster_refusal(o, p.head.person_id(), p.staff, 0)
        }),
{
    law_which_contract_is_taken(p.unit);
    law_which_roster_is_taken(o, p.head.person_id(), p.staff);
    if entity_id(p.department_id) {
        lemma_id_not_blank(p.department_id);
    }
    lemma_roster_says(o, p.head.person_id(), p.staff, 0);
}

/// A roster is refused for an id or a seed, and for nothing else.
proof fn lemma_roster_says(o: OrgModel, head: Text, staff: Seq<StaffModel>, i: int)
    requires
        0 <= i,
    ensures
        roster_refusal(o, head, staff, i) is Some ==> roster_refusal(o, head, staff, i)->0
            is InvalidSeed || roster_refusal(o, head, staff, i)
            == Some(CreateRefusalModel::DuplicatePersonId),
    decreases staff.len() - i,
{
    if i < staff.len() {
        lemma_roster_says(o, head, staff, i + 1);
    }
}

/// Somebody heads a unit exactly where a unit names them its head.
proof fn lemma_heads_some(c: CompanyModel, person: Text)
    requires
        c.departments.dom().finite(),
    ensures
        c.headed_by(person) is Some <==> exists|d: Text| #[trigger]
            c.departments.dom().contains(d) && c.departments[d].head_person_id == person,
        c.headed_by(person) matches Some(d) ==> c.departments.dom().contains(d)
            && c.departments[d].head_person_id == person,
{
    lemma_org(c);
    let m = c.org().departments;
    let q = listing(m.dom());
    lemma_finite_listing(m.dom());
    lemma_first_where(q, |d: Text| m[d].head == person);
    match c.headed_by(person) {
        Some(d) => {
            assert(q.contains(d));
            assert(m.dom().contains(d));
            assert(c.departments.dom().contains(d) && c.departments[d].head_person_id == person);
        },
        None => {
            assert forall|d: Text| #[trigger]
                c.departments.dom().contains(d) implies c.departments[d].head_person_id
                != person by {
                assert(q.contains(d));
                let i = choose|i: int| 0 <= i < q.len() && q[i] == d;
                assert(m[q[i]].head != person);
            }
        },
    }
}

/// Once the head to be has left their unit, they head what else names them.
proof fn lemma_freed_heads(c: CompanyModel, p: CreateModel, person: Text)
    requires
        c.finite(),
        head_refusal(c.org(), p) is None,
        p.head == (HeadDecisionModel::AppointExisting { person_id: person }),
    ensures
        c.head_freed(p).headed_by(person) is Some <==> exists|d: Text| #[trigger]
            c.departments.dom().contains(d) && c.headed_by(person) != Some(d)
                && c.departments[d].head_person_id == person,
{
    let f = c.head_freed(p);
    let left = c.headed_by(person);
    lemma_org(c);
    law_who_heads_a_new_unit(c.org(), p, person);
    lemma_heads_some(c, person);
    if let Some(decision) = p.vacates {
        let unit = left->0;
        let there = match decision {
            HeadVacancyModel::Dissolve => c.move_person(person, p.parent_id, p.at),
            HeadVacancyModel::HandOver { .. } => c,
        };
        assert(there.departments == c.departments);
        assert(there.org().departments =~= c.org().departments);
        assert(there.headed_by(person) == left);
        match decision {
            HeadVacancyModel::HandOver { successor_person_id } => {
                assert(f.departments.dom() =~= c.departments.dom());
            },
            HeadVacancyModel::Dissolve => {
                let emptied_out = match there.departments[unit].parent_id {
                    Some(parent) => {
                        lemma_rehome(
                            there,
                            there.people_in(seq![unit]),
                            person,
                            unit,
                            parent,
                            p.audit_reason,
                            p.at,
                        );
                        there.rehome(
                            there.people_in(seq![unit]),
                            person,
                            unit,
                            parent,
                            p.audit_reason,
                            p.at,
                        )
                    },
                    None => there,
                };
                let gone = emptied_out.delete_department(unit);
                lemma_number_departments(gone, gone.department_order(), p.at);
                assert(f.departments == gone.refresh_department_order(p.at).departments);
                assert(f.departments.dom() == c.departments.dom().remove(unit));
                assert forall|d: Text| #[trigger] f.departments.dom().contains(d) implies
                    f.departments[d].head_person_id == c.departments[d].head_person_id by {
                    assert(gone.departments.dom().contains(d));
                }
            },
        }
        lemma_heads_some(f, person);
        if f.headed_by(person) is Some {
            let d = f.headed_by(person)->0;
            assert(c.departments.dom().contains(d) && left != Some(d)
                && c.departments[d].head_person_id == person);
        }
        if exists|d: Text| #[trigger]
            c.departments.dom().contains(d) && left != Some(d) && c.departments[d].head_person_id
                == person {
            let d = choose|d: Text| #[trigger]
                c.departments.dom().contains(d) && left != Some(d)
                    && c.departments[d].head_person_id == person;
            assert(f.departments.dom().contains(d) && f.departments[d].head_person_id == person);
        }
    }
}

/// The rows take a create that is not refused, unless somebody would come to head
/// two units, or a unit that goes is still needed: another unit than the one that
/// is left names the head to be, the successor heads one already, or the unit
/// that goes is the one the new one hangs from or the last home of somebody.
pub proof fn law_when_the_rows_take_a_create(c: CompanyModel, p: CreateModel, person: Text)
    requires
        c.finite(),
        create_refusal(c.org(), p) is None,
        p.head == (HeadDecisionModel::AppointExisting { person_id: person }),
    ensures
        ({
            let left = c.headed_by(person);
            let twice = exists|d: Text| #[trigger]
                c.departments.dom().contains(d) && left != Some(d)
                    && c.departments[d].head_person_id == person;
            c.create_breaks(p) <==> twice || (p.vacates is Some && needed(
                c,
                person,
                left->0,
                p.vacates->0,
                p.parent_id,
            ))
        }),
{
    lemma_org(c);
    law_who_heads_a_new_unit(c.org(), p, person);
    lemma_freed_heads(c, p, person);
}

/// Whether the unit somebody leaves cannot be left so: the successor heads
/// another, or the unit that goes is where the leaver comes to, or has nothing
/// above it and somebody in it.
pub open spec fn needed(
    c: CompanyModel,
    leaver: Text,
    unit: Text,
    decision: HeadVacancyModel,
    lands: Text,
) -> bool {
    match decision {
        HeadVacancyModel::HandOver { successor_person_id } => exists|d: Text| #[trigger]
            c.departments.dom().contains(d) && d != unit && c.departments[d].head_person_id
                == successor_person_id,
        HeadVacancyModel::Dissolve => lands == unit || c.departments[unit].parent_id is None
            && exists|p: Text| #[trigger]
            c.people.dom().contains(p) && p != leaver && c.people[p].department_id == unit,
    }
}

/// The rows take a transfer that is not refused, unless the unit that is left
/// cannot be left so.
pub proof fn law_when_the_rows_take_a_transfer(
    c: CompanyModel,
    person: Text,
    decision: HeadVacancyModel,
    destination: Text,
)
    ensures
        c.vacancy_breaks(person, decision, destination) <==> c.headed_by(person) is Some && needed(
            c,
            person,
            c.headed_by(person)->0,
            decision,
            destination,
        ),
{
}

// ---------------------------------------------------------------------------
// What is answered
// ---------------------------------------------------------------------------

/// A create and a hire are applied exactly where nothing stands in the way; where
/// they are not, nothing is written. A hire never fails once it is not refused.
pub proof fn law_what_is_answered(
    before: CompanyModel,
    p: CreateModel,
    h: HireModel,
    actor: Text,
    r: Result<CreateDepartmentOutcome, RowError>,
    a: Result<HireOutcome, RowError>,
    after: CompanyModel,
)
    ensures
        create_answers(before, p, actor, r, after) ==> {
            let refused = create_refusal(before.org(), p) is Some;
            &&& refused ==> r is Ok && r->Ok_0 is Refused && create_refusal(before.org(), p)
                == Some(r->Ok_0->reason@) && after == before
            &&& !refused && before.create_breaks(p) ==> r is Err && after == before
            &&& !refused && !before.create_breaks(p) ==> r is Ok && r->Ok_0 is Applied
                && r->Ok_0->department_id@ == p.department_id && after
                == before.department_created(p, actor)
        },
        hire_answers(before, h, actor, a, after) ==> {
            let refused = hire_refusal(before.org(), h) is Some;
            &&& refused ==> a is Ok && a->Ok_0 is Refused && hire_refusal(before.org(), h) == Some(
                a->Ok_0->reason@,
            ) && after == before
            &&& !refused ==> a is Ok && a->Ok_0 is Applied && after == before.hired(h, actor)
        },
{
}

} // verus!
