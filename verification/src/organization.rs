//! The vocabulary of an organization: units, people and the manifest that
//! holds them.

use vstd::prelude::*;

use crate::table::{Duplicate, Table};
use crate::text::{opt, owned_list, owned_opt, same, seen, Text};

verus! {

/// The manifest schema this library writes.
pub const ORGANIZATION_SCHEMA_VERSION: u32 = 1;

/// The id of the unit everything else hangs from.
pub const ROOT_DEPARTMENT_ID: &'static str = "executive";

/// Whether a unit is running.
#[derive(Debug, Clone, Copy, PartialEq, Eq, Structural)]
pub enum UnitState {
    /// Running.
    Active,
    /// Stopped, with everything beneath it.
    Paused,
}

impl UnitState {
    /// The word a row stores.
    pub open spec fn as_str_text(self) -> Text {
        match self {
            UnitState::Active => "active"@,
            UnitState::Paused => "paused"@,
        }
    }

    /// The word a row stores.
    pub fn as_str(self) -> (r: &'static str)
        ensures
            r@ == self.as_str_text(),
    {
        match self {
            UnitState::Active => "active",
            UnitState::Paused => "paused",
        }
    }

    /// What a stored word says.
    pub open spec fn named(word: Text) -> Option<UnitState> {
        if word == "active"@ {
            Some(UnitState::Active)
        } else if word == "paused"@ {
            Some(UnitState::Paused)
        } else {
            None
        }
    }

    /// What a stored word says, if it is one of these.
    pub fn from_word(word: &str) -> (r: Option<UnitState>)
        ensures
            r == UnitState::named(word@),
    {
        if same(word, "active") {
            Some(UnitState::Active)
        } else if same(word, "paused") {
            Some(UnitState::Paused)
        } else {
            None
        }
    }
}

/// What a unit is.
#[derive(Debug, Clone, Copy, PartialEq, Eq, Structural)]
pub enum UnitKind {
    /// The root.
    Company,
    /// An ordinary department.
    Department,
    /// A transient contract.
    Contract,
}

impl UnitKind {
    /// The word a row stores.
    pub open spec fn as_str_text(self) -> Text {
        match self {
            UnitKind::Company => "company"@,
            UnitKind::Department => "department"@,
            UnitKind::Contract => "contract"@,
        }
    }

    /// The word a row stores.
    pub fn as_str(self) -> (r: &'static str)
        ensures
            r@ == self.as_str_text(),
    {
        match self {
            UnitKind::Company => "company",
            UnitKind::Department => "department",
            UnitKind::Contract => "contract",
        }
    }

    /// What a stored word says.
    pub open spec fn named(word: Text) -> Option<UnitKind> {
        if word == "company"@ {
            Some(UnitKind::Company)
        } else if word == "department"@ {
            Some(UnitKind::Department)
        } else if word == "contract"@ {
            Some(UnitKind::Contract)
        } else {
            None
        }
    }

    /// What a stored word says, if it is one of these.
    pub fn from_word(word: &str) -> (r: Option<UnitKind>)
        ensures
            r == UnitKind::named(word@),
    {
        if same(word, "company") {
            Some(UnitKind::Company)
        } else if same(word, "department") {
            Some(UnitKind::Department)
        } else if same(word, "contract") {
            Some(UnitKind::Contract)
        } else {
            None
        }
    }
}

/// A person's structural role.
#[derive(Debug, Clone, Copy, PartialEq, Eq, Structural)]
pub enum PersonKind {
    /// Reaches the whole company.
    Executive,
    /// Heads one unit.
    Head,
    /// Heads nothing.
    Worker,
}

impl PersonKind {
    /// The word a row stores.
    pub open spec fn as_str_text(self) -> Text {
        match self {
            PersonKind::Executive => "executive"@,
            PersonKind::Head => "head"@,
            PersonKind::Worker => "worker"@,
        }
    }

    /// The word a row stores.
    pub fn as_str(self) -> (r: &'static str)
        ensures
            r@ == self.as_str_text(),
    {
        match self {
            PersonKind::Executive => "executive",
            PersonKind::Head => "head",
            PersonKind::Worker => "worker",
        }
    }

    /// What a stored word says.
    pub open spec fn named(word: Text) -> Option<PersonKind> {
        if word == "executive"@ {
            Some(PersonKind::Executive)
        } else if word == "head"@ {
            Some(PersonKind::Head)
        } else if word == "worker"@ {
            Some(PersonKind::Worker)
        } else {
            None
        }
    }

    /// What a stored word says, if it is one of these.
    pub fn from_word(word: &str) -> (r: Option<PersonKind>)
        ensures
            r == PersonKind::named(word@),
    {
        if same(word, "executive") {
            Some(PersonKind::Executive)
        } else if same(word, "head") {
            Some(PersonKind::Head)
        } else if same(word, "worker") {
            Some(PersonKind::Worker)
        } else {
            None
        }
    }

    /// The role's name, capitalized.
    pub open spec fn name_text(self) -> Text {
        match self {
            PersonKind::Executive => "Executive"@,
            PersonKind::Head => "Head"@,
            PersonKind::Worker => "Worker"@,
        }
    }

    /// The role's name, capitalized.
    pub fn name(self) -> (r: &'static str)
        ensures
            r@ == self.name_text(),
    {
        match self {
            PersonKind::Executive => "Executive",
            PersonKind::Head => "Head",
            PersonKind::Worker => "Worker",
        }
    }
}

/// Whether a person is staffed.
#[derive(Debug, Clone, Copy, PartialEq, Eq, Structural)]
pub enum EmploymentState {
    /// Staffed.
    Active,
    /// On the roster, not staffed.
    Benched,
    /// Gone. The record stays.
    Departed,
}

impl EmploymentState {
    /// The word a row stores.
    pub open spec fn as_str_text(self) -> Text {
        match self {
            EmploymentState::Active => "active"@,
            EmploymentState::Benched => "benched"@,
            EmploymentState::Departed => "departed"@,
        }
    }

    /// The word a row stores.
    pub fn as_str(self) -> (r: &'static str)
        ensures
            r@ == self.as_str_text(),
    {
        match self {
            EmploymentState::Active => "active",
            EmploymentState::Benched => "benched",
            EmploymentState::Departed => "departed",
        }
    }

    /// What a stored word says.
    pub open spec fn named(word: Text) -> Option<EmploymentState> {
        if word == "active"@ {
            Some(EmploymentState::Active)
        } else if word == "benched"@ {
            Some(EmploymentState::Benched)
        } else if word == "departed"@ {
            Some(EmploymentState::Departed)
        } else {
            None
        }
    }

    /// What a stored word says, if it is one of these.
    pub fn from_word(word: &str) -> (r: Option<EmploymentState>)
        ensures
            r == EmploymentState::named(word@),
    {
        if same(word, "active") {
            Some(EmploymentState::Active)
        } else if same(word, "benched") {
            Some(EmploymentState::Benched)
        } else if same(word, "departed") {
            Some(EmploymentState::Departed)
        } else {
            None
        }
    }
}

/// What a contract unit carries.
#[derive(Debug, Clone, PartialEq, Eq)]
pub struct ContractMetadata {
    /// What the contract is for.
    pub engagement: String,
    /// When it began.
    pub launched_at: String,
    /// When it ends, if it does.
    pub expires_at: Option<String>,
}

/// What a contract unit carries, as read.
pub struct ContractModel {
    /// What the contract is for.
    pub engagement: Text,
    /// When it began.
    pub launched_at: Text,
    /// When it ends, if it does.
    pub expires_at: Option<Text>,
}

impl View for ContractMetadata {
    type V = ContractModel;

    open spec fn view(&self) -> ContractModel {
        ContractModel {
            engagement: self.engagement@,
            launched_at: self.launched_at@,
            expires_at: opt(self.expires_at),
        }
    }
}

impl Duplicate for ContractMetadata {
    fn duplicate(&self) -> (r: Self) {
        ContractMetadata {
            engagement: self.engagement.clone(),
            launched_at: self.launched_at.clone(),
            expires_at: owned_opt(&self.expires_at),
        }
    }
}

/// A copy of optional contract metadata.
pub fn copy_transient(o: &Option<ContractMetadata>) -> (r: Option<ContractMetadata>)
    ensures
        opt(r) == opt(*o),
{
    match o {
        Some(c) => Some(c.duplicate()),
        None => None,
    }
}

// ---------------------------------------------------------------------------
// Open fields
// ---------------------------------------------------------------------------

/// What a record holds beside its named fields: further fields by name, the
/// value of each as JSON text. Projections carry them along and read none.
#[derive(Debug, PartialEq, Eq)]
pub struct OpenFields {
    fields: Table<String>,
}

impl View for OpenFields {
    type V = Map<Text, Text>;

    closed spec fn view(&self) -> Map<Text, Text> {
        self.fields@
    }
}

impl OpenFields {
    #[verifier::type_invariant]
    spec fn one_value_to_a_name(&self) -> bool {
        self.fields.wf()
    }

    /// No further fields.
    pub fn new() -> (r: Self)
        ensures
            r@ == Map::<Text, Text>::empty(),
    {
        OpenFields { fields: Table::new() }
    }

    /// The value of a field.
    pub fn get(&self, name: &str) -> (r: Option<&String>)
        ensures
            opt(r) == (if self@.dom().contains(name@) {
                Some(self@[name@])
            } else {
                None
            }),
    {
        proof {
            use_type_invariant(self);
        }
        self.fields.get(name)
    }

    /// These fields and one more, in place of the one of that name.
    pub fn with(self, name: &str, value: String) -> (r: Self)
        ensures
            r@ == self@.insert(name@, value@),
    {
        proof {
            use_type_invariant(&self);
        }
        let mut fields = self.fields;
        fields.put(name, value);
        OpenFields { fields }
    }
}

impl Duplicate for OpenFields {
    fn duplicate(&self) -> (r: Self) {
        proof {
            use_type_invariant(self);
        }
        OpenFields { fields: self.fields.copy_all() }
    }
}

impl Clone for OpenFields {
    fn clone(&self) -> (r: Self)
        ensures
            r@ == self@,
    {
        self.duplicate()
    }
}

// ---------------------------------------------------------------------------
// The manifest
// ---------------------------------------------------------------------------

/// One unit of the manifest.
#[derive(Debug, Clone, PartialEq, Eq)]
pub struct DepartmentRecord {
    /// Its id.
    pub id: String,
    /// Display name.
    pub name: String,
    /// What it exists to do.
    pub purpose: String,
    /// What it is.
    pub kind: Option<UnitKind>,
    /// What a contract unit carries.
    pub transient: Option<ContractMetadata>,
    /// The unit above; absent only on the root.
    pub parent_department_id: Option<String>,
    /// Who heads it.
    pub head_person_id: String,
    /// Whether it is running.
    pub state: UnitState,
    /// When it was created.
    pub created_at: String,
    /// Fields beside these.
    pub extra: OpenFields,
}

/// One unit of the manifest, as read.
pub struct DepartmentRecordModel {
    /// Its id.
    pub id: Text,
    /// Display name.
    pub name: Text,
    /// What it exists to do.
    pub purpose: Text,
    /// What it is.
    pub kind: Option<UnitKind>,
    /// What a contract unit carries.
    pub transient: Option<ContractModel>,
    /// The unit above; absent only on the root.
    pub parent_department_id: Option<Text>,
    /// Who heads it.
    pub head_person_id: Text,
    /// Whether it is running.
    pub state: UnitState,
    /// When it was created.
    pub created_at: Text,
    /// Fields beside these.
    pub extra: Map<Text, Text>,
}

impl View for DepartmentRecord {
    type V = DepartmentRecordModel;

    open spec fn view(&self) -> DepartmentRecordModel {
        DepartmentRecordModel {
            id: self.id@,
            name: self.name@,
            purpose: self.purpose@,
            kind: self.kind,
            transient: opt(self.transient),
            parent_department_id: opt(self.parent_department_id),
            head_person_id: self.head_person_id@,
            state: self.state,
            created_at: self.created_at@,
            extra: self.extra@,
        }
    }
}

impl Duplicate for DepartmentRecord {
    fn duplicate(&self) -> (r: Self) {
        DepartmentRecord {
            id: self.id.clone(),
            name: self.name.clone(),
            purpose: self.purpose.clone(),
            kind: self.kind,
            transient: copy_transient(&self.transient),
            parent_department_id: owned_opt(&self.parent_department_id),
            head_person_id: self.head_person_id.clone(),
            state: self.state,
            created_at: self.created_at.clone(),
            extra: self.extra.duplicate(),
        }
    }
}

/// One person of the manifest.
#[derive(Debug, Clone, PartialEq, Eq)]
pub struct PersonRecord {
    /// Their id.
    pub id: String,
    /// Display name.
    pub name: String,
    /// Role title.
    pub title: String,
    /// What they are there to do.
    pub mandate: String,
    /// Structural role.
    pub kind: PersonKind,
    /// The unit they belong to.
    pub department_id: String,
    /// Whether they are staffed.
    pub employment_state: EmploymentState,
    /// `resident` or `on-demand`.
    pub activation: String,
    /// Declared tools.
    pub tools: Vec<String>,
    /// Prompt templates.
    pub prompts: Vec<String>,
    /// When the record was made.
    pub created_at: String,
    /// Their staffing record, as JSON text.
    pub staffing_history: Option<String>,
    /// Fields beside these.
    pub extra: OpenFields,
}

/// One person of the manifest, as read.
pub struct PersonRecordModel {
    /// Their id.
    pub id: Text,
    /// Display name.
    pub name: Text,
    /// Role title.
    pub title: Text,
    /// What they are there to do.
    pub mandate: Text,
    /// Structural role.
    pub kind: PersonKind,
    /// The unit they belong to.
    pub department_id: Text,
    /// Whether they are staffed.
    pub employment_state: EmploymentState,
    /// `resident` or `on-demand`.
    pub activation: Text,
    /// Declared tools.
    pub tools: Seq<Text>,
    /// Prompt templates.
    pub prompts: Seq<Text>,
    /// When the record was made.
    pub created_at: Text,
    /// Their staffing record, as JSON text.
    pub staffing_history: Option<Text>,
    /// Fields beside these.
    pub extra: Map<Text, Text>,
}

impl View for PersonRecord {
    type V = PersonRecordModel;

    open spec fn view(&self) -> PersonRecordModel {
        PersonRecordModel {
            id: self.id@,
            name: self.name@,
            title: self.title@,
            mandate: self.mandate@,
            kind: self.kind,
            department_id: self.department_id@,
            employment_state: self.employment_state,
            activation: self.activation@,
            tools: seen(self.tools@),
            prompts: seen(self.prompts@),
            created_at: self.created_at@,
            staffing_history: opt(self.staffing_history),
            extra: self.extra@,
        }
    }
}

impl Duplicate for PersonRecord {
    fn duplicate(&self) -> (r: Self) {
        PersonRecord {
            id: self.id.clone(),
            name: self.name.clone(),
            title: self.title.clone(),
            mandate: self.mandate.clone(),
            kind: self.kind,
            department_id: self.department_id.clone(),
            employment_state: self.employment_state,
            activation: self.activation.clone(),
            tools: owned_list(&self.tools),
            prompts: owned_list(&self.prompts),
            created_at: self.created_at.clone(),
            staffing_history: owned_opt(&self.staffing_history),
            extra: self.extra.duplicate(),
        }
    }
}

/// The supervision policy of a company.
#[derive(Debug, Clone, Copy, PartialEq, Eq, Structural)]
pub struct OrganizationPolicy {
    /// Milliseconds between supervision passes.
    pub supervision_interval_ms: i64,
    /// Milliseconds before an unacknowledged goal escalates.
    pub acknowledgement_timeout_ms: i64,
    /// Retries before an unacknowledged goal counts as failed.
    pub acknowledgement_retry_limit: i64,
    /// Concurrent replacement cap.
    pub replacement_limit: i64,
}

/// A whole company on paper.
#[derive(Debug, Clone, PartialEq, Eq)]
pub struct OrganizationManifest {
    /// Which schema this follows.
    pub schema_version: u32,
    /// Always `organization`.
    pub kind: String,
    /// The company's display slug.
    pub slug: String,
    /// Display name.
    pub name: String,
    /// What the company exists to do.
    pub purpose: String,
    /// The unit everything else hangs from.
    pub root_department_id: String,
    /// The supervision policy.
    pub policy: OrganizationPolicy,
    /// Units in display order.
    pub department_order: Vec<String>,
    /// People in display order.
    pub people_order: Vec<String>,
    /// Units by id.
    pub departments: Table<DepartmentRecord>,
    /// People by id.
    pub people: Table<PersonRecord>,
    /// When the company was created.
    pub created_at: String,
    /// When it last changed.
    pub updated_at: String,
    /// Fields beside these.
    pub extra: OpenFields,
}

/// A whole company on paper, as read.
pub struct ManifestModel {
    /// Which schema this follows.
    pub schema_version: u32,
    /// Always `organization`.
    pub kind: Text,
    /// The company's display slug.
    pub slug: Text,
    /// Display name.
    pub name: Text,
    /// What the company exists to do.
    pub purpose: Text,
    /// The unit everything else hangs from.
    pub root_department_id: Text,
    /// The supervision policy.
    pub policy: OrganizationPolicy,
    /// Units in display order.
    pub department_order: Seq<Text>,
    /// People in display order.
    pub people_order: Seq<Text>,
    /// Units by id.
    pub departments: Map<Text, DepartmentRecordModel>,
    /// People by id.
    pub people: Map<Text, PersonRecordModel>,
    /// When the company was created.
    pub created_at: Text,
    /// When it last changed.
    pub updated_at: Text,
    /// Fields beside these.
    pub extra: Map<Text, Text>,
}

impl View for OrganizationManifest {
    type V = ManifestModel;

    open spec fn view(&self) -> ManifestModel {
        ManifestModel {
            schema_version: self.schema_version,
            kind: self.kind@,
            slug: self.slug@,
            name: self.name@,
            purpose: self.purpose@,
            root_department_id: self.root_department_id@,
            policy: self.policy,
            department_order: seen(self.department_order@),
            people_order: seen(self.people_order@),
            departments: self.departments@,
            people: self.people@,
            created_at: self.created_at@,
            updated_at: self.updated_at@,
            extra: self.extra@,
        }
    }
}

impl OrganizationManifest {
    /// One record to an id.
    pub open spec fn wf(&self) -> bool {
        self.departments.wf() && self.people.wf()
    }

    /// A copy of the whole manifest.
    pub fn copy_all(&self) -> (r: Self)
        requires
            self.wf(),
        ensures
            r.wf(),
            r@ == self@,
    {
        OrganizationManifest {
            schema_version: self.schema_version,
            kind: self.kind.clone(),
            slug: self.slug.clone(),
            name: self.name.clone(),
            purpose: self.purpose.clone(),
            root_department_id: self.root_department_id.clone(),
            policy: self.policy,
            department_order: owned_list(&self.department_order),
            people_order: owned_list(&self.people_order),
            departments: self.departments.copy_all(),
            people: self.people.copy_all(),
            created_at: self.created_at.clone(),
            updated_at: self.updated_at.clone(),
            extra: self.extra.duplicate(),
        }
    }
}

} // verus!
