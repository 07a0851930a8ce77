//! The rows of one company, as plain values.

use vstd::prelude::*;

use crate::organization::{
    copy_transient, ContractMetadata, ContractModel, EmploymentState, PersonKind, UnitKind,
    UnitState,
};
use crate::table::{copy_list, Duplicate, Table};
use crate::text::{cat5, opt, owned, owned_list, owned_opt, same, seen, Text};

verus! {

/// What a staffing-history entry records.
#[derive(Debug, Clone, Copy, PartialEq, Eq, Structural)]
pub enum StaffingAction {
    /// Hired into a unit.
    Hired,
    /// Moved to another unit.
    Transferred,
    /// Made head of a unit.
    AppointedHead,
    /// No longer head of a unit.
    SteppedDown,
    /// Left the company.
    Offboarded,
    /// No longer staffed.
    Benched,
    /// Staffed again after a bench.
    Recalled,
    /// Staffed again after a departure.
    Rehired,
}

impl StaffingAction {
    /// The word a row stores.
    pub open spec fn as_str_text(self) -> Text {
        match self {
            StaffingAction::Hired => "hired"@,
            StaffingAction::Transferred => "transferred"@,
            StaffingAction::AppointedHead => "appointed-head"@,
            StaffingAction::SteppedDown => "stepped-down"@,
            StaffingAction::Offboarded => "offboarded"@,
            StaffingAction::Benched => "benched"@,
            StaffingAction::Recalled => "recalled"@,
            StaffingAction::Rehired => "rehired"@,
        }
    }

    /// The word a row stores.
    pub fn as_str(self) -> (r: &'static str)
        ensures
            r@ == self.as_str_text(),
    {
        match self {
            StaffingAction::Hired => "hired",
            StaffingAction::Transferred => "transferred",
            StaffingAction::AppointedHead => "appointed-head",
            StaffingAction::SteppedDown => "stepped-down",
            StaffingAction::Offboarded => "offboarded",
            StaffingAction::Benched => "benched",
            StaffingAction::Recalled => "recalled",
            StaffingAction::Rehired => "rehired",
        }
    }
}

/// What a transition is about.
#[derive(Debug, Clone, Copy, PartialEq, Eq, Structural)]
pub enum TransitionAction {
    /// Going quiet.
    Park,
    /// Moving to another unit.
    Transfer,
    /// Leaving the company.
    Offboard,
}

impl TransitionAction {
    /// The word a row stores.
    pub open spec fn as_str_text(self) -> Text {
        match self {
            TransitionAction::Park => "park"@,
            TransitionAction::Transfer => "transfer"@,
            TransitionAction::Offboard => "offboard"@,
        }
    }

    /// The word a row stores.
    pub fn as_str(self) -> (r: &'static str)
        ensures
            r@ == self.as_str_text(),
    {
        match self {
            TransitionAction::Park => "park",
            TransitionAction::Transfer => "transfer",
            TransitionAction::Offboard => "offboard",
        }
    }

    /// What a stored word says.
    pub open spec fn named(word: Text) -> Option<TransitionAction> {
        if word == "park"@ {
            Some(TransitionAction::Park)
        } else if word == "transfer"@ {
            Some(TransitionAction::Transfer)
        } else if word == "offboard"@ {
            Some(TransitionAction::Offboard)
        } else {
            None
        }
    }

    /// What a stored word says, if it is one of these.
    pub fn from_word(word: &str) -> (r: Option<TransitionAction>)
        ensures
            r == TransitionAction::named(word@),
    {
        if same(word, "park") {
            Some(TransitionAction::Park)
        } else if same(word, "transfer") {
            Some(TransitionAction::Transfer)
        } else if same(word, "offboard") {
            Some(TransitionAction::Offboard)
        } else {
            None
        }
    }
}

/// How far a transition has come.
#[derive(Debug, Clone, Copy, PartialEq, Eq, Structural)]
pub enum TransitionStatus {
    /// Open; the person has not released it.
    AwaitingHandoff,
    /// Open; the grace window has run out.
    Overdue,
    /// Open; the person has released it.
    Ready,
    /// Closed; the change went through.
    Applied,
    /// Closed; the change did not go through.
    Cancelled,
}

impl TransitionStatus {
    /// The word a row stores.
    pub open spec fn as_str_text(self) -> Text {
        match self {
            TransitionStatus::AwaitingHandoff => "awaiting_handoff"@,
            TransitionStatus::Overdue => "overdue"@,
            TransitionStatus::Ready => "ready"@,
            TransitionStatus::Applied => "applied"@,
            TransitionStatus::Cancelled => "cancelled"@,
        }
    }

    /// The word a row stores.
    pub fn as_str(self) -> (r: &'static str)
        ensures
            r@ == self.as_str_text(),
    {
        match self {
            TransitionStatus::AwaitingHandoff => "awaiting_handoff",
            TransitionStatus::Overdue => "overdue",
            TransitionStatus::Ready => "ready",
            TransitionStatus::Applied => "applied",
            TransitionStatus::Cancelled => "cancelled",
        }
    }

    /// What a stored word says.
    pub open spec fn named(word: Text) -> Option<TransitionStatus> {
        if word == "awaiting_handoff"@ {
            Some(TransitionStatus::AwaitingHandoff)
        } else if word == "overdue"@ {
            Some(TransitionStatus::Overdue)
        } else if word == "ready"@ {
            Some(TransitionStatus::Ready)
        } else if word == "applied"@ {
            Some(TransitionStatus::Applied)
        } else if word == "cancelled"@ {
            Some(TransitionStatus::Cancelled)
        } else {
            None
        }
    }

    /// What a stored word says, if it is one of these.
    pub fn from_word(word: &str) -> (r: Option<TransitionStatus>)
        ensures
            r == TransitionStatus::named(word@),
    {
        if same(word, "awaiting_handoff") {
            Some(TransitionStatus::AwaitingHandoff)
        } else if same(word, "overdue") {
            Some(TransitionStatus::Overdue)
        } else if same(word, "ready") {
            Some(TransitionStatus::Ready)
        } else if same(word, "applied") {
            Some(TransitionStatus::Applied)
        } else if same(word, "cancelled") {
            Some(TransitionStatus::Cancelled)
        } else {
            None
        }
    }
}

impl TransitionStatus {
    /// Whether a transition with this status is still to come out.
    pub open spec fn open(self) -> bool {
        self == TransitionStatus::AwaitingHandoff || self == TransitionStatus::Overdue || self
            == TransitionStatus::Ready
    }

    /// Whether a transition with this status is still to come out.
    pub fn is_open(self) -> (r: bool)
        ensures
            r == self.open(),
    {
        matches!(
            self,
            TransitionStatus::AwaitingHandoff | TransitionStatus::Overdue | TransitionStatus::Ready
        )
    }
}

/// What kind of thing a row change touches.
#[derive(Debug, Clone, Copy, PartialEq, Eq, Structural)]
pub enum Entity {
    /// The company's settings.
    Org,
    /// A unit.
    Department,
    /// A person.
    Person,
    /// A transition.
    Transition,
    /// A person's activity.
    PersonActivity,
    /// A start decision.
    LaunchIntent,
    /// The mail watermark.
    GoalDeliveryQuiesce,
}

impl Entity {
    /// The name an event carries.
    pub open spec fn name_text(self) -> Text {
        match self {
            Entity::Org => "org"@,
            Entity::Department => "department"@,
            Entity::Person => "person"@,
            Entity::Transition => "transition"@,
            Entity::PersonActivity => "person-activity"@,
            Entity::LaunchIntent => "launch-intent"@,
            Entity::GoalDeliveryQuiesce => "goal-delivery-quiesce"@,
        }
    }

    /// The name an event carries.
    pub fn name(self) -> (r: &'static str)
        ensures
            r@ == self.name_text(),
    {
        match self {
            Entity::Org => "org",
            Entity::Department => "department",
            Entity::Person => "person",
            Entity::Transition => "transition",
            Entity::PersonActivity => "person-activity",
            Entity::LaunchIntent => "launch-intent",
            Entity::GoalDeliveryQuiesce => "goal-delivery-quiesce",
        }
    }

    /// The table its rows stand in.
    pub open spec fn table_text(self) -> Text {
        match self {
            Entity::Org => "org_settings"@,
            Entity::Department => "departments"@,
            Entity::Person => "people"@,
            Entity::Transition => "transitions"@,
            Entity::PersonActivity => "person_activity"@,
            Entity::LaunchIntent => "launch_intent"@,
            Entity::GoalDeliveryQuiesce => "quiesce"@,
        }
    }

    /// The table its rows stand in.
    pub fn table(self) -> (r: &'static str)
        ensures
            r@ == self.table_text(),
    {
        match self {
            Entity::Org => "org_settings",
            Entity::Department => "departments",
            Entity::Person => "people",
            Entity::Transition => "transitions",
            Entity::PersonActivity => "person_activity",
            Entity::LaunchIntent => "launch_intent",
            Entity::GoalDeliveryQuiesce => "quiesce",
        }
    }
}

/// What a row change did.
#[derive(Debug, Clone, Copy, PartialEq, Eq, Structural)]
pub enum EventOp {
    /// Wrote a row.
    Upsert,
    /// Took a row out.
    Delete,
}

impl EventOp {
    /// The name an event carries.
    pub open spec fn as_str_text(self) -> Text {
        match self {
            EventOp::Upsert => "upsert"@,
            EventOp::Delete => "delete"@,
        }
    }

    /// The name an event carries.
    pub fn as_str(self) -> (r: &'static str)
        ensures
            r@ == self.as_str_text(),
    {
        match self {
            EventOp::Upsert => "upsert",
            EventOp::Delete => "delete",
        }
    }
}

/// One unit.
#[derive(Debug, Clone, PartialEq, Eq)]
pub struct DepartmentRow {
    /// The unit above; absent only on the root.
    pub parent_id: Option<String>,
    /// Display name.
    pub name: String,
    /// What it exists to do.
    pub purpose: String,
    /// What it is.
    pub kind: UnitKind,
    /// What a contract unit carries.
    pub transient: Option<ContractMetadata>,
    /// Whether it is running.
    pub state: UnitState,
    /// Who heads it.
    pub head_person_id: String,
    /// Its place in display order.
    pub ordinal: u64,
    /// When it was created.
    pub created_at: String,
    /// When it last changed.
    pub updated_at: String,
}

/// One unit, as read.
pub struct DepartmentModel {
    /// The unit above; absent only on the root.
    pub parent_id: Option<Text>,
    /// Display name.
    pub name: Text,
    /// What it exists to do.
    pub purpose: Text,
    /// What it is.
    pub kind: UnitKind,
    /// What a contract unit carries.
    pub transient: Option<ContractModel>,
    /// Whether it is running.
    pub state: UnitState,
    /// Who heads it.
    pub head_person_id: Text,
    /// Its place in display order.
    pub ordinal: u64,
    /// When it was created.
    pub created_at: Text,
    /// When it last changed.
    pub updated_at: Text,
}

impl View for DepartmentRow {
    type V = DepartmentModel;

    open spec fn view(&self) -> DepartmentModel {
        DepartmentModel {
            parent_id: opt(self.parent_id),
            name: self.name@,
            purpose: self.purpose@,
            kind: self.kind,
            transient: opt(self.transient),
            state: self.state,
            head_person_id: self.head_person_id@,
            ordinal: self.ordinal,
            created_at: self.created_at@,
            updated_at: self.updated_at@,
        }
    }
}

impl Duplicate for DepartmentRow {
    fn duplicate(&self) -> (r: Self) {
        DepartmentRow {
            parent_id: owned_opt(&self.parent_id),
            name: self.name.clone(),
            purpose: self.purpose.clone(),
            kind: self.kind,
            transient: copy_transient(&self.transient),
            state: self.state,
            head_person_id: self.head_person_id.clone(),
            ordinal: self.ordinal,
            created_at: self.created_at.clone(),
            updated_at: self.updated_at.clone(),
        }
    }
}

/// One person.
#[derive(Debug, Clone, PartialEq, Eq)]
pub struct PersonRow {
    /// Display name.
    pub name: String,
    /// Role title.
    pub title: String,
    /// What they are there to do.
    pub mandate: String,
    /// Structural role.
    pub kind: PersonKind,
    /// Whether they are staffed.
    pub employment_state: EmploymentState,
    /// The unit they belong to.
    pub department_id: String,
    /// `resident` or `on-demand`.
    pub activation: String,
    /// Declared tools.
    pub tools: Vec<String>,
    /// Prompt templates.
    pub prompts: Vec<String>,
    /// Their place in display order.
    pub ordinal: u64,
    /// When the row was made.
    pub created_at: String,
    /// When it last changed.
    pub updated_at: String,
}

/// One person, as read.
pub struct PersonModel {
    /// Display name.
    pub name: Text,
    /// Role title.
    pub title: Text,
    /// What they are there to do.
    pub mandate: Text,
    /// Structural role.
    pub kind: PersonKind,
    /// Whether they are staffed.
    pub employment_state: EmploymentState,
    /// The unit they belong to.
    pub department_id: Text,
    /// `resident` or `on-demand`.
    pub activation: Text,
    /// Declared tools.
    pub tools: Seq<Text>,
    /// Prompt templates.
    pub prompts: Seq<Text>,
    /// Their place in display order.
    pub ordinal: u64,
    /// When the row was made.
    pub created_at: Text,
    /// When it last changed.
    pub updated_at: Text,
}

impl View for PersonRow {
    type V = PersonModel;

    open spec fn view(&self) -> PersonModel {
        PersonModel {
            name: self.name@,
            title: self.title@,
            mandate: self.mandate@,
            kind: self.kind,
            employment_state: self.employment_state,
            department_id: self.department_id@,
            activation: self.activation@,
            tools: seen(self.tools@),
            prompts: seen(self.prompts@),
            ordinal: self.ordinal,
            created_at: self.created_at@,
            updated_at: self.updated_at@,
        }
    }
}

impl Duplicate for PersonRow {
    fn duplicate(&self) -> (r: Self) {
        PersonRow {
            name: self.name.clone(),
            title: self.title.clone(),
            mandate: self.mandate.clone(),
            kind: self.kind,
            employment_state: self.employment_state,
            department_id: self.department_id.clone(),
            activation: self.activation.clone(),
            tools: owned_list(&self.tools),
            prompts: owned_list(&self.prompts),
            ordinal: self.ordinal,
            created_at: self.created_at.clone(),
            updated_at: self.updated_at.clone(),
        }
    }
}

/// One line of the staffing history.
#[derive(Debug, Clone, PartialEq, Eq)]
pub struct StaffingEntry {
    /// Whom it is about.
    pub person_id: String,
    /// What happened.
    pub action: StaffingAction,
    /// The unit they left.
    pub from_department_id: Option<String>,
    /// The unit they came to.
    pub to_department_id: Option<String>,
    /// Why, in words.
    pub reason: String,
    /// When.
    pub at: String,
}

/// One line of the staffing history, as read.
pub struct StaffingModel {
    /// Whom it is about.
    pub person_id: Text,
    /// What happened.
    pub action: StaffingAction,
    /// The unit they left.
    pub from_department_id: Option<Text>,
    /// The unit they came to.
    pub to_department_id: Option<Text>,
    /// Why, in words.
    pub reason: Text,
    /// When.
    pub at: Text,
}

impl View for StaffingEntry {
    type V = StaffingModel;

    open spec fn view(&self) -> StaffingModel {
        StaffingModel {
            person_id: self.person_id@,
            action: self.action,
            from_department_id: opt(self.from_department_id),
            to_department_id: opt(self.to_department_id),
            reason: self.reason@,
            at: self.at@,
        }
    }
}

impl Duplicate for StaffingEntry {
    fn duplicate(&self) -> (r: Self) {
        StaffingEntry {
            person_id: self.person_id.clone(),
            action: self.action,
            from_department_id: owned_opt(&self.from_department_id),
            to_department_id: owned_opt(&self.to_department_id),
            reason: self.reason.clone(),
            at: self.at.clone(),
        }
    }
}

/// One transition.
#[derive(Debug, Clone, PartialEq, Eq)]
pub struct TransitionRow {
    /// Whom it is about.
    pub person_id: String,
    /// What it is about.
    pub action: TransitionAction,
    /// How far it has come.
    pub status: TransitionStatus,
    /// The decision it belongs to, if somebody made one.
    pub intent_id: Option<String>,
    /// Why, in words.
    pub reason: String,
    /// Where the person was.
    pub placement_department_id: Option<String>,
    /// When it was asked for.
    pub requested_at: String,
    /// When the grace window runs out.
    pub handoff_deadline_at: Option<String>,
    /// When it went through.
    pub applied_at: Option<String>,
    /// When it was cancelled.
    pub cancelled_at: Option<String>,
    /// When it was given up with nobody left to release it.
    pub abandoned_at: Option<String>,
}

/// One transition, as read.
pub struct TransitionModel {
    /// Whom it is about.
    pub person_id: Text,
    /// What it is about.
    pub action: TransitionAction,
    /// How far it has come.
    pub status: TransitionStatus,
    /// The decision it belongs to, if somebody made one.
    pub intent_id: Option<Text>,
    /// Why, in words.
    pub reason: Text,
    /// Where the person was.
    pub placement_department_id: Option<Text>,
    /// When it was asked for.
    pub requested_at: Text,
    /// When the grace window runs out.
    pub handoff_deadline_at: Option<Text>,
    /// When it went through.
    pub applied_at: Option<Text>,
    /// When it was cancelled.
    pub cancelled_at: Option<Text>,
    /// When it was given up with nobody left to release it.
    pub abandoned_at: Option<Text>,
}

impl View for TransitionRow {
    type V = TransitionModel;

    open spec fn view(&self) -> TransitionModel {
        TransitionModel {
            person_id: self.person_id@,
            action: self.action,
            status: self.status,
            intent_id: opt(self.intent_id),
            reason: self.reason@,
            placement_department_id: opt(self.placement_department_id),
            requested_at: self.requested_at@,
            handoff_deadline_at: opt(self.handoff_deadline_at),
            applied_at: opt(self.applied_at),
            cancelled_at: opt(self.cancelled_at),
            abandoned_at: opt(self.abandoned_at),
        }
    }
}

impl Duplicate for TransitionRow {
    fn duplicate(&self) -> (r: Self) {
        TransitionRow {
            person_id: self.person_id.clone(),
            action: self.action,
            status: self.status,
            intent_id: owned_opt(&self.intent_id),
            reason: self.reason.clone(),
            placement_department_id: owned_opt(&self.placement_department_id),
            requested_at: self.requested_at.clone(),
            handoff_deadline_at: owned_opt(&self.handoff_deadline_at),
            applied_at: owned_opt(&self.applied_at),
            cancelled_at: owned_opt(&self.cancelled_at),
            abandoned_at: owned_opt(&self.abandoned_at),
        }
    }
}

/// The activity of one person.
#[derive(Debug, Clone, PartialEq, Eq)]
pub struct ActivityRow {
    /// Whether they were last wanted up.
    pub last_desired_active: bool,
    /// Whether they could last run.
    pub last_operational: bool,
    /// Where they last were.
    pub last_department_id: Option<String>,
    /// Their last employment.
    pub last_employment_state: Option<EmploymentState>,
    /// When they last went quiet.
    pub agent_quiet_at: Option<String>,
    /// Since when they are idle.
    pub idle_since: Option<String>,
    /// When they were last active.
    pub agent_active_at: Option<String>,
    /// When somebody last woke them.
    pub operator_wake_at: Option<String>,
    /// The transition that governs them.
    pub active_transition_id: Option<String>,
    /// When the row last changed.
    pub updated_at: String,
}

/// The activity of one person, as read.
pub struct ActivityModel {
    /// Whether they were last wanted up.
    pub last_desired_active: bool,
    /// Whether they could last run.
    pub last_operational: bool,
    /// Where they last were.
    pub last_department_id: Option<Text>,
    /// Their last employment.
    pub last_employment_state: Option<EmploymentState>,
    /// When they last went quiet.
    pub agent_quiet_at: Option<Text>,
    /// Since when they are idle.
    pub idle_since: Option<Text>,
    /// When they were last active.
    pub agent_active_at: Option<Text>,
    /// When somebody last woke them.
    pub operator_wake_at: Option<Text>,
    /// The transition that governs them.
    pub active_transition_id: Option<Text>,
    /// When the row last changed.
    pub updated_at: Text,
}

impl View for ActivityRow {
    type V = ActivityModel;

    open spec fn view(&self) -> ActivityModel {
        ActivityModel {
            last_desired_active: self.last_desired_active,
            last_operational: self.last_operational,
            last_department_id: opt(self.last_department_id),
            last_employment_state: self.last_employment_state,
            agent_quiet_at: opt(self.agent_quiet_at),
            idle_since: opt(self.idle_since),
            agent_active_at: opt(self.agent_active_at),
            operator_wake_at: opt(self.operator_wake_at),
            active_transition_id: opt(self.active_transition_id),
            updated_at: self.updated_at@,
        }
    }
}

impl Duplicate for ActivityRow {
    fn duplicate(&self) -> (r: Self) {
        ActivityRow {
            last_desired_active: self.last_desired_active,
            last_operational: self.last_operational,
            last_department_id: owned_opt(&self.last_department_id),
            last_employment_state: self.last_employment_state,
            agent_quiet_at: owned_opt(&self.agent_quiet_at),
            idle_since: owned_opt(&self.idle_since),
            agent_active_at: owned_opt(&self.agent_active_at),
            operator_wake_at: owned_opt(&self.operator_wake_at),
            active_transition_id: owned_opt(&self.active_transition_id),
            updated_at: self.updated_at.clone(),
        }
    }
}

/// One row change of the decision being made.
#[derive(Debug, Clone, PartialEq, Eq)]
pub struct EventTouch {
    /// What kind of thing.
    pub entity: Entity,
    /// Which one.
    pub entity_id: String,
    /// What was done.
    pub op: EventOp,
}

/// One row change of the decision being made, as read.
pub struct TouchModel {
    /// What kind of thing.
    pub entity: Entity,
    /// Which one.
    pub entity_id: Text,
    /// What was done.
    pub op: EventOp,
}

impl View for EventTouch {
    type V = TouchModel;

    open spec fn view(&self) -> TouchModel {
        TouchModel {
            entity: self.entity,
            entity_id: self.entity_id@,
            op: self.op,
        }
    }
}

impl Duplicate for EventTouch {
    fn duplicate(&self) -> (r: Self) {
        EventTouch {
            entity: self.entity,
            entity_id: self.entity_id.clone(),
            op: self.op,
        }
    }
}

/// One line of the company's event feed.
#[derive(Debug, Clone, PartialEq, Eq)]
pub struct EventRow {
    /// What kind of thing.
    pub entity: Entity,
    /// Which one.
    pub entity_id: String,
    /// What was done.
    pub op: EventOp,
    /// When.
    pub at: String,
    /// Who, as they were named.
    pub actor: String,
}

/// One line of the company's event feed, as read.
pub struct EventModel {
    /// What kind of thing.
    pub entity: Entity,
    /// Which one.
    pub entity_id: Text,
    /// What was done.
    pub op: EventOp,
    /// When.
    pub at: Text,
    /// Who, as they were named.
    pub actor: Text,
}

impl View for EventRow {
    type V = EventModel;

    open spec fn view(&self) -> EventModel {
        EventModel {
            entity: self.entity,
            entity_id: self.entity_id@,
            op: self.op,
            at: self.at@,
            actor: self.actor@,
        }
    }
}

impl Duplicate for EventRow {
    fn duplicate(&self) -> (r: Self) {
        EventRow {
            entity: self.entity,
            entity_id: self.entity_id.clone(),
            op: self.op,
            at: self.at.clone(),
            actor: self.actor.clone(),
        }
    }
}

impl EventRow {
    /// Where the changed row stands: `table:company/id`.
    pub fn detail_ref(&self, slug: &str) -> (r: String)
        ensures
            r@ == self.entity.table_text() + ":"@ + slug@ + "/"@ + self.entity_id@,
    {
        cat5(self.entity.table(), ":", slug, "/", self.entity_id.as_str())
    }
}

/// A start decision. That it is there is all it says.
#[derive(Debug, Clone, Copy, PartialEq, Eq, Structural)]
pub struct Fence {}

impl View for Fence {
    type V = ();

    open spec fn view(&self) -> () {
        ()
    }
}

impl Duplicate for Fence {
    fn duplicate(&self) -> (r: Self) {
        Fence {  }
    }
}

/// The settings of a company.
#[derive(Debug, Clone, PartialEq, Eq)]
pub struct OrgSettings {
    /// The source checkout that last materialized the company.
    pub launcher_root: Option<String>,
    /// Milliseconds between supervision passes.
    pub supervision_interval_ms: i64,
    /// Milliseconds before an unacknowledged goal escalates.
    pub acknowledgement_timeout_ms: i64,
    /// Retries before an unacknowledged goal counts as failed.
    pub acknowledgement_retry_limit: i64,
    /// Concurrent replacement cap.
    pub replacement_limit: i64,
}

/// The settings of a company, as read.
pub struct SettingsModel {
    /// The source checkout that last materialized the company.
    pub launcher_root: Option<Text>,
    /// Milliseconds between supervision passes.
    pub supervision_interval_ms: i64,
    /// Milliseconds before an unacknowledged goal escalates.
    pub acknowledgement_timeout_ms: i64,
    /// Retries before an unacknowledged goal counts as failed.
    pub acknowledgement_retry_limit: i64,
    /// Concurrent replacement cap.
    pub replacement_limit: i64,
}

impl View for OrgSettings {
    type V = SettingsModel;

    open spec fn view(&self) -> SettingsModel {
        SettingsModel {
            launcher_root: opt(self.launcher_root),
            supervision_interval_ms: self.supervision_interval_ms,
            acknowledgement_timeout_ms: self.acknowledgement_timeout_ms,
            acknowledgement_retry_limit: self.acknowledgement_retry_limit,
            replacement_limit: self.replacement_limit,
        }
    }
}

impl Duplicate for OrgSettings {
    fn duplicate(&self) -> (r: Self) {
        OrgSettings {
            launcher_root: owned_opt(&self.launcher_root),
            supervision_interval_ms: self.supervision_interval_ms,
            acknowledgement_timeout_ms: self.acknowledgement_timeout_ms,
            acknowledgement_retry_limit: self.acknowledgement_retry_limit,
            replacement_limit: self.replacement_limit,
        }
    }
}

/// The settings row of a company.
#[derive(Debug, Clone, PartialEq, Eq)]
pub struct SettingsRow {
    /// The name the company goes by.
    pub display_slug: String,
    /// The settings.
    pub settings: OrgSettings,
}

/// The settings row of a company, as read.
pub struct SettingsRowModel {
    /// The name the company goes by.
    pub display_slug: Text,
    /// The settings.
    pub settings: SettingsModel,
}

impl View for SettingsRow {
    type V = SettingsRowModel;

    open spec fn view(&self) -> SettingsRowModel {
        SettingsRowModel {
            display_slug: self.display_slug@,
            settings: self.settings@,
        }
    }
}

impl Duplicate for SettingsRow {
    fn duplicate(&self) -> (r: Self) {
        SettingsRow {
            display_slug: self.display_slug.clone(),
            settings: self.settings.duplicate(),
        }
    }
}

/// The rows of one company.
#[derive(Debug, Clone, PartialEq, Eq)]
pub struct Company {
    /// The key the company's rows carry.
    pub slug: String,
    /// The settings row; absent until the company has been created.
    pub settings: Option<SettingsRow>,
    /// Units by id.
    pub departments: Table<DepartmentRow>,
    /// People by id.
    pub people: Table<PersonRow>,
    /// The staffing history, oldest first.
    pub staffing: Vec<StaffingEntry>,
    /// Transitions by id.
    pub transitions: Table<TransitionRow>,
    /// Activity by person.
    pub activity: Table<ActivityRow>,
    /// Whether the activity ledger has been opened.
    pub activity_ledger: bool,
    /// Start decisions by person.
    pub fences: Table<Fence>,
    /// Mail older than this is not delivered.
    pub quiesce_since: Option<String>,
    /// Whether the operator has stopped the company.
    pub stood_down: bool,
    /// The sequence number the last minted transition carries.
    pub transition_seq: u64,
    /// The sequence number of the last event before those held here.
    pub event_base: u64,
    /// The events since, oldest first.
    pub events: Vec<EventRow>,
    /// The row changes of the decision being made, not yet events.
    pub touches: Vec<EventTouch>,
}

/// The rows of one company, as read.
pub struct CompanyModel {
    /// The key the company's rows carry.
    pub slug: Text,
    /// The settings row; absent until the company has been created.
    pub settings: Option<SettingsRowModel>,
    /// Units by id.
    pub departments: Map<Text, DepartmentModel>,
    /// People by id.
    pub people: Map<Text, PersonModel>,
    /// The staffing history, oldest first.
    pub staffing: Seq<StaffingModel>,
    /// Transitions by id.
    pub transitions: Map<Text, TransitionModel>,
    /// Activity by person.
    pub activity: Map<Text, ActivityModel>,
    /// Whether the activity ledger has been opened.
    pub activity_ledger: bool,
    /// Start decisions by person.
    pub fences: Map<Text, ()>,
    /// Mail older than this is not delivered.
    pub quiesce_since: Option<Text>,
    /// Whether the operator has stopped the company.
    pub stood_down: bool,
    /// The sequence number the last minted transition carries.
    pub transition_seq: u64,
    /// The sequence number of the last event before those held here.
    pub event_base: u64,
    /// The events since, oldest first.
    pub events: Seq<EventModel>,
    /// The row changes of the decision being made, not yet events.
    pub touches: Seq<TouchModel>,
}

impl View for Company {
    type V = CompanyModel;

    open spec fn view(&self) -> CompanyModel {
        CompanyModel {
            slug: self.slug@,
            settings: opt(self.settings),
            departments: self.departments@,
            people: self.people@,
            staffing: seen(self.staffing@),
            transitions: self.transitions@,
            activity: self.activity@,
            activity_ledger: self.activity_ledger,
            fences: self.fences@,
            quiesce_since: opt(self.quiesce_since),
            stood_down: self.stood_down,
            transition_seq: self.transition_seq,
            event_base: self.event_base,
            events: seen(self.events@),
            touches: seen(self.touches@),
        }
    }
}

impl Company {
    /// One row to an id in every table.
    pub open spec fn wf(&self) -> bool {
        &&& self.departments.wf()
        &&& self.people.wf()
        &&& self.transitions.wf()
        &&& self.activity.wf()
        &&& self.fences.wf()
    }

    /// A copy of every row.
    pub fn copy_all(&self) -> (r: Self)
        requires
            self.wf(),
        ensures
            r.wf(),
            r@ == self@,
    {
        Company {
            slug: self.slug.clone(),
            settings: match &self.settings {
                Some(row) => Some(row.duplicate()),
                None => None,
            },
            departments: self.departments.copy_all(),
            people: self.people.copy_all(),
            staffing: copy_list(&self.staffing),
            transitions: self.transitions.copy_all(),
            activity: self.activity.copy_all(),
            activity_ledger: self.activity_ledger,
            fences: self.fences.copy_all(),
            quiesce_since: owned_opt(&self.quiesce_since),
            stood_down: self.stood_down,
            transition_seq: self.transition_seq,
            event_base: self.event_base,
            events: copy_list(&self.events),
            touches: copy_list(&self.touches),
        }
    }

    /// A company that has not been created: no rows at all.
    pub fn new(slug: &str) -> (r: Self)
        ensures
            r.wf(),
            r@.slug == slug@,
            r@.settings is None,
            r@.departments == Map::<Text, DepartmentModel>::empty(),
            r@.people == Map::<Text, PersonModel>::empty(),
            r@.staffing == Seq::<StaffingModel>::empty(),
            r@.transitions == Map::<Text, TransitionModel>::empty(),
            r@.activity == Map::<Text, ActivityModel>::empty(),
            !r@.activity_ledger,
            r@.fences == Map::<Text, ()>::empty(),
            r@.quiesce_since is None,
            !r@.stood_down,
            r@.transition_seq == 0,
            r@.event_base == 0,
            r@.events == Seq::<EventModel>::empty(),
            r@.touches == Seq::<TouchModel>::empty(),
    {
        Company {
            slug: owned(slug),
            settings: None,
            departments: Table::new(),
            people: Table::new(),
            staffing: Vec::new(),
            transitions: Table::new(),
            activity: Table::new(),
            activity_ledger: false,
            fences: Table::new(),
            quiesce_since: None,
            stood_down: false,
            transition_seq: 0,
            event_base: 0,
            events: Vec::new(),
            touches: Vec::new(),
        }
    }
}

} // verus!
