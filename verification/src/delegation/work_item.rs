//! Delegated work and the requests to approve it.

use vstd::prelude::*;
use crate::clock::{now, Timestamp};
use crate::ident::fresh_id;
use crate::text::{concat, owned, text_eq};

verus! {

/// Where a work item stands.
#[derive(Debug, Clone, Copy, PartialEq, Eq, Structural)]
pub enum WorkItemStatus {
    /// Delegated, not yet accepted.
    Pending,
    /// Accepted and being worked on.
    InProgress,
    /// Submitted, waiting for the approver.
    AwaitingApproval,
    /// Done and approved.
    Approved,
    /// Sent back for rework.
    Rejected,
    /// Refused by the assignee.
    Declined,
    /// Withdrawn by the delegator.
    Cancelled,
}

/// How urgent a work item is, from low to urgent.
#[derive(Debug, Clone, Copy, PartialEq, Eq, Structural, PartialOrd, Ord)]
pub enum WorkPriority {
    Low,
    Normal,
    High,
    Urgent,
}

/// Where an approval request stands.
#[derive(Debug, Clone, Copy, PartialEq, Eq, Structural)]
pub enum ApprovalStatus {
    /// Waiting for review.
    Pending,
    Approved,
    /// Rejected with feedback.
    Rejected,
}

/// What one of the parties can do to a work item by itself.
#[derive(Debug, Clone, Copy, PartialEq, Eq, Structural)]
pub enum WorkAction {
    /// The assignee takes the work on.
    Accept,
    /// The assignee refuses the work.
    Decline,
    /// The assignee hands the result in.
    Submit,
    /// The assignee finishes work that needs no approval.
    Complete,
    /// The delegator withdraws the work.
    Cancel,
}

/// The work item status that a text names.
pub open spec fn work_item_status_named(s: Seq<char>) -> Option<WorkItemStatus> {
    if s == "pending"@ {
        Some(WorkItemStatus::Pending)
    } else if s == "in_progress"@ {
        Some(WorkItemStatus::InProgress)
    } else if s == "awaiting_approval"@ {
        Some(WorkItemStatus::AwaitingApproval)
    } else if s == "approved"@ {
        Some(WorkItemStatus::Approved)
    } else if s == "rejected"@ {
        Some(WorkItemStatus::Rejected)
    } else if s == "declined"@ {
        Some(WorkItemStatus::Declined)
    } else if s == "cancelled"@ {
        Some(WorkItemStatus::Cancelled)
    } else {
        None
    }
}

/// The priority that a text names.
pub open spec fn work_priority_named(s: Seq<char>) -> Option<WorkPriority> {
    if s == "low"@ {
        Some(WorkPriority::Low)
    } else if s == "normal"@ {
        Some(WorkPriority::Normal)
    } else if s == "high"@ {
        Some(WorkPriority::High)
    } else if s == "urgent"@ {
        Some(WorkPriority::Urgent)
    } else {
        None
    }
}

/// The approval status that a text names.
pub open spec fn approval_status_named(s: Seq<char>) -> Option<ApprovalStatus> {
    if s == "pending"@ {
        Some(ApprovalStatus::Pending)
    } else if s == "approved"@ {
        Some(ApprovalStatus::Approved)
    } else if s == "rejected"@ {
        Some(ApprovalStatus::Rejected)
    } else {
        None
    }
}

/// The status that `action` moves a work item to, or `None` where the
/// action is refused in that status.
pub open spec fn transition(
    status: WorkItemStatus,
    action: WorkAction,
    requires_approval: bool,
) -> Option<WorkItemStatus> {
    match action {
        WorkAction::Accept => if status == WorkItemStatus::Pending {
            Some(WorkItemStatus::InProgress)
        } else {
            None
        },
        WorkAction::Decline => if status == WorkItemStatus::Pending {
            Some(WorkItemStatus::Declined)
        } else {
            None
        },
        WorkAction::Submit => if status.active() {
            if requires_approval {
                Some(WorkItemStatus::AwaitingApproval)
            } else {
                Some(WorkItemStatus::Approved)
            }
        } else {
            None
        },
        WorkAction::Complete => if status.active() {
            Some(WorkItemStatus::Approved)
        } else {
            None
        },
        WorkAction::Cancel => if status.terminal() {
            None
        } else {
            Some(WorkItemStatus::Cancelled)
        },
    }
}

impl WorkItemStatus {
    /// The wire name of the status.
    pub open spec fn name(self) -> Seq<char> {
        match self {
            WorkItemStatus::Pending => "pending"@,
            WorkItemStatus::InProgress => "in_progress"@,
            WorkItemStatus::AwaitingApproval => "awaiting_approval"@,
            WorkItemStatus::Approved => "approved"@,
            WorkItemStatus::Rejected => "rejected"@,
            WorkItemStatus::Declined => "declined"@,
            WorkItemStatus::Cancelled => "cancelled"@,
        }
    }

    /// Final statuses: approved, declined, cancelled.
    pub open spec fn terminal(self) -> bool {
        self == WorkItemStatus::Approved || self == WorkItemStatus::Declined || self
            == WorkItemStatus::Cancelled
    }

    /// Statuses in which the assignee can work: in progress, rejected.
    pub open spec fn active(self) -> bool {
        self == WorkItemStatus::InProgress || self == WorkItemStatus::Rejected
    }

    /// Statuses in which the item waits in its assignee's queue.
    pub open spec fn queued(self) -> bool {
        self == WorkItemStatus::Pending || self == WorkItemStatus::Rejected
    }

    pub fn as_str(&self) -> (r: &'static str)
        ensures
            r@ == self.name(),
    {
        match self {
            WorkItemStatus::Pending => "pending",
            WorkItemStatus::InProgress => "in_progress",
            WorkItemStatus::AwaitingApproval => "awaiting_approval",
            WorkItemStatus::Approved => "approved",
            WorkItemStatus::Rejected => "rejected",
            WorkItemStatus::Declined => "declined",
            WorkItemStatus::Cancelled => "cancelled",
        }
    }

    /// Whether the status is final.
    pub fn is_terminal(&self) -> (r: bool)
        ensures
            r == self.terminal(),
    {
        match self {
            WorkItemStatus::Approved => true,
            WorkItemStatus::Declined => true,
            WorkItemStatus::Cancelled => true,
            _ => false,
        }
    }

    /// Whether work can be done in this status.
    pub fn is_active(&self) -> (r: bool)
        ensures
            r == self.active(),
    {
        match self {
            WorkItemStatus::InProgress => true,
            WorkItemStatus::Rejected => true,
            _ => false,
        }
    }

    /// Reads a wire name; any other text is refused with a message that
    /// quotes it.
    pub fn parse(s: &str) -> (r: Result<WorkItemStatus, String>)
        ensures
            match r {
                Ok(v) => work_item_status_named(s@) == Some(v),
                Err(e) => work_item_status_named(s@) is None && e@
                    == "Invalid work item status: "@ + s@,
            },
    {
        if text_eq(s, "pending") {
            Ok(WorkItemStatus::Pending)
        } else if text_eq(s, "in_progress") {
            Ok(WorkItemStatus::InProgress)
        } else if text_eq(s, "awaiting_approval") {
            Ok(WorkItemStatus::AwaitingApproval)
        } else if text_eq(s, "approved") {
            Ok(WorkItemStatus::Approved)
        } else if text_eq(s, "rejected") {
            Ok(WorkItemStatus::Rejected)
        } else if text_eq(s, "declined") {
            Ok(WorkItemStatus::Declined)
        } else if text_eq(s, "cancelled") {
            Ok(WorkItemStatus::Cancelled)
        } else {
            Err(concat("Invalid work item status: ", s))
        }
    }
}

impl std::str::FromStr for WorkItemStatus {
    type Err = String;

    /// Reads a wire name, as `parse` does.
    fn from_str(s: &str) -> (r: Result<Self, Self::Err>)
        ensures
            match r {
                Ok(v) => work_item_status_named(s@) == Some(v),
                Err(e) => work_item_status_named(s@) is None && e@
                    == "Invalid work item status: "@ + s@,
            },
    {
        WorkItemStatus::parse(s)
    }
}

impl Default for WorkPriority {
    fn default() -> (r: Self)
        ensures
            r == WorkPriority::Normal,
    {
        WorkPriority::Normal
    }
}

impl WorkPriority {
    /// The wire name of the priority.
    pub open spec fn name(self) -> Seq<char> {
        match self {
            WorkPriority::Low => "low"@,
            WorkPriority::Normal => "normal"@,
            WorkPriority::High => "high"@,
            WorkPriority::Urgent => "urgent"@,
        }
    }

    pub fn as_str(&self) -> (r: &'static str)
        ensures
            r@ == self.name(),
    {
        match self {
            WorkPriority::Low => "low",
            WorkPriority::Normal => "normal",
            WorkPriority::High => "high",
            WorkPriority::Urgent => "urgent",
        }
    }

    /// Reads a wire name; any other text is refused with a message that
    /// quotes it.
    pub fn parse(s: &str) -> (r: Result<WorkPriority, String>)
        ensures
            match r {
                Ok(v) => work_priority_named(s@) == Some(v),
                Err(e) => work_priority_named(s@) is None && e@ == "Invalid work priority: "@
                    + s@,
            },
    {
        if text_eq(s, "low") {
            Ok(WorkPriority::Low)
        } else if text_eq(s, "normal") {
            Ok(WorkPriority::Normal)
        } else if text_eq(s, "high") {
            Ok(WorkPriority::High)
        } else if text_eq(s, "urgent") {
            Ok(WorkPriority::Urgent)
        } else {
            Err(concat("Invalid work priority: ", s))
        }
    }
}

impl std::str::FromStr for WorkPriority {
    type Err = String;

    /// Reads a wire name, as `parse` does.
    fn from_str(s: &str) -> (r: Result<Self, Self::Err>)
        ensures
            match r {
                Ok(v) => work_priority_named(s@) == Some(v),
                Err(e) => work_priority_named(s@) is None && e@ == "Invalid work priority: "@
                    + s@,
            },
    {
        WorkPriority::parse(s)
    }
}

/// A unit of delegated work.
#[derive(Debug)]
pub struct WorkItem {
    pub id: u128,
    /// The journal that the work belongs to.
    pub journal_id: u128,
    /// What is to be done.
    pub description: String,
    /// The block that the work is about, if any.
    pub block_id: Option<u128>,
    /// Who delegated the work.
    pub delegator_id: u128,
    /// Who is to do the work.
    pub assignee_id: u128,
    pub status: WorkItemStatus,
    pub priority: WorkPriority,
    /// Whether the result must be approved.
    pub requires_approval: bool,
    /// Who approves; the delegator where none is named.
    pub approver_id: Option<u128>,
    /// What the assignee handed in.
    pub result: Option<String>,
    pub created_at: Timestamp,
    pub updated_at: Timestamp,
}

impl WorkItem {
    /// A freshly delegated item: pending, of normal priority, without
    /// approval, block or result.
    pub open spec fn fresh(
        self,
        id: u128,
        journal_id: u128,
        description: Seq<char>,
        delegator_id: u128,
        assignee_id: u128,
    ) -> bool {
        &&& self.id == id
        &&& self.journal_id == journal_id
        &&& self.description@ == description
        &&& self.block_id is None
        &&& self.delegator_id == delegator_id
        &&& self.assignee_id == assignee_id
        &&& self.status == WorkItemStatus::Pending
        &&& self.priority == WorkPriority::Normal
        &&& !self.requires_approval
        &&& self.approver_id is None
        &&& self.result is None
        &&& self.created_at == self.updated_at
    }

    /// Who approves the item: the named approver, else the delegator.
    pub open spec fn approver(self) -> u128 {
        match self.approver_id {
            Some(a) => a,
            None => self.delegator_id,
        }
    }

    /// Whether `after` is this item after `action`: the status that the
    /// transition gives, and nothing else changed but the time of change
    /// and, where a result is handed in, the result.
    pub open spec fn stepped(self, action: WorkAction, after: WorkItem) -> bool {
        &&& transition(self.status, action, self.requires_approval) == Some(after.status)
        &&& (WorkItem {
            status: self.status,
            updated_at: self.updated_at,
            result: self.result,
            ..after
        }) == self
    }

    /// A new work item with a fresh identifier.
    pub fn new(journal_id: u128, description: &str, delegator_id: u128, assignee_id: u128) -> (r:
        WorkItem)
        ensures
            r.fresh(r.id, journal_id, description@, delegator_id, assignee_id),
    {
        WorkItem::assemble(fresh_id(), now(), journal_id, description, delegator_id, assignee_id)
    }

    /// The new work item with the identifier `id`, created at `at`.
    pub fn assemble(
        id: u128,
        at: Timestamp,
        journal_id: u128,
        description: &str,
        delegator_id: u128,
        assignee_id: u128,
    ) -> (r: WorkItem)
        ensures
            r.fresh(id, journal_id, description@, delegator_id, assignee_id),
            r.created_at == at,
    {
        WorkItem {
            id,
            journal_id,
            description: owned(description),
            block_id: None,
            delegator_id,
            assignee_id,
            status: WorkItemStatus::Pending,
            priority: WorkPriority::Normal,
            requires_approval: false,
            approver_id: None,
            result: None,
            created_at: at,
            updated_at: at,
        }
    }

    /// A new work item about a block.
    pub fn for_block(
        journal_id: u128,
        block_id: u128,
        description: &str,
        delegator_id: u128,
        assignee_id: u128,
    ) -> (r: WorkItem)
        ensures
            (WorkItem { block_id: None, ..r }).fresh(
                r.id,
                journal_id,
                description@,
                delegator_id,
                assignee_id,
            ),
            r.block_id == Some(block_id),
    {
        let mut item = WorkItem::new(journal_id, description, delegator_id, assignee_id);
        item.block_id = Some(block_id);
        item
    }

    /// The item with the given priority.
    pub fn with_priority(self, priority: WorkPriority) -> (r: WorkItem)
        ensures
            r == (WorkItem { priority, ..self }),
    {
        let mut item = self;
        item.priority = priority;
        item
    }

    /// The item with approval required, by `approver_id` or, where that is
    /// `None`, by the delegator.
    pub fn require_approval(self, approver_id: Option<u128>) -> (r: WorkItem)
        ensures
            r == (WorkItem { requires_approval: true, approver_id, ..self }),
    {
        let mut item = self;
        item.requires_approval = true;
        item.approver_id = approver_id;
        item
    }

    /// The assignee takes the work on: pending becomes in progress.
    pub fn accept(&mut self) -> (r: Result<(), String>)
        ensures
            match r {
                Ok(_) => old(self).stepped(WorkAction::Accept, *final(self)) && final(self).result
                    == old(self).result,
                Err(e) => transition(old(self).status, WorkAction::Accept, old(self).requires_approval)
                    is None && *final(self) == *old(self) && e@
                    == "Cannot accept work item with status: "@ + old(self).status.name(),
            },
    {
        match self.status {
            WorkItemStatus::Pending => {
                self.status = WorkItemStatus::InProgress;
                self.updated_at = now();
                Ok(())
            },
            _ => Err(concat("Cannot accept work item with status: ", self.status.as_str())),
        }
    }

    /// The assignee refuses the work: pending becomes declined.
    pub fn decline(&mut self) -> (r: Result<(), String>)
        ensures
            match r {
                Ok(_) => old(self).stepped(WorkAction::Decline, *final(self)) && final(self).result
                    == old(self).result,
                Err(e) => transition(
                    old(self).status,
                    WorkAction::Decline,
                    old(self).requires_approval,
                ) is None && *final(self) == *old(self) && e@
                    == "Cannot decline work item with status: "@ + old(self).status.name(),
            },
    {
        match self.status {
            WorkItemStatus::Pending => {
                self.status = WorkItemStatus::Declined;
                self.updated_at = now();
                Ok(())
            },
            _ => Err(concat("Cannot decline work item with status: ", self.status.as_str())),
        }
    }

    /// The assignee hands in a result: an active item becomes awaiting
    /// approval where approval is required, approved where it is not.
    pub fn submit_for_approval(&mut self, result: &str) -> (r: Result<(), String>)
        ensures
            match r {
                Ok(_) => old(self).stepped(WorkAction::Submit, *final(self)) && (final(self).result matches Some(s) && s@ == result@),
                Err(e) => transition(old(self).status, WorkAction::Submit, old(self).requires_approval)
                    is None && *final(self) == *old(self) && e@
                    == "Cannot submit work item with status: "@ + old(self).status.name(),
            },
    {
        if !self.status.is_active() {
            return Err(concat("Cannot submit work item with status: ", self.status.as_str()));
        }
        self.result = Some(owned(result));
        if self.requires_approval {
            self.status = WorkItemStatus::AwaitingApproval;
        } else {
            self.status = WorkItemStatus::Approved;
        }
        self.updated_at = now();
        Ok(())
    }

    /// The assignee finishes the work without asking for approval: an
    /// active item becomes approved.
    pub fn complete(&mut self, result: &str) -> (r: Result<(), String>)
        ensures
            match r {
                Ok(_) => old(self).stepped(WorkAction::Complete, *final(self)) && (final(self).result matches Some(s) && s@ == result@),
                Err(e) => transition(
                    old(self).status,
                    WorkAction::Complete,
                    old(self).requires_approval,
                ) is None && *final(self) == *old(self) && e@
                    == "Cannot complete work item with status: "@ + old(self).status.name(),
            },
    {
        if !self.status.is_active() {
            return Err(concat("Cannot complete work item with status: ", self.status.as_str()));
        }
        self.result = Some(owned(result));
        self.status = WorkItemStatus::Approved;
        self.updated_at = now();
        Ok(())
    }

    /// The delegator withdraws the work: any status that is not final
    /// becomes cancelled.
    pub fn cancel(&mut self) -> (r: Result<(), String>)
        ensures
            match r {
                Ok(_) => old(self).stepped(WorkAction::Cancel, *final(self)) && final(self).result
                    == old(self).result,
                Err(e) => transition(old(self).status, WorkAction::Cancel, old(self).requires_approval)
                    is None && *final(self) == *old(self) && e@
                    == "Cannot cancel work item with terminal status: "@ + old(self).status.name(),
            },
    {
        if self.status.is_terminal() {
            return Err(
                concat("Cannot cancel work item with terminal status: ", self.status.as_str()),
            );
        }
        self.status = WorkItemStatus::Cancelled;
        self.updated_at = now();
        Ok(())
    }

    /// Who approves the item: the named approver, else the delegator.
    pub fn get_approver_id(&self) -> (r: u128)
        ensures
            r == self.approver(),
    {
        match self.approver_id {
            Some(a) => a,
            None => self.delegator_id,
        }
    }

    /// A copy of the item.
    pub fn duplicate(&self) -> (r: WorkItem)
        ensures
            r == *self,
    {
        WorkItem {
            id: self.id,
            journal_id: self.journal_id,
            description: self.description.clone(),
            block_id: self.block_id,
            delegator_id: self.delegator_id,
            assignee_id: self.assignee_id,
            status: self.status,
            priority: self.priority,
            requires_approval: self.requires_approval,
            approver_id: self.approver_id,
            result: self.result.clone(),
            created_at: self.created_at,
            updated_at: self.updated_at,
        }
    }
}

impl Clone for WorkItem {
    fn clone(&self) -> (r: Self)
        ensures
            r == *self,
    {
        self.duplicate()
    }
}

impl ApprovalStatus {
    /// The wire name of the status.
    pub open spec fn name(self) -> Seq<char> {
        match self {
            ApprovalStatus::Pending => "pending"@,
            ApprovalStatus::Approved => "approved"@,
            ApprovalStatus::Rejected => "rejected"@,
        }
    }

    pub fn as_str(&self) -> (r: &'static str)
        ensures
            r@ == self.name(),
    {
        match self {
            ApprovalStatus::Pending => "pending",
            ApprovalStatus::Approved => "approved",
            ApprovalStatus::Rejected => "rejected",
        }
    }

    /// Reads a wire name; any other text is refused with a message that
    /// quotes it.
    pub fn parse(s: &str) -> (r: Result<ApprovalStatus, String>)
        ensures
            match r {
                Ok(v) => approval_status_named(s@) == Some(v),
                Err(e) => approval_status_named(s@) is None && e@ == "Invalid approval status: "@
                    + s@,
            },
    {
        if text_eq(s, "pending") {
            Ok(ApprovalStatus::Pending)
        } else if text_eq(s, "approved") {
            Ok(ApprovalStatus::Approved)
        } else if text_eq(s, "rejected") {
            Ok(ApprovalStatus::Rejected)
        } else {
            Err(concat("Invalid approval status: ", s))
        }
    }
}

impl std::str::FromStr for ApprovalStatus {
    type Err = String;

    /// Reads a wire name, as `parse` does.
    fn from_str(s: &str) -> (r: Result<Self, Self::Err>)
        ensures
            match r {
                Ok(v) => approval_status_named(s@) == Some(v),
                Err(e) => approval_status_named(s@) is None && e@ == "Invalid approval status: "@
                    + s@,
            },
    {
        ApprovalStatus::parse(s)
    }
}

/// A request to approve submitted work.
#[derive(Debug)]
pub struct ApprovalRequest {
    pub id: u128,
    /// The work item to approve.
    pub work_item_id: u128,
    /// Who asks: the assignee of the work.
    pub requester_id: u128,
    /// Who is to decide.
    pub approver_id: u128,
    pub status: ApprovalStatus,
    /// What the approver had to say.
    pub feedback: Option<String>,
    pub created_at: Timestamp,
    /// When the approver decided.
    pub resolved_at: Option<Timestamp>,
}

impl ApprovalRequest {
    /// A new request for `item`: pending, from the assignee to the approver.
    pub open spec fn opened(self, id: u128, item: WorkItem) -> bool {
        &&& self.id == id
        &&& self.work_item_id == item.id
        &&& self.requester_id == item.assignee_id
        &&& self.approver_id == item.approver()
        &&& self.status == ApprovalStatus::Pending
        &&& self.feedback is None
        &&& self.resolved_at is None
    }

    /// Whether `after` is this request once decided with `outcome`.
    pub open spec fn resolved(self, outcome: ApprovalStatus, after: ApprovalRequest) -> bool {
        &&& self.status == ApprovalStatus::Pending
        &&& after.status == outcome
        &&& after.resolved_at is Some
        &&& (ApprovalRequest {
            status: self.status,
            feedback: self.feedback,
            resolved_at: self.resolved_at,
            ..after
        }) == self
    }

    /// A new approval request for a work item, with a fresh identifier.
    pub fn new(work_item: &WorkItem) -> (r: ApprovalRequest)
        ensures
            r.opened(r.id, *work_item),
    {
        ApprovalRequest::assemble(fresh_id(), now(), work_item)
    }

    /// The new approval request with the identifier `id`, created at `at`.
    pub fn assemble(id: u128, at: Timestamp, work_item: &WorkItem) -> (r: ApprovalRequest)
        ensures
            r.opened(id, *work_item),
            r.created_at == at,
    {
        ApprovalRequest {
            id,
            work_item_id: work_item.id,
            requester_id: work_item.assignee_id,
            approver_id: work_item.get_approver_id(),
            status: ApprovalStatus::Pending,
            feedback: None,
            created_at: at,
            resolved_at: None,
        }
    }

    /// Approves a pending request, with or without feedback.
    pub fn approve(&mut self, feedback: Option<String>) -> (r: Result<(), String>)
        ensures
            match r {
                Ok(_) => old(self).resolved(ApprovalStatus::Approved, *final(self)) && final(self).feedback == feedback,
                Err(e) => old(self).status != ApprovalStatus::Pending && *final(self) == *old(self)
                    && e@ == "Cannot approve request with status: "@ + old(self).status.name(),
            },
    {
        match self.status {
            ApprovalStatus::Pending => {
                self.status = ApprovalStatus::Approved;
                self.feedback = feedback;
                self.resolved_at = Some(now());
                Ok(())
            },
            _ => Err(concat("Cannot approve request with status: ", self.status.as_str())),
        }
    }

    /// Rejects a pending request with feedback.
    pub fn reject(&mut self, feedback: &str) -> (r: Result<(), String>)
        ensures
            match r {
                Ok(_) => old(self).resolved(ApprovalStatus::Rejected, *final(self)) && (final(self).feedback matches Some(s) && s@ == feedback@),
                Err(e) => old(self).status != ApprovalStatus::Pending && *final(self) == *old(self)
                    && e@ == "Cannot reject request with status: "@ + old(self).status.name(),
            },
    {
        match self.status {
            ApprovalStatus::Pending => {
                self.status = ApprovalStatus::Rejected;
                self.feedback = Some(owned(feedback));
                self.resolved_at = Some(now());
                Ok(())
            },
            _ => Err(concat("Cannot reject request with status: ", self.status.as_str())),
        }
    }

    /// A copy of the request.
    pub fn duplicate(&self) -> (r: ApprovalRequest)
        ensures
            r == *self,
    {
        ApprovalRequest {
            id: self.id,
            work_item_id: self.work_item_id,
            requester_id: self.requester_id,
            approver_id: self.approver_id,
            status: self.status,
            feedback: self.feedback.clone(),
            created_at: self.created_at,
            resolved_at: self.resolved_at,
        }
    }
}

impl Clone for ApprovalRequest {
    fn clone(&self) -> (r: Self)
        ensures
            r == *self,
    {
        self.duplicate()
    }
}

/// Law: every action is either refused or moves the item to exactly one
/// status; nothing moves an item out of a final status, and only pending
/// items can be accepted or declined.
pub proof fn lemma_transition_table(status: WorkItemStatus, action: WorkAction, approval: bool)
    ensures
        status.terminal() ==> transition(status, action, approval) is None,
        transition(status, action, approval) matches Some(next) ==> next != status && next
            != WorkItemStatus::Pending && next != WorkItemStatus::Rejected,
        (action == WorkAction::Accept || action == WorkAction::Decline) ==> (transition(
            status,
            action,
            approval,
        ) is Some <==> status == WorkItemStatus::Pending),
        (action == WorkAction::Submit || action == WorkAction::Complete) ==> (transition(
            status,
            action,
            approval,
        ) is Some <==> status.active()),
        action == WorkAction::Cancel ==> (transition(status, action, approval) is Some
            <==> !status.terminal()),
{
}

} // verus!
