//! The delegation engine: who is registered, what work is under way, who
//! waits for whom.
//!
//! The engine is a plain state machine. Every operation either refuses with
//! a reason and leaves the state as it was, or takes one step and appends
//! the event that tells of it to the engine's event log. The embedding
//! server drains the log and broadcasts what it finds.

use vstd::prelude::*;
use std::collections::HashMap;
use crate::clock::{now, Timestamp};
use crate::crdt::participant::{Participant, ParticipantKind};
use crate::delegation::capability::{Capability, CapabilitySet};
use crate::delegation::participant::RegisteredParticipant;
use crate::delegation::work_item::{
    transition,
    ApprovalRequest,
    ApprovalStatus,
    WorkAction,
    WorkItem,
    WorkItemStatus,
    WorkPriority,
};
use crate::ident::{canonical_text, fresh_id, id_text};
use crate::table::{dequeue, enqueue, has, keys_of, lemma_without, lookup, put, queue_in, take, without};
use crate::text::{concat, owned};

verus! {

/// What the engine tells its listeners.
#[derive(Debug, Clone)]
pub enum DelegationEvent {
    ParticipantRegistered { participant_id: u128, name: String, kind: ParticipantKind },
    CapabilitiesChanged { participant_id: u128, capabilities: Vec<Capability> },
    WorkDelegated { work_item_id: u128, delegator_id: u128, assignee_id: u128, description: String },
    WorkAccepted { work_item_id: u128, assignee_id: u128 },
    WorkDeclined { work_item_id: u128, assignee_id: u128 },
    ApprovalRequested { approval_id: u128, work_item_id: u128, requester_id: u128, approver_id: u128 },
    WorkApproved { work_item_id: u128, approver_id: u128, feedback: Option<String> },
    WorkRejected { work_item_id: u128, approver_id: u128, feedback: String },
    WorkCancelled { work_item_id: u128, cancelled_by: u128 },
    WorkClaimed { work_item_id: u128, claimed_by: u128 },
    /// A participant started or stopped accepting work.
    ParticipantStatusChanged { participant_id: u128, accepting_work: bool },
}

/// Why the engine refused an operation.
#[derive(Debug, Clone)]
pub enum DelegationError {
    ParticipantNotFound(u128),
    WorkItemNotFound(u128),
    ApprovalNotFound(u128),
    /// The participant lacks the capability that the operation asks for.
    InsufficientCapability { participant_id: u128, required: Capability },
    /// The participant takes no work, or has no capacity for any.
    NotAcceptingWork(u128),
    /// The work item or approval request is in no state for the operation.
    InvalidStateTransition(String),
    /// The participant is not the party that the operation is reserved for.
    NotAuthorized(String),
}

/// What an operation of the engine returns.
pub type DelegationResult<T> = Result<T, DelegationError>;

/// A refusal as a plain value: a `DelegationError` with its texts as
/// sequences of characters.
pub enum Refusal {
    ParticipantNotFound(u128),
    WorkItemNotFound(u128),
    ApprovalNotFound(u128),
    InsufficientCapability { participant_id: u128, required: Capability },
    NotAcceptingWork(u128),
    InvalidStateTransition(Seq<char>),
    NotAuthorized(Seq<char>),
}

impl View for DelegationError {
    type V = Refusal;

    open spec fn view(&self) -> Refusal {
        match self {
            DelegationError::ParticipantNotFound(id) => Refusal::ParticipantNotFound(*id),
            DelegationError::WorkItemNotFound(id) => Refusal::WorkItemNotFound(*id),
            DelegationError::ApprovalNotFound(id) => Refusal::ApprovalNotFound(*id),
            DelegationError::InsufficientCapability { participant_id, required } => {
                Refusal::InsufficientCapability {
                    participant_id: *participant_id,
                    required: *required,
                }
            },
            DelegationError::NotAcceptingWork(id) => Refusal::NotAcceptingWork(*id),
            DelegationError::InvalidStateTransition(m) => Refusal::InvalidStateTransition(m@),
            DelegationError::NotAuthorized(m) => Refusal::NotAuthorized(m@),
        }
    }
}

/// The message of a refusal.
pub open spec fn refusal_text(r: Refusal) -> Seq<char> {
    match r {
        Refusal::ParticipantNotFound(id) => "Participant not found: "@ + canonical_text(id),
        Refusal::WorkItemNotFound(id) => "Work item not found: "@ + canonical_text(id),
        Refusal::ApprovalNotFound(id) => "Approval request not found: "@ + canonical_text(id),
        Refusal::InsufficientCapability { participant_id, required } => "Participant "@
            + canonical_text(participant_id) + " lacks capability: "@ + required.name(),
        Refusal::NotAcceptingWork(id) => "Participant "@ + canonical_text(id)
            + " is not accepting work"@,
        Refusal::InvalidStateTransition(m) => "Invalid state transition: "@ + m,
        Refusal::NotAuthorized(m) => "Not authorized: "@ + m,
    }
}

impl DelegationError {
    /// The message of the error.
    pub fn to_string(&self) -> (r: String)
        ensures
            r@ == refusal_text(self@),
    {
        match self {
            DelegationError::ParticipantNotFound(id) => concat(
                "Participant not found: ",
                id_text(*id).as_str(),
            ),
            DelegationError::WorkItemNotFound(id) => concat(
                "Work item not found: ",
                id_text(*id).as_str(),
            ),
            DelegationError::ApprovalNotFound(id) => concat(
                "Approval request not found: ",
                id_text(*id).as_str(),
            ),
            DelegationError::InsufficientCapability { participant_id, required } => {
                let head = concat("Participant ", id_text(*participant_id).as_str());
                let middle = concat(head.as_str(), " lacks capability: ");
                concat(middle.as_str(), required.as_str())
            },
            DelegationError::NotAcceptingWork(id) => {
                let head = concat("Participant ", id_text(*id).as_str());
                concat(head.as_str(), " is not accepting work")
            },
            DelegationError::InvalidStateTransition(m) => concat(
                "Invalid state transition: ",
                m.as_str(),
            ),
            DelegationError::NotAuthorized(m) => concat("Not authorized: ", m.as_str()),
        }
    }
}

/// Whether `w` is an item that waits in a queue: pending or rejected.
pub open spec fn queued_item(items: Map<u128, WorkItem>, w: u128) -> bool {
    items.contains_key(w) && items[w].status.queued()
}

/// Whether `a` is a request that still waits for its approver.
pub open spec fn pending_request(requests: Map<u128, ApprovalRequest>, a: u128) -> bool {
    requests.contains_key(a) && requests[a].status == ApprovalStatus::Pending
}

/// The work side of the invariant: items are filed under their own ids,
/// and a work queue holds, each once, exactly the queued items of its owner.
pub open spec fn work_wf(items: Map<u128, WorkItem>, work_queues: Map<u128, Vec<u128>>) -> bool {
    &&& forall|w: u128| #[trigger] items.contains_key(w) ==> items[w].id == w
    &&& forall|p: u128, i: int|
        0 <= i < queue_in(work_queues, p).len() ==> queued_item(
            items,
            #[trigger] queue_in(work_queues, p)[i],
        ) && items[queue_in(work_queues, p)[i]].assignee_id == p
    &&& forall|p: u128| (#[trigger] queue_in(work_queues, p)).no_duplicates()
    &&& forall|w: u128| #[trigger]
        queued_item(items, w) ==> queue_in(work_queues, items[w].assignee_id).contains(w)
}

/// The approval side of the invariant: requests are filed under their own
/// ids, and an approval queue holds, each once, exactly the pending
/// requests addressed to its owner.
pub open spec fn approval_wf(
    requests: Map<u128, ApprovalRequest>,
    approval_queues: Map<u128, Vec<u128>>,
) -> bool {
    &&& forall|a: u128| #[trigger] requests.contains_key(a) ==> requests[a].id == a
    &&& forall|p: u128, i: int|
        0 <= i < queue_in(approval_queues, p).len() ==> pending_request(
            requests,
            #[trigger] queue_in(approval_queues, p)[i],
        ) && requests[queue_in(approval_queues, p)[i]].approver_id == p
    &&& forall|p: u128| (#[trigger] queue_in(approval_queues, p)).no_duplicates()
    &&& forall|a: u128| #[trigger]
        pending_request(requests, a) ==> queue_in(approval_queues, requests[a].approver_id).contains(
            a,
        )
}

/// What ties requests to items: every request names an item; a pending
/// request names an item that awaits approval or was cancelled meanwhile,
/// comes from that item's assignee, and is the only pending one for it.
pub open spec fn link_wf(items: Map<u128, WorkItem>, requests: Map<u128, ApprovalRequest>) -> bool {
    &&& forall|a: u128| #[trigger]
        requests.contains_key(a) ==> items.contains_key(requests[a].work_item_id)
    &&& forall|a: u128| #[trigger]
        pending_request(requests, a) ==> {
            let item = items[requests[a].work_item_id];
            &&& (item.status == WorkItemStatus::AwaitingApproval || item.status
                == WorkItemStatus::Cancelled)
            &&& requests[a].requester_id == item.assignee_id
        }
    &&& forall|a: u128, b: u128|
        #![trigger pending_request(requests, a), pending_request(requests, b)]
        pending_request(requests, a) && pending_request(requests, b) && requests[a].work_item_id
            == requests[b].work_item_id ==> a == b
}

/// Registrations are filed under the ids of their participants.
pub open spec fn people_wf(people: Map<u128, RegisteredParticipant>) -> bool {
    forall|id: u128| #[trigger] people.contains_key(id) ==> people[id].participant.id == id
}

/// The invariant of the engine, over its tables.
pub open spec fn engine_wf(
    items: Map<u128, WorkItem>,
    requests: Map<u128, ApprovalRequest>,
    work_queues: Map<u128, Vec<u128>>,
    approval_queues: Map<u128, Vec<u128>>,
) -> bool {
    &&& work_wf(items, work_queues)
    &&& approval_wf(requests, approval_queues)
    &&& link_wf(items, requests)
}

proof fn lemma_not_in_queue(items: Map<u128, WorkItem>, wq: Map<u128, Vec<u128>>, w: u128, p: u128)
    requires
        work_wf(items, wq),
        !queued_item(items, w) || items[w].assignee_id != p,
    ensures
        !queue_in(wq, p).contains(w),
{
    if queue_in(wq, p).contains(w) {
        let i = choose|i: int| 0 <= i < queue_in(wq, p).len() && queue_in(wq, p)[i] == w;
        assert(queued_item(items, queue_in(wq, p)[i]));
    }
}

proof fn lemma_not_in_approval_queue(
    requests: Map<u128, ApprovalRequest>,
    aq: Map<u128, Vec<u128>>,
    a: u128,
    p: u128,
)
    requires
        approval_wf(requests, aq),
        !pending_request(requests, a) || requests[a].approver_id != p,
    ensures
        !queue_in(aq, p).contains(a),
{
    if queue_in(aq, p).contains(a) {
        let i = choose|i: int| 0 <= i < queue_in(aq, p).len() && queue_in(aq, p)[i] == a;
        assert(pending_request(requests, queue_in(aq, p)[i]));
    }
}

/// An item that stops being queued leaves the queue of its assignee.
proof fn lemma_work_unqueue(
    items: Map<u128, WorkItem>,
    wq: Map<u128, Vec<u128>>,
    wq2: Map<u128, Vec<u128>>,
    w: u128,
    it2: WorkItem,
)
    requires
        work_wf(items, wq),
        items.contains_key(w),
        it2.id == w,
        !it2.status.queued(),
        queue_in(wq2, items[w].assignee_id) == without(queue_in(wq, items[w].assignee_id), w),
        forall|q: u128|
            q != items[w].assignee_id ==> #[trigger] queue_in(wq2, q) == queue_in(wq, q),
    ensures
        work_wf(items.insert(w, it2), wq2),
{
    let p = items[w].assignee_id;
    let items2 = items.insert(w, it2);
    lemma_without(queue_in(wq, p), w);
    assert forall|q: u128, i: int| 0 <= i < queue_in(wq2, q).len() implies queued_item(
        items2,
        #[trigger] queue_in(wq2, q)[i],
    ) && items2[queue_in(wq2, q)[i]].assignee_id == q by {
        let x = queue_in(wq2, q)[i];
        if q == p {
            assert(without(queue_in(wq, p), w).contains(x));
            assert(queue_in(wq, p).contains(x) && x != w);
            let j = choose|j: int| 0 <= j < queue_in(wq, p).len() && queue_in(wq, p)[j] == x;
            assert(queued_item(items, queue_in(wq, p)[j]));
        } else {
            assert(queue_in(wq2, q) == queue_in(wq, q));
            assert(queued_item(items, queue_in(wq, q)[i]));
            assert(x != w);
        }
    }
    assert forall|q: u128| (#[trigger] queue_in(wq2, q)).no_duplicates() by {
        if q != p {
            assert(queue_in(wq2, q) == queue_in(wq, q));
        }
        assert(queue_in(wq, q).no_duplicates());
    }
    assert forall|x: u128| #[trigger] queued_item(items2, x) implies queue_in(
        wq2,
        items2[x].assignee_id,
    ).contains(x) by {
        assert(x != w);
        assert(queued_item(items, x));
        let q = items[x].assignee_id;
        assert(queue_in(wq, q).contains(x));
        if q != p {
            assert(queue_in(wq2, q) == queue_in(wq, q));
        }
    }
}

/// An item that becomes queued joins the back of its assignee's queue.
proof fn lemma_work_enqueue(
    items: Map<u128, WorkItem>,
    wq: Map<u128, Vec<u128>>,
    wq2: Map<u128, Vec<u128>>,
    w: u128,
    it2: WorkItem,
)
    requires
        work_wf(items, wq),
        !queued_item(items, w),
        it2.id == w,
        it2.status.queued(),
        queue_in(wq2, it2.assignee_id) == queue_in(wq, it2.assignee_id).push(w),
        forall|q: u128| q != it2.assignee_id ==> #[trigger] queue_in(wq2, q) == queue_in(wq, q),
    ensures
        work_wf(items.insert(w, it2), wq2),
{
    let p = it2.assignee_id;
    let items2 = items.insert(w, it2);
    assert forall|q: u128, i: int| 0 <= i < queue_in(wq2, q).len() implies queued_item(
        items2,
        #[trigger] queue_in(wq2, q)[i],
    ) && items2[queue_in(wq2, q)[i]].assignee_id == q by {
        let x = queue_in(wq2, q)[i];
        if q == p && i == queue_in(wq, p).len() {
        } else {
            if q != p {
                assert(queue_in(wq2, q) == queue_in(wq, q));
            }
            assert(queued_item(items, queue_in(wq, q)[i]));
            assert(x != w);
        }
    }
    assert forall|q: u128| (#[trigger] queue_in(wq2, q)).no_duplicates() by {
        if q != p {
            assert(queue_in(wq2, q) == queue_in(wq, q));
        } else {
            lemma_not_in_queue(items, wq, w, p);
        }
        assert(queue_in(wq, q).no_duplicates());
    }
    assert forall|x: u128| #[trigger] queued_item(items2, x) implies queue_in(
        wq2,
        items2[x].assignee_id,
    ).contains(x) by {
        if x == w {
            assert(queue_in(wq2, p)[queue_in(wq, p).len() as int] == w);
        } else {
            assert(queued_item(items, x));
            let q = items[x].assignee_id;
            assert(queue_in(wq, q).contains(x));
            let j = choose|j: int| 0 <= j < queue_in(wq, q).len() && queue_in(wq, q)[j] == x;
            if q != p {
                assert(queue_in(wq2, q) == queue_in(wq, q));
            } else {
                assert(queue_in(wq2, q)[j] == x);
            }
        }
    }
}

/// An item that was not queued and is not queued now leaves the queues alone.
proof fn lemma_work_replace(
    items: Map<u128, WorkItem>,
    wq: Map<u128, Vec<u128>>,
    w: u128,
    it2: WorkItem,
)
    requires
        work_wf(items, wq),
        !queued_item(items, w),
        it2.id == w,
        !it2.status.queued(),
    ensures
        work_wf(items.insert(w, it2), wq),
{
    let items2 = items.insert(w, it2);
    assert forall|q: u128, i: int| 0 <= i < queue_in(wq, q).len() implies queued_item(
        items2,
        #[trigger] queue_in(wq, q)[i],
    ) && items2[queue_in(wq, q)[i]].assignee_id == q by {
        assert(queued_item(items, queue_in(wq, q)[i]));
    }
    assert forall|x: u128| #[trigger] queued_item(items2, x) implies queue_in(
        wq,
        items2[x].assignee_id,
    ).contains(x) by {
        assert(queued_item(items, x));
    }
}

/// A new pending request joins the back of its approver's queue.
proof fn lemma_approval_enqueue(
    requests: Map<u128, ApprovalRequest>,
    aq: Map<u128, Vec<u128>>,
    aq2: Map<u128, Vec<u128>>,
    a: u128,
    req: ApprovalRequest,
)
    requires
        approval_wf(requests, aq),
        !requests.contains_key(a),
        req.id == a,
        req.status == ApprovalStatus::Pending,
        queue_in(aq2, req.approver_id) == queue_in(aq, req.approver_id).push(a),
        forall|q: u128| q != req.approver_id ==> #[trigger] queue_in(aq2, q) == queue_in(aq, q),
    ensures
        approval_wf(requests.insert(a, req), aq2),
{
    let p = req.approver_id;
    let requests2 = requests.insert(a, req);
    assert forall|q: u128, i: int| 0 <= i < queue_in(aq2, q).len() implies pending_request(
        requests2,
        #[trigger] queue_in(aq2, q)[i],
    ) && requests2[queue_in(aq2, q)[i]].approver_id == q by {
        if q == p && i == queue_in(aq, p).len() {
        } else {
            if q != p {
                assert(queue_in(aq2, q) == queue_in(aq, q));
            }
            assert(pending_request(requests, queue_in(aq, q)[i]));
        }
    }
    assert forall|q: u128| (#[trigger] queue_in(aq2, q)).no_duplicates() by {
        if q != p {
            assert(queue_in(aq2, q) == queue_in(aq, q));
        } else {
            lemma_not_in_approval_queue(requests, aq, a, p);
        }
        assert(queue_in(aq, q).no_duplicates());
    }
    assert forall|x: u128| #[trigger] pending_request(requests2, x) implies queue_in(
        aq2,
        requests2[x].approver_id,
    ).contains(x) by {
        if x == a {
            assert(queue_in(aq2, p)[queue_in(aq, p).len() as int] == a);
        } else {
            assert(pending_request(requests, x));
            let q = requests[x].approver_id;
            assert(queue_in(aq, q).contains(x));
            let j = choose|j: int| 0 <= j < queue_in(aq, q).len() && queue_in(aq, q)[j] == x;
            if q != p {
                assert(queue_in(aq2, q) == queue_in(aq, q));
            } else {
                assert(queue_in(aq2, q)[j] == x);
            }
        }
    }
}

/// A request that is decided leaves the queue of its approver.
proof fn lemma_approval_resolve(
    requests: Map<u128, ApprovalRequest>,
    aq: Map<u128, Vec<u128>>,
    aq2: Map<u128, Vec<u128>>,
    a: u128,
    req2: ApprovalRequest,
)
    requires
        approval_wf(requests, aq),
        requests.contains_key(a),
        req2.id == a,
        req2.status != ApprovalStatus::Pending,
        queue_in(aq2, requests[a].approver_id) == without(
            queue_in(aq, requests[a].approver_id),
            a,
        ),
        forall|q: u128|
            q != requests[a].approver_id ==> #[trigger] queue_in(aq2, q) == queue_in(aq, q),
    ensures
        approval_wf(requests.insert(a, req2), aq2),
{
    let p = requests[a].approver_id;
    let requests2 = requests.insert(a, req2);
    lemma_without(queue_in(aq, p), a);
    assert forall|q: u128, i: int| 0 <= i < queue_in(aq2, q).len() implies pending_request(
        requests2,
        #[trigger] queue_in(aq2, q)[i],
    ) && requests2[queue_in(aq2, q)[i]].approver_id == q by {
        let x = queue_in(aq2, q)[i];
        if q == p {
            assert(without(queue_in(aq, p), a).contains(x));
            assert(queue_in(aq, p).contains(x) && x != a);
            let j = choose|j: int| 0 <= j < queue_in(aq, p).len() && queue_in(aq, p)[j] == x;
            assert(pending_request(requests, queue_in(aq, p)[j]));
        } else {
            assert(queue_in(aq2, q) == queue_in(aq, q));
            assert(pending_request(requests, queue_in(aq, q)[i]));
            assert(x != a);
        }
    }
    assert forall|q: u128| (#[trigger] queue_in(aq2, q)).no_duplicates() by {
        if q != p {
            assert(queue_in(aq2, q) == queue_in(aq, q));
        }
        assert(queue_in(aq, q).no_duplicates());
    }
    assert forall|x: u128| #[trigger] pending_request(requests2, x) implies queue_in(
        aq2,
        requests2[x].approver_id,
    ).contains(x) by {
        assert(x != a);
        assert(pending_request(requests, x));
        let q = requests[x].approver_id;
        assert(queue_in(aq, q).contains(x));
        if q != p {
            assert(queue_in(aq2, q) == queue_in(aq, q));
        }
    }
}

/// Replacing an item keeps the tie to the requests where every pending
/// request for it finds it awaiting approval or cancelled, with the same
/// assignee.
proof fn lemma_link_item(
    items: Map<u128, WorkItem>,
    requests: Map<u128, ApprovalRequest>,
    w: u128,
    it2: WorkItem,
)
    requires
        link_wf(items, requests),
        forall|a: u128| #[trigger]
            pending_request(requests, a) && requests[a].work_item_id == w ==> (it2.status
                == WorkItemStatus::AwaitingApproval || it2.status == WorkItemStatus::Cancelled)
                && it2.assignee_id == items[w].assignee_id,
    ensures
        link_wf(items.insert(w, it2), requests),
{
    let items2 = items.insert(w, it2);
    assert forall|a: u128| #[trigger] pending_request(requests, a) implies {
        let item = items2[requests[a].work_item_id];
        &&& (item.status == WorkItemStatus::AwaitingApproval || item.status
            == WorkItemStatus::Cancelled)
        &&& requests[a].requester_id == item.assignee_id
    } by {
        if requests[a].work_item_id == w {
        }
    }
}

/// An item that is not awaiting approval and not cancelled has no pending
/// request.
proof fn lemma_no_pending_for(
    items: Map<u128, WorkItem>,
    requests: Map<u128, ApprovalRequest>,
    w: u128,
)
    requires
        link_wf(items, requests),
        items.contains_key(w) ==> items[w].status != WorkItemStatus::AwaitingApproval
            && items[w].status != WorkItemStatus::Cancelled,
    ensures
        forall|a: u128| #[trigger]
            pending_request(requests, a) ==> requests[a].work_item_id != w,
{
    assert forall|a: u128| #[trigger] pending_request(requests, a) implies requests[a].work_item_id
        != w by {
        assert(requests.contains_key(a));
    }
}

/// The delegation engine.
pub struct DelegationManager {
    /// Registered participants by id.
    participants: HashMap<u128, RegisteredParticipant>,
    /// Work items by id.
    work_items: HashMap<u128, WorkItem>,
    /// Approval requests by id.
    approvals: HashMap<u128, ApprovalRequest>,
    /// For each assignee the work that waits for it, oldest first.
    work_queues: HashMap<u128, Vec<u128>>,
    /// For each approver the requests that wait for it, oldest first.
    approval_queues: HashMap<u128, Vec<u128>>,
    /// The events not yet handed out, oldest first.
    events: Vec<DelegationEvent>,
}

impl DelegationManager {
    /// The registered participants.
    pub closed spec fn participants(&self) -> Map<u128, RegisteredParticipant> {
        self.participants@
    }

    /// The work items, past and present.
    pub closed spec fn items(&self) -> Map<u128, WorkItem> {
        self.work_items@
    }

    /// The approval requests, past and present.
    pub closed spec fn requests(&self) -> Map<u128, ApprovalRequest> {
        self.approvals@
    }

    /// The work that waits for participant `p`, oldest first.
    pub closed spec fn work_queue(&self, p: u128) -> Seq<u128> {
        queue_in(self.work_queues@, p)
    }

    /// The approval requests that wait for participant `p`, oldest first.
    pub closed spec fn approval_queue(&self, p: u128) -> Seq<u128> {
        queue_in(self.approval_queues@, p)
    }

    /// The events that were not handed out yet, oldest first.
    pub closed spec fn events(&self) -> Seq<DelegationEvent> {
        self.events@
    }

    /// The invariant of the engine.
    ///
    /// Items and requests are filed under their own ids. A work queue holds,
    /// each once, exactly the items that are assigned to its owner and are
    /// pending or rejected. An approval queue holds, each once, exactly the
    /// pending requests addressed to its owner. A pending request belongs to
    /// an item that awaits approval or was cancelled meanwhile, comes from
    /// that item's assignee, and is the only pending request for the item.
    pub closed spec fn wf(&self) -> bool {
        &&& engine_wf(self.work_items@, self.approvals@, self.work_queues@, self.approval_queues@)
        &&& people_wf(self.participants@)
    }

    /// Whether the two engines differ in nothing but their event logs and
    /// their work items and work queues.
    pub open spec fn same_people_and_requests(&self, other: &DelegationManager) -> bool {
        &&& self.participants() == other.participants()
        &&& self.requests() == other.requests()
        &&& forall|p: u128| #[trigger] self.approval_queue(p) == other.approval_queue(p)
    }

    /// Whether every work queue but that of `p` is as in `other`.
    pub open spec fn same_work_queues_but(&self, other: &DelegationManager, p: u128) -> bool {
        forall|q: u128| q != p ==> #[trigger] self.work_queue(q) == other.work_queue(q)
    }

    /// Whether every approval queue but that of `p` is as in `other`.
    pub open spec fn same_approval_queues_but(&self, other: &DelegationManager, p: u128) -> bool {
        forall|q: u128| q != p ==> #[trigger] self.approval_queue(q) == other.approval_queue(q)
    }

    /// Whether the log of this engine is that of `other` and one event more.
    pub open spec fn logged_one_more(&self, other: &DelegationManager) -> bool {
        self.events().len() == other.events().len() + 1 && self.events().drop_last()
            == other.events()
    }

    /// An engine without participants, work or events.
    pub fn new() -> (r: DelegationManager)
        ensures
            r.wf(),
            r.participants() == Map::<u128, RegisteredParticipant>::empty(),
            r.items() == Map::<u128, WorkItem>::empty(),
            r.requests() == Map::<u128, ApprovalRequest>::empty(),
            forall|p: u128| #[trigger] r.work_queue(p) == Seq::<u128>::empty(),
            forall|p: u128| #[trigger] r.approval_queue(p) == Seq::<u128>::empty(),
            r.events() == Seq::<DelegationEvent>::empty(),
    {
        DelegationManager {
            participants: HashMap::new(),
            work_items: HashMap::new(),
            approvals: HashMap::new(),
            work_queues: HashMap::new(),
            approval_queues: HashMap::new(),
            events: Vec::new(),
        }
    }

    /// Hands out the events logged since the last call, oldest first, and
    /// empties the log.
    pub fn take_events(&mut self) -> (r: Vec<DelegationEvent>)
        ensures
            r@ == old(self).events(),
            final(self).events() == Seq::<DelegationEvent>::empty(),
            final(self).participants() == old(self).participants(),
            final(self).items() == old(self).items(),
            final(self).requests() == old(self).requests(),
            forall|p: u128| #[trigger] final(self).work_queue(p) == old(self).work_queue(p),
            forall|p: u128| #[trigger] final(self).approval_queue(p) == old(self).approval_queue(p),
            old(self).wf() ==> final(self).wf(),
    {
        let mut out: Vec<DelegationEvent> = Vec::new();
        std::mem::swap(&mut out, &mut self.events);
        out
    }

    fn enroll(&mut self, registered: RegisteredParticipant) -> (r: RegisteredParticipant)
        ensures
            r.same_as(registered),
            final(self).participants().contains_key(registered.participant.id),
            final(self).participants()[registered.participant.id].same_as(registered),
            final(self).participants().remove(registered.participant.id) == old(self).participants().remove(registered.participant.id),
            final(self).items() == old(self).items(),
            final(self).requests() == old(self).requests(),
            forall|p: u128| #[trigger] final(self).work_queue(p) == old(self).work_queue(p),
            forall|p: u128| #[trigger] final(self).approval_queue(p) == old(self).approval_queue(p),
            final(self).logged_one_more(old(self)),
            final(self).events().last() matches DelegationEvent::ParticipantRegistered {
                participant_id,
                name,
                kind,
            } && participant_id == registered.participant.id && name@
                == registered.participant.name@ && kind == registered.participant.kind,
            old(self).wf() ==> final(self).wf(),
    {
        let id = registered.id();
        let copy = registered.duplicate();
        let event = DelegationEvent::ParticipantRegistered {
            participant_id: id,
            name: owned(registered.name()),
            kind: registered.kind(),
        };
        put(&mut self.participants, id, registered);
        self.events.push(event);
        proof {
            assert(self.events().drop_last() =~= old(self).events());
            assert(final(self).participants().remove(id) =~= old(self).participants().remove(id));
        }
        copy
    }

    /// Registers a participant with the capabilities and the capacity of
    /// its kind. A registration under the same id is replaced.
    pub fn register_participant(&mut self, participant: Participant) -> (r: RegisteredParticipant)
        ensures
            r.registered(
                participant,
                crate::delegation::participant::default_capabilities(participant.kind),
            ),
            final(self).participants().contains_key(participant.id),
            final(self).participants()[participant.id].same_as(r),
            final(self).participants().remove(participant.id) == old(self).participants().remove(
                participant.id,
            ),
            final(self).items() == old(self).items(),
            final(self).requests() == old(self).requests(),
            forall|p: u128| #[trigger] final(self).work_queue(p) == old(self).work_queue(p),
            forall|p: u128| #[trigger] final(self).approval_queue(p) == old(self).approval_queue(p),
            final(self).logged_one_more(old(self)),
            final(self).events().last() matches DelegationEvent::ParticipantRegistered {
                participant_id,
                name,
                kind,
            } && participant_id == participant.id && name@ == participant.name@ && kind
                == participant.kind,
            old(self).wf() ==> final(self).wf(),
    {
        self.enroll(RegisteredParticipant::new(participant))
    }

    /// Registers a participant with the given capabilities.
    pub fn register_participant_with_capabilities(
        &mut self,
        participant: Participant,
        capabilities: CapabilitySet,
    ) -> (r: RegisteredParticipant)
        ensures
            r.registered(participant, capabilities@),
            final(self).participants().contains_key(participant.id),
            final(self).participants()[participant.id].same_as(r),
            final(self).participants().remove(participant.id) == old(self).participants().remove(
                participant.id,
            ),
            final(self).items() == old(self).items(),
            final(self).requests() == old(self).requests(),
            forall|p: u128| #[trigger] final(self).work_queue(p) == old(self).work_queue(p),
            forall|p: u128| #[trigger] final(self).approval_queue(p) == old(self).approval_queue(p),
            final(self).logged_one_more(old(self)),
            final(self).events().last() matches DelegationEvent::ParticipantRegistered {
                participant_id,
                name,
                kind,
            } && participant_id == participant.id && name@ == participant.name@ && kind
                == participant.kind,
            old(self).wf() ==> final(self).wf(),
    {
        self.enroll(RegisteredParticipant::with_capabilities(participant, capabilities))
    }

    /// The registration of a participant, if there is one.
    pub fn get_participant(&self, id: u128) -> (r: Option<RegisteredParticipant>)
        ensures
            r.is_some() == self.participants().contains_key(id),
            r matches Some(p) ==> p.same_as(self.participants()[id]),
    {
        match lookup(&self.participants, id) {
            Some(p) => Some(p.duplicate()),
            None => None,
        }
    }

    /// Removes a registration and returns it. Work and queues stay.
    pub fn unregister_participant(&mut self, id: u128) -> (r: Option<RegisteredParticipant>)
        ensures
            r.is_some() == old(self).participants().contains_key(id),
            r matches Some(p) ==> p == old(self).participants()[id],
            final(self).participants() == old(self).participants().remove(id),
            final(self).items() == old(self).items(),
            final(self).requests() == old(self).requests(),
            forall|p: u128| #[trigger] final(self).work_queue(p) == old(self).work_queue(p),
            forall|p: u128| #[trigger] final(self).approval_queue(p) == old(self).approval_queue(p),
            final(self).events() == old(self).events(),
            old(self).wf() ==> final(self).wf(),
    {
        take(&mut self.participants, id)
    }

    /// Replaces the capabilities of a registered participant.
    pub fn update_capabilities(&mut self, participant_id: u128, capabilities: CapabilitySet) -> (r:
        DelegationResult<()>)
        ensures
            old(self).wf() ==> final(self).wf(),
            match r {
                Err(e) => !old(self).participants().contains_key(participant_id) && e@
                    == Refusal::ParticipantNotFound(participant_id) && *final(self) == *old(self),
                Ok(_) => {
                    &&& old(self).participants().contains_key(participant_id)
                    &&& final(self).participants().dom() == old(self).participants().dom()
                    &&& final(self).participants().remove(participant_id) == old(self).participants().remove(participant_id)
                    &&& {
                        let before = old(self).participants()[participant_id];
                        let after = final(self).participants()[participant_id];
                        &&& after.capabilities@ == capabilities@
                        &&& after.participant == before.participant
                        &&& after.accepting_work == before.accepting_work
                        &&& after.work_capacity == before.work_capacity
                        &&& after.registered_at == before.registered_at
                    }
                    &&& final(self).items() == old(self).items()
                    &&& final(self).requests() == old(self).requests()
                    &&& forall|p: u128| #[trigger]
                        final(self).work_queue(p) == old(self).work_queue(p)
                    &&& forall|p: u128| #[trigger]
                        final(self).approval_queue(p) == old(self).approval_queue(p)
                    &&& final(self).logged_one_more(old(self))
                    &&& final(self).events().last() matches DelegationEvent::CapabilitiesChanged {
                        participant_id: who,
                        capabilities: listed,
                    } && who == participant_id && listed@.to_set() == capabilities@
                        && listed@.no_duplicates()
                },
            },
    {
        let mut changed = match lookup(&self.participants, participant_id) {
            Some(p) => p.duplicate(),
            None => {
                return Err(DelegationError::ParticipantNotFound(participant_id));
            },
        };
        let listed = capabilities.to_vec();
        changed.capabilities = capabilities;
        put(&mut self.participants, participant_id, changed);
        self.events.push(
            DelegationEvent::CapabilitiesChanged { participant_id, capabilities: listed },
        );
        proof {
            assert(self.events().drop_last() =~= old(self).events());
            assert(final(self).participants().dom() =~= old(self).participants().dom());
            assert(final(self).participants().remove(participant_id) =~= old(self).participants().remove(participant_id));
        }
        Ok(())
    }

    /// Says whether a registered participant accepts work.
    pub fn set_accepting_work(&mut self, participant_id: u128, accepting: bool) -> (r:
        DelegationResult<()>)
        ensures
            old(self).wf() ==> final(self).wf(),
            match r {
                Err(e) => !old(self).participants().contains_key(participant_id) && e@
                    == Refusal::ParticipantNotFound(participant_id) && *final(self) == *old(self),
                Ok(_) => {
                    &&& old(self).participants().contains_key(participant_id)
                    &&& final(self).participants().dom() == old(self).participants().dom()
                    &&& final(self).participants().remove(participant_id) == old(self).participants().remove(participant_id)
                    &&& {
                        let before = old(self).participants()[participant_id];
                        let after = final(self).participants()[participant_id];
                        &&& after.accepting_work == accepting
                        &&& after.capabilities@ == before.capabilities@
                        &&& after.participant == before.participant
                        &&& after.work_capacity == before.work_capacity
                        &&& after.registered_at == before.registered_at
                    }
                    &&& final(self).items() == old(self).items()
                    &&& final(self).requests() == old(self).requests()
                    &&& forall|p: u128| #[trigger]
                        final(self).work_queue(p) == old(self).work_queue(p)
                    &&& forall|p: u128| #[trigger]
                        final(self).approval_queue(p) == old(self).approval_queue(p)
                    &&& final(self).events() == old(self).events().push(
                        DelegationEvent::ParticipantStatusChanged {
                            participant_id,
                            accepting_work: accepting,
                        },
                    )
                },
            },
    {
        let mut changed = match lookup(&self.participants, participant_id) {
            Some(p) => p.duplicate(),
            None => {
                return Err(DelegationError::ParticipantNotFound(participant_id));
            },
        };
        changed.set_accepting_work(accepting);
        put(&mut self.participants, participant_id, changed);
        self.events.push(
            DelegationEvent::ParticipantStatusChanged { participant_id, accepting_work: accepting },
        );
        proof {
            assert(self.events().drop_last() =~= old(self).events());
            assert(final(self).participants().dom() =~= old(self).participants().dom());
            assert(final(self).participants().remove(participant_id) =~= old(self).participants().remove(participant_id));
        }
        Ok(())
    }

    /// Why a delegation is refused, if it is: the delegator must be
    /// registered and hold `Delegate`, the assignee must be registered and
    /// able to receive work, and the identifier must be unused.
    pub open spec fn delegate_guard(&self, delegator_id: u128, assignee_id: u128, id: u128) -> Option<
        Refusal,
    > {
        if !self.participants().contains_key(delegator_id) {
            Some(Refusal::ParticipantNotFound(delegator_id))
        } else if !self.participants()[delegator_id].capabilities.grants(Capability::Delegate) {
            Some(
                Refusal::InsufficientCapability {
                    participant_id: delegator_id,
                    required: Capability::Delegate,
                },
            )
        } else if !self.participants().contains_key(assignee_id) {
            Some(Refusal::ParticipantNotFound(assignee_id))
        } else if !self.participants()[assignee_id].receives_work() {
            Some(Refusal::NotAcceptingWork(assignee_id))
        } else if self.items().contains_key(id) {
            Some(Refusal::InvalidStateTransition("Work item identifier already in use"@))
        } else {
            None
        }
    }

    /// Whether this engine is `pre` after the delegation that made `item`.
    pub open spec fn delegated(
        &self,
        pre: &DelegationManager,
        item: WorkItem,
        at: Timestamp,
        journal_id: u128,
        description: Seq<char>,
        delegator_id: u128,
        assignee_id: u128,
        priority: Option<WorkPriority>,
        requires_approval: bool,
        approver_id: Option<u128>,
    ) -> bool {
        &&& item.journal_id == journal_id
        &&& item.description@ == description
        &&& item.block_id is None
        &&& item.delegator_id == delegator_id
        &&& item.assignee_id == assignee_id
        &&& item.status == WorkItemStatus::Pending
        &&& item.priority == (match priority {
            Some(p) => p,
            None => WorkPriority::Normal,
        })
        &&& item.requires_approval == requires_approval
        &&& item.approver_id == (if requires_approval {
            approver_id
        } else {
            None
        })
        &&& item.result is None
        &&& item.created_at == at
        &&& item.updated_at == at
        &&& self.items() == pre.items().insert(item.id, item)
        &&& self.work_queue(assignee_id) == pre.work_queue(assignee_id).push(item.id)
        &&& self.same_work_queues_but(pre, assignee_id)
        &&& self.same_people_and_requests(pre)
        &&& self.logged_one_more(pre)
        &&& self.events().last() matches DelegationEvent::WorkDelegated {
            work_item_id,
            delegator_id: by,
            assignee_id: to,
            description: what,
        } && work_item_id == item.id && by == delegator_id && to == assignee_id && what@
            == description
    }

    /// Delegates work: creates a pending work item under a fresh
    /// identifier and puts it at the back of the assignee's queue.
    pub fn delegate(
        &mut self,
        journal_id: u128,
        description: &str,
        delegator_id: u128,
        assignee_id: u128,
        priority: Option<WorkPriority>,
        requires_approval: bool,
        approver_id: Option<u128>,
    ) -> (r: DelegationResult<WorkItem>)
        requires
            old(self).wf(),
        ensures
            final(self).wf(),
            match r {
                Err(e) => *final(self) == *old(self) && exists|id: u128| #[trigger]
                    old(self).delegate_guard(delegator_id, assignee_id, id) == Some(e@),
                Ok(item) => old(self).delegate_guard(delegator_id, assignee_id, item.id) is None
                    && final(self).delegated(
                    old(self),
                    item,
                    item.created_at,
                    journal_id,
                    description@,
                    delegator_id,
                    assignee_id,
                    priority,
                    requires_approval,
                    approver_id,
                ),
            },
    {
        let id = fresh_id();
        self.delegate_with(
            id,
            now(),
            journal_id,
            description,
            delegator_id,
            assignee_id,
            priority,
            requires_approval,
            approver_id,
        )
    }

    /// Delegates work under the identifier `id` at the time `at`.
    pub fn delegate_with(
        &mut self,
        id: u128,
        at: Timestamp,
        journal_id: u128,
        description: &str,
        delegator_id: u128,
        assignee_id: u128,
        priority: Option<WorkPriority>,
        requires_approval: bool,
        approver_id: Option<u128>,
    ) -> (r: DelegationResult<WorkItem>)
        requires
            old(self).wf(),
        ensures
            final(self).wf(),
            match r {
                Err(e) => *final(self) == *old(self) && old(self).delegate_guard(
                    delegator_id,
                    assignee_id,
                    id,
                ) == Some(e@),
                Ok(item) => item.id == id && old(self).delegate_guard(delegator_id, assignee_id, id)
                    is None && final(self).delegated(
                    old(self),
                    item,
                    at,
                    journal_id,
                    description@,
                    delegator_id,
                    assignee_id,
                    priority,
                    requires_approval,
                    approver_id,
                ),
            },
    {
        match lookup(&self.participants, delegator_id) {
            None => {
                return Err(DelegationError::ParticipantNotFound(delegator_id));
            },
            Some(delegator) => {
                if !delegator.can_delegate() {
                    return Err(
                        DelegationError::InsufficientCapability {
                            participant_id: delegator_id,
                            required: Capability::Delegate,
                        },
                    );
                }
            },
        }
        match lookup(&self.participants, assignee_id) {
            None => {
                return Err(DelegationError::ParticipantNotFound(assignee_id));
            },
            Some(assignee) => {
                if !assignee.can_receive_work() {
                    return Err(DelegationError::NotAcceptingWork(assignee_id));
                }
            },
        }
        if has(&self.work_items, id) {
            return Err(
                DelegationError::InvalidStateTransition(
                    owned("Work item identifier already in use"),
                ),
            );
        }
        let mut item = WorkItem::assemble(
            id,
            at,
            journal_id,
            description,
            delegator_id,
            assignee_id,
        );
        if let Some(p) = priority {
            item = item.with_priority(p);
        }
        if requires_approval {
            item = item.require_approval(approver_id);
        }
        let copy = item.duplicate();
        put(&mut self.work_items, id, item);
        enqueue(&mut self.work_queues, assignee_id, id);
        self.events.push(
            DelegationEvent::WorkDelegated {
                work_item_id: id,
                delegator_id,
                assignee_id,
                description: owned(description),
            },
        );
        proof {
            let items = old(self).work_items@;
            let requests = old(self).approvals@;
            assert(self.events().drop_last() =~= old(self).events());
            lemma_work_enqueue(items, old(self).work_queues@, self.work_queues@, id, copy);
            assert forall|a: u128| #[trigger] requests.contains_key(a) implies items.insert(
                id,
                copy,
            ).contains_key(requests[a].work_item_id) && requests[a].work_item_id != id by {
                assert(items.contains_key(requests[a].work_item_id));
            }
            assert forall|a: u128| #[trigger] pending_request(requests, a) implies {
                let it = items.insert(id, copy)[requests[a].work_item_id];
                &&& (it.status == WorkItemStatus::AwaitingApproval || it.status
                    == WorkItemStatus::Cancelled)
                &&& requests[a].requester_id == it.assignee_id
            } by {
                assert(requests.contains_key(a));
            }
        }
        Ok(copy)
    }

    /// Why an action of the assignee is refused, if it is: the item must
    /// exist, the participant must be its assignee, and the item must be in
    /// a status that allows the action.
    pub open spec fn assignee_guard(&self, action: WorkAction, w: u128, who: u128) -> Option<Refusal> {
        if !self.items().contains_key(w) {
            Some(Refusal::WorkItemNotFound(w))
        } else if self.items()[w].assignee_id != who {
            Some(
                Refusal::NotAuthorized(
                    match action {
                        WorkAction::Accept => "Only the assignee can accept work"@,
                        WorkAction::Decline => "Only the assignee can decline work"@,
                        _ => "Only the assignee can submit work"@,
                    },
                ),
            )
        } else if transition(self.items()[w].status, action, self.items()[w].requires_approval)
            is None {
            Some(
                Refusal::InvalidStateTransition(
                    (match action {
                        WorkAction::Accept => "Cannot accept work item with status: "@,
                        WorkAction::Decline => "Cannot decline work item with status: "@,
                        _ => "Cannot submit work item with status: "@,
                    }) + self.items()[w].status.name(),
                ),
            )
        } else {
            None
        }
    }

    /// Whether this engine is `pre` after item `w` became `item` and left
    /// the work queue of `owner`, with nothing else changed but the log.
    pub open spec fn item_left_queue(
        &self,
        pre: &DelegationManager,
        w: u128,
        item: WorkItem,
        owner: u128,
    ) -> bool {
        &&& self.items() == pre.items().insert(w, item)
        &&& self.work_queue(owner) == without(pre.work_queue(owner), w)
        &&& self.same_work_queues_but(pre, owner)
    }

    /// Accepts delegated work: the item goes from pending to in progress
    /// and leaves the assignee's queue.
    pub fn accept_work(&mut self, work_item_id: u128, acceptor_id: u128) -> (r: DelegationResult<
        WorkItem,
    >)
        requires
            old(self).wf(),
        ensures
            final(self).wf(),
            match r {
                Err(e) => *final(self) == *old(self) && old(self).assignee_guard(
                    WorkAction::Accept,
                    work_item_id,
                    acceptor_id,
                ) == Some(e@),
                Ok(item) => {
                    &&& old(self).assignee_guard(WorkAction::Accept, work_item_id, acceptor_id)
                        is None
                    &&& old(self).items()[work_item_id].stepped(WorkAction::Accept, item)
                    &&& item.result == old(self).items()[work_item_id].result
                    &&& final(self).item_left_queue(old(self), work_item_id, item, acceptor_id)
                    &&& final(self).same_people_and_requests(old(self))
                    &&& final(self).events() == old(self).events().push(
                        DelegationEvent::WorkAccepted { work_item_id, assignee_id: acceptor_id },
                    )
                },
            },
    {
        let mut item = match lookup(&self.work_items, work_item_id) {
            Some(found) => found.duplicate(),
            None => {
                return Err(DelegationError::WorkItemNotFound(work_item_id));
            },
        };
        if item.assignee_id != acceptor_id {
            return Err(DelegationError::NotAuthorized(owned("Only the assignee can accept work")));
        }
        match item.accept() {
            Err(e) => {
                return Err(DelegationError::InvalidStateTransition(e));
            },
            Ok(_) => {},
        }
        let copy = item.duplicate();
        put(&mut self.work_items, work_item_id, item);
        dequeue(&mut self.work_queues, acceptor_id, work_item_id);
        self.events.push(DelegationEvent::WorkAccepted { work_item_id, assignee_id: acceptor_id });
        proof {
            let items = old(self).work_items@;
            let requests = old(self).approvals@;
            lemma_work_unqueue(
                items,
                old(self).work_queues@,
                self.work_queues@,
                work_item_id,
                copy,
            );
            lemma_no_pending_for(items, requests, work_item_id);
            lemma_link_item(items, requests, work_item_id, copy);
        }
        Ok(copy)
    }

    /// Declines delegated work: the item goes from pending to declined and
    /// leaves the assignee's queue.
    pub fn decline_work(&mut self, work_item_id: u128, decliner_id: u128) -> (r: DelegationResult<
        WorkItem,
    >)
        requires
            old(self).wf(),
        ensures
            final(self).wf(),
            match r {
                Err(e) => *final(self) == *old(self) && old(self).assignee_guard(
                    WorkAction::Decline,
                    work_item_id,
                    decliner_id,
                ) == Some(e@),
                Ok(item) => {
                    &&& old(self).assignee_guard(WorkAction::Decline, work_item_id, decliner_id)
                        is None
                    &&& old(self).items()[work_item_id].stepped(WorkAction::Decline, item)
                    &&& item.result == old(self).items()[work_item_id].result
                    &&& final(self).item_left_queue(old(self), work_item_id, item, decliner_id)
                    &&& final(self).same_people_and_requests(old(self))
                    &&& final(self).events() == old(self).events().push(
                        DelegationEvent::WorkDeclined { work_item_id, assignee_id: decliner_id },
                    )
                },
            },
    {
        let mut item = match lookup(&self.work_items, work_item_id) {
            Some(found) => found.duplicate(),
            None => {
                return Err(DelegationError::WorkItemNotFound(work_item_id));
            },
        };
        if item.assignee_id != decliner_id {
            return Err(DelegationError::NotAuthorized(owned("Only the assignee can decline work")));
        }
        match item.decline() {
            Err(e) => {
                return Err(DelegationError::InvalidStateTransition(e));
            },
            Ok(_) => {},
        }
        let copy = item.duplicate();
        put(&mut self.work_items, work_item_id, item);
        dequeue(&mut self.work_queues, decliner_id, work_item_id);
        self.events.push(DelegationEvent::WorkDeclined { work_item_id, assignee_id: decliner_id });
        proof {
            let items = old(self).work_items@;
            let requests = old(self).approvals@;
            lemma_work_unqueue(
                items,
                old(self).work_queues@,
                self.work_queues@,
                work_item_id,
                copy,
            );
            lemma_no_pending_for(items, requests, work_item_id);
            lemma_link_item(items, requests, work_item_id, copy);
        }
        Ok(copy)
    }

    /// Why the delegator's cancellation is refused, if it is.
    pub open spec fn cancel_guard(&self, w: u128, who: u128) -> Option<Refusal> {
        if !self.items().contains_key(w) {
            Some(Refusal::WorkItemNotFound(w))
        } else if self.items()[w].delegator_id != who {
            Some(Refusal::NotAuthorized("Only the delegator can cancel work"@))
        } else if self.items()[w].status.terminal() {
            Some(
                Refusal::InvalidStateTransition(
                    "Cannot cancel work item with terminal status: "@
                        + self.items()[w].status.name(),
                ),
            )
        } else {
            None
        }
    }

    /// Cancels work: only the delegator may, and only before the item is
    /// final. The item leaves its assignee's queue.
    pub fn cancel_work(&mut self, work_item_id: u128, canceller_id: u128) -> (r: DelegationResult<
        WorkItem,
    >)
        requires
            old(self).wf(),
        ensures
            final(self).wf(),
            match r {
                Err(e) => *final(self) == *old(self) && old(self).cancel_guard(
                    work_item_id,
                    canceller_id,
                ) == Some(e@),
                Ok(item) => {
                    &&& old(self).cancel_guard(work_item_id, canceller_id) is None
                    &&& old(self).items()[work_item_id].stepped(WorkAction::Cancel, item)
                    &&& item.result == old(self).items()[work_item_id].result
                    &&& final(self).item_left_queue(
                        old(self),
                        work_item_id,
                        item,
                        item.assignee_id,
                    )
                    &&& final(self).same_people_and_requests(old(self))
                    &&& final(self).events() == old(self).events().push(
                        DelegationEvent::WorkCancelled { work_item_id, cancelled_by: canceller_id },
                    )
                },
            },
    {
        let mut item = match lookup(&self.work_items, work_item_id) {
            Some(found) => found.duplicate(),
            None => {
                return Err(DelegationError::WorkItemNotFound(work_item_id));
            },
        };
        if item.delegator_id != canceller_id {
            return Err(DelegationError::NotAuthorized(owned("Only the delegator can cancel work")));
        }
        match item.cancel() {
            Err(e) => {
                return Err(DelegationError::InvalidStateTransition(e));
            },
            Ok(_) => {},
        }
        let copy = item.duplicate();
        let assignee_id = item.assignee_id;
        put(&mut self.work_items, work_item_id, item);
        dequeue(&mut self.work_queues, assignee_id, work_item_id);
        self.events.push(DelegationEvent::WorkCancelled { work_item_id, cancelled_by: canceller_id });
        proof {
            let items = old(self).work_items@;
            let requests = old(self).approvals@;
            lemma_work_unqueue(
                items,
                old(self).work_queues@,
                self.work_queues@,
                work_item_id,
                copy,
            );
            lemma_link_item(items, requests, work_item_id, copy);
        }
        Ok(copy)
    }

    /// Why handing in work is refused, if it is: as for every action of the
    /// assignee, and where approval is required the identifier for the
    /// request must be unused.
    pub open spec fn submit_guard(&self, w: u128, who: u128, approval_id: u128) -> Option<Refusal> {
        match self.assignee_guard(WorkAction::Submit, w, who) {
            Some(refusal) => Some(refusal),
            None => if self.items()[w].requires_approval && self.requests().contains_key(
                approval_id,
            ) {
                Some(Refusal::InvalidStateTransition("Approval identifier already in use"@))
            } else {
                None
            },
        }
    }

    /// Whether this engine is `pre` after work was handed in and became
    /// `item`.
    pub open spec fn submitted(
        &self,
        pre: &DelegationManager,
        item: WorkItem,
        result: Seq<char>,
        approval_id: u128,
        at: Timestamp,
    ) -> bool {
        let w = item.id;
        let before = pre.items()[w];
        &&& before.stepped(WorkAction::Submit, item)
        &&& item.result matches Some(text) && text@ == result
        &&& self.item_left_queue(pre, w, item, item.assignee_id)
        &&& self.participants() == pre.participants()
        &&& self.logged_one_more(pre)
        &&& if before.requires_approval {
            &&& self.requests().dom() == pre.requests().dom().insert(approval_id)
            &&& self.requests().remove(approval_id) == pre.requests()
            &&& self.requests()[approval_id].opened(approval_id, item)
            &&& self.requests()[approval_id].created_at == at
            &&& self.approval_queue(item.approver()) == pre.approval_queue(item.approver()).push(
                approval_id,
            )
            &&& self.same_approval_queues_but(pre, item.approver())
            &&& self.events().last() == (DelegationEvent::ApprovalRequested {
                approval_id,
                work_item_id: w,
                requester_id: item.assignee_id,
                approver_id: item.approver(),
            })
        } else {
            &&& self.requests() == pre.requests()
            &&& forall|p: u128| #[trigger] self.approval_queue(p) == pre.approval_queue(p)
            &&& self.events().last() == (DelegationEvent::WorkApproved {
                work_item_id: w,
                approver_id: item.delegator_id,
                feedback: None,
            })
        }
    }

    /// Hands in work. Where the item requires approval it now awaits it,
    /// and a request under a fresh identifier joins the approver's queue;
    /// where it does not, the item is approved at once. Either way the item
    /// leaves the assignee's queue.
    pub fn submit_work(&mut self, work_item_id: u128, submitter_id: u128, result: &str) -> (r:
        DelegationResult<WorkItem>)
        requires
            old(self).wf(),
        ensures
            final(self).wf(),
            match r {
                Err(e) => *final(self) == *old(self) && exists|approval_id: u128| #[trigger]
                    old(self).submit_guard(work_item_id, submitter_id, approval_id) == Some(e@),
                Ok(item) => item.id == work_item_id && old(self).assignee_guard(
                    WorkAction::Submit,
                    work_item_id,
                    submitter_id,
                ) is None && exists|approval_id: u128, at: Timestamp| #[trigger]
                    final(self).submitted(old(self), item, result@, approval_id, at),
            },
    {
        let approval_id = fresh_id();
        let at = now();
        let r = self.submit_work_with(work_item_id, submitter_id, result, approval_id, at);
        proof {
            if r is Ok {
                assert(final(self).submitted(old(self), r->Ok_0, result@, approval_id, at));
            }
            if r is Err {
                assert(old(self).submit_guard(work_item_id, submitter_id, approval_id) == Some(
                    r->Err_0@,
                ));
            }
        }
        r
    }

    /// Hands in work; a request for approval, where one is needed, gets the
    /// identifier `approval_id` and the creation time `at`.
    pub fn submit_work_with(
        &mut self,
        work_item_id: u128,
        submitter_id: u128,
        result: &str,
        approval_id: u128,
        at: Timestamp,
    ) -> (r: DelegationResult<WorkItem>)
        requires
            old(self).wf(),
        ensures
            final(self).wf(),
            match r {
                Err(e) => *final(self) == *old(self) && old(self).submit_guard(
                    work_item_id,
                    submitter_id,
                    approval_id,
                ) == Some(e@),
                Ok(item) => item.id == work_item_id && old(self).submit_guard(
                    work_item_id,
                    submitter_id,
                    approval_id,
                ) is None && final(self).submitted(old(self), item, result@, approval_id, at),
            },
    {
        let mut item = match lookup(&self.work_items, work_item_id) {
            Some(found) => found.duplicate(),
            None => {
                return Err(DelegationError::WorkItemNotFound(work_item_id));
            },
        };
        if item.assignee_id != submitter_id {
            return Err(DelegationError::NotAuthorized(owned("Only the assignee can submit work")));
        }
        let needs_approval = item.requires_approval;
        match item.submit_for_approval(result) {
            Err(e) => {
                return Err(DelegationError::InvalidStateTransition(e));
            },
            Ok(_) => {},
        }
        if needs_approval && has(&self.approvals, approval_id) {
            return Err(
                DelegationError::InvalidStateTransition(owned("Approval identifier already in use")),
            );
        }
        let copy = item.duplicate();
        let ghost items = old(self).work_items@;
        let ghost requests = old(self).approvals@;
        proof {
            assert(items[work_item_id].id == work_item_id);
        }
        put(&mut self.work_items, work_item_id, item);
        dequeue(&mut self.work_queues, submitter_id, work_item_id);
        proof {
            lemma_work_unqueue(
                items,
                old(self).work_queues@,
                self.work_queues@,
                work_item_id,
                copy,
            );
            lemma_no_pending_for(items, requests, work_item_id);
            lemma_link_item(items, requests, work_item_id, copy);
        }
        if needs_approval {
            let approval = ApprovalRequest::assemble(approval_id, at, &copy);
            let approver_id = approval.approver_id;
            let ghost request = approval;
            put(&mut self.approvals, approval_id, approval);
            enqueue(&mut self.approval_queues, approver_id, approval_id);
            self.events.push(
                DelegationEvent::ApprovalRequested {
                    approval_id,
                    work_item_id,
                    requester_id: submitter_id,
                    approver_id,
                },
            );
            proof {
                let items2 = items.insert(work_item_id, copy);
                let requests2 = requests.insert(approval_id, request);
                assert(self.events().drop_last() =~= old(self).events());
                assert(self.requests().dom() =~= old(self).requests().dom().insert(approval_id));
                assert(self.requests().remove(approval_id) =~= old(self).requests());
                lemma_approval_enqueue(
                    requests,
                    old(self).approval_queues@,
                    self.approval_queues@,
                    approval_id,
                    request,
                );
                assert forall|a: u128| #[trigger] pending_request(requests2, a) implies {
                    let it = items2[requests2[a].work_item_id];
                    &&& (it.status == WorkItemStatus::AwaitingApproval || it.status
                        == WorkItemStatus::Cancelled)
                    &&& requests2[a].requester_id == it.assignee_id
                } by {
                    if a != approval_id {
                        assert(pending_request(requests, a));
                    }
                }
                assert forall|a: u128, b: u128|
                    #![trigger pending_request(requests2, a), pending_request(requests2, b)]
                    pending_request(requests2, a) && pending_request(requests2, b)
                        && requests2[a].work_item_id
                        == requests2[b].work_item_id implies a == b by {
                    if a != approval_id {
                        assert(pending_request(requests, a));
                    }
                    if b != approval_id {
                        assert(pending_request(requests, b));
                    }
                }
                assert forall|a: u128| #[trigger] requests2.contains_key(a) implies items2.contains_key(
                    requests2[a].work_item_id,
                ) by {
                    if a != approval_id {
                        assert(requests.contains_key(a));
                    }
                }
            }
        } else {
            let delegator_id = copy.delegator_id;
            self.events.push(
                DelegationEvent::WorkApproved {
                    work_item_id,
                    approver_id: delegator_id,
                    feedback: None,
                },
            );
            proof {
                assert(self.events().drop_last() =~= old(self).events());
            }
        }
        Ok(copy)
    }

    /// Why a decision on an approval request is refused, if it is: the
    /// participant must be registered, hold `Approve` and be the approver
    /// that the request names, the request must still be pending, and its
    /// work item must still await approval. So a request whose item was
    /// cancelled meanwhile cannot be decided: the item stays cancelled.
    pub open spec fn decide_guard(&self, approve: bool, a: u128, who: u128) -> Option<Refusal> {
        if !self.participants().contains_key(who) {
            Some(Refusal::ParticipantNotFound(who))
        } else if !self.participants()[who].capabilities.grants(Capability::Approve) {
            Some(
                Refusal::InsufficientCapability {
                    participant_id: who,
                    required: Capability::Approve,
                },
            )
        } else if !self.requests().contains_key(a) {
            Some(Refusal::ApprovalNotFound(a))
        } else if self.requests()[a].approver_id != who {
            Some(Refusal::NotAuthorized("Not the designated approver"@))
        } else if self.requests()[a].status != ApprovalStatus::Pending {
            Some(
                Refusal::InvalidStateTransition(
                    (if approve {
                        "Cannot approve request with status: "@
                    } else {
                        "Cannot reject request with status: "@
                    }) + self.requests()[a].status.name(),
                ),
            )
        } else if self.items()[self.requests()[a].work_item_id].status
            != WorkItemStatus::AwaitingApproval {
            Some(
                Refusal::InvalidStateTransition(
                    (if approve {
                        "Cannot approve work with status: "@
                    } else {
                        "Cannot reject work with status: "@
                    }) + self.items()[self.requests()[a].work_item_id].status.name(),
                ),
            )
        } else {
            None
        }
    }

    /// Whether this engine is `pre` after the request `a` was decided with
    /// `outcome` and became `request`, which moved its item to `item`.
    pub open spec fn decided(
        &self,
        pre: &DelegationManager,
        outcome: ApprovalStatus,
        request: ApprovalRequest,
        item: WorkItem,
    ) -> bool {
        let a = request.id;
        let w = request.work_item_id;
        &&& pre.requests()[a].resolved(outcome, request)
        &&& item == (WorkItem {
            status: item.status,
            updated_at: item.updated_at,
            ..pre.items()[w]
        })
        &&& self.requests() == pre.requests().insert(a, request)
        &&& self.items() == pre.items().insert(w, item)
        &&& self.approval_queue(request.approver_id) == without(
            pre.approval_queue(request.approver_id),
            a,
        )
        &&& self.same_approval_queues_but(pre, request.approver_id)
        &&& self.participants() == pre.participants()
        &&& self.logged_one_more(pre)
    }

    /// Approves submitted work: the request is resolved and leaves the
    /// approver's queue, and its work item becomes approved.
    pub fn approve(&mut self, approval_id: u128, approver_id: u128, feedback: Option<String>) -> (r:
        DelegationResult<(ApprovalRequest, WorkItem)>)
        requires
            old(self).wf(),
        ensures
            final(self).wf(),
            match r {
                Err(e) => *final(self) == *old(self) && old(self).decide_guard(
                    true,
                    approval_id,
                    approver_id,
                ) == Some(e@),
                Ok((request, item)) => {
                    &&& old(self).decide_guard(true, approval_id, approver_id) is None
                    &&& request.id == approval_id
                    &&& final(self).decided(old(self), ApprovalStatus::Approved, request, item)
                    &&& request.feedback == feedback
                    &&& item.status == WorkItemStatus::Approved
                    &&& forall|p: u128| #[trigger]
                        final(self).work_queue(p) == old(self).work_queue(p)
                    &&& final(self).events().last() == (DelegationEvent::WorkApproved {
                        work_item_id: item.id,
                        approver_id,
                        feedback,
                    })
                },
            },
    {
        match lookup(&self.participants, approver_id) {
            None => {
                return Err(DelegationError::ParticipantNotFound(approver_id));
            },
            Some(approver) => {
                if !approver.can_approve() {
                    return Err(
                        DelegationError::InsufficientCapability {
                            participant_id: approver_id,
                            required: Capability::Approve,
                        },
                    );
                }
            },
        }
        let mut request = match lookup(&self.approvals, approval_id) {
            Some(found) => found.duplicate(),
            None => {
                return Err(DelegationError::ApprovalNotFound(approval_id));
            },
        };
        if request.approver_id != approver_id {
            return Err(DelegationError::NotAuthorized(owned("Not the designated approver")));
        }
        let noted = feedback.clone();
        match request.approve(feedback) {
            Err(e) => {
                return Err(DelegationError::InvalidStateTransition(e));
            },
            Ok(_) => {},
        }
        let work_item_id = request.work_item_id;
        let ghost items = old(self).work_items@;
        let ghost requests = old(self).approvals@;
        proof {
            assert(requests.contains_key(approval_id));
            assert(pending_request(requests, approval_id));
            assert(items.contains_key(work_item_id));
        }
        let mut item = match lookup(&self.work_items, work_item_id) {
            Some(found) => found.duplicate(),
            None => {
                return Err(DelegationError::WorkItemNotFound(work_item_id));
            },
        };
        if item.status != WorkItemStatus::AwaitingApproval {
            return Err(
                DelegationError::InvalidStateTransition(
                    concat("Cannot approve work with status: ", item.status.as_str()),
                ),
            );
        }
        item.status = WorkItemStatus::Approved;
        item.updated_at = now();
        let item_copy = item.duplicate();
        let request_copy = request.duplicate();
        put(&mut self.approvals, approval_id, request);
        put(&mut self.work_items, work_item_id, item);
        dequeue(&mut self.approval_queues, approver_id, approval_id);
        self.events.push(
            DelegationEvent::WorkApproved { work_item_id, approver_id, feedback: noted },
        );
        proof {
            let items2 = items.insert(work_item_id, item_copy);
            let requests2 = requests.insert(approval_id, request_copy);
            assert(self.events().drop_last() =~= old(self).events());
            lemma_work_replace(items, old(self).work_queues@, work_item_id, item_copy);
            lemma_approval_resolve(
                requests,
                old(self).approval_queues@,
                self.approval_queues@,
                approval_id,
                request_copy,
            );
            Self::lemma_link_decided(items, requests, approval_id, request_copy, item_copy);
        }
        Ok((request_copy, item_copy))
    }

    /// Rejects submitted work: the request is resolved and leaves the
    /// approver's queue, and its work item becomes rejected and rejoins the
    /// back of its assignee's queue for rework.
    pub fn reject(&mut self, approval_id: u128, rejecter_id: u128, feedback: &str) -> (r:
        DelegationResult<(ApprovalRequest, WorkItem)>)
        requires
            old(self).wf(),
        ensures
            final(self).wf(),
            match r {
                Err(e) => *final(self) == *old(self) && old(self).decide_guard(
                    false,
                    approval_id,
                    rejecter_id,
                ) == Some(e@),
                Ok((request, item)) => {
                    &&& old(self).decide_guard(false, approval_id, rejecter_id) is None
                    &&& request.id == approval_id
                    &&& final(self).decided(old(self), ApprovalStatus::Rejected, request, item)
                    &&& request.feedback matches Some(text) && text@ == feedback@
                    &&& item.status == WorkItemStatus::Rejected
                    &&& final(self).work_queue(item.assignee_id) == old(self).work_queue(
                        item.assignee_id,
                    ).push(item.id)
                    &&& final(self).same_work_queues_but(old(self), item.assignee_id)
                    &&& final(self).events().last() matches DelegationEvent::WorkRejected {
                        work_item_id,
                        approver_id,
                        feedback: text,
                    } && work_item_id == item.id && approver_id == rejecter_id && text@
                        == feedback@
                },
            },
    {
        match lookup(&self.participants, rejecter_id) {
            None => {
                return Err(DelegationError::ParticipantNotFound(rejecter_id));
            },
            Some(rejecter) => {
                if !rejecter.can_approve() {
                    return Err(
                        DelegationError::InsufficientCapability {
                            participant_id: rejecter_id,
                            required: Capability::Approve,
                        },
                    );
                }
            },
        }
        let mut request = match lookup(&self.approvals, approval_id) {
            Some(found) => found.duplicate(),
            None => {
                return Err(DelegationError::ApprovalNotFound(approval_id));
            },
        };
        if request.approver_id != rejecter_id {
            return Err(DelegationError::NotAuthorized(owned("Not the designated approver")));
        }
        match request.reject(feedback) {
            Err(e) => {
                return Err(DelegationError::InvalidStateTransition(e));
            },
            Ok(_) => {},
        }
        let work_item_id = request.work_item_id;
        let assignee_id = request.requester_id;
        let ghost items = old(self).work_items@;
        let ghost requests = old(self).approvals@;
        proof {
            assert(requests.contains_key(approval_id));
            assert(pending_request(requests, approval_id));
            assert(items.contains_key(work_item_id));
        }
        let mut item = match lookup(&self.work_items, work_item_id) {
            Some(found) => found.duplicate(),
            None => {
                return Err(DelegationError::WorkItemNotFound(work_item_id));
            },
        };
        if item.status != WorkItemStatus::AwaitingApproval {
            return Err(
                DelegationError::InvalidStateTransition(
                    concat("Cannot reject work with status: ", item.status.as_str()),
                ),
            );
        }
        item.status = WorkItemStatus::Rejected;
        item.updated_at = now();
        let item_copy = item.duplicate();
        let request_copy = request.duplicate();
        put(&mut self.approvals, approval_id, request);
        put(&mut self.work_items, work_item_id, item);
        enqueue(&mut self.work_queues, assignee_id, work_item_id);
        dequeue(&mut self.approval_queues, rejecter_id, approval_id);
        self.events.push(
            DelegationEvent::WorkRejected {
                work_item_id,
                approver_id: rejecter_id,
                feedback: owned(feedback),
            },
        );
        proof {
            assert(self.events().drop_last() =~= old(self).events());
            lemma_work_enqueue(
                items,
                old(self).work_queues@,
                self.work_queues@,
                work_item_id,
                item_copy,
            );
            lemma_approval_resolve(
                requests,
                old(self).approval_queues@,
                self.approval_queues@,
                approval_id,
                request_copy,
            );
            Self::lemma_link_decided(items, requests, approval_id, request_copy, item_copy);
        }
        Ok((request_copy, item_copy))
    }

    proof fn lemma_link_decided(
        items: Map<u128, WorkItem>,
        requests: Map<u128, ApprovalRequest>,
        a: u128,
        request: ApprovalRequest,
        item: WorkItem,
    )
        requires
            link_wf(items, requests),
            pending_request(requests, a),
            request.status != ApprovalStatus::Pending,
            request.work_item_id == requests[a].work_item_id,
        ensures
            link_wf(items.insert(requests[a].work_item_id, item), requests.insert(a, request)),
    {
        let w = requests[a].work_item_id;
        let items2 = items.insert(w, item);
        let requests2 = requests.insert(a, request);
        assert forall|x: u128| #[trigger] requests2.contains_key(x) implies items2.contains_key(
            requests2[x].work_item_id,
        ) by {
            if x != a {
                assert(requests.contains_key(x));
            } else {
                assert(requests.contains_key(a));
            }
        }
        assert forall|x: u128| #[trigger] pending_request(requests2, x) implies {
            let it = items2[requests2[x].work_item_id];
            &&& (it.status == WorkItemStatus::AwaitingApproval || it.status
                == WorkItemStatus::Cancelled)
            &&& requests2[x].requester_id == it.assignee_id
        } by {
            assert(x != a);
            assert(pending_request(requests, x));
            assert(pending_request(requests, a));
            assert(requests[x].work_item_id != w);
        }
        assert forall|x: u128, y: u128|
            #![trigger pending_request(requests2, x), pending_request(requests2, y)]
            pending_request(requests2, x) && pending_request(requests2, y)
                && requests2[x].work_item_id == requests2[y].work_item_id implies x == y by {
            assert(pending_request(requests, x));
            assert(pending_request(requests, y));
        }
    }

    /// Why a claim is refused, if it is: the claimer must be registered and
    /// able to receive work, and the item must exist and be pending.
    pub open spec fn claim_guard(&self, w: u128, who: u128) -> Option<Refusal> {
        if !self.participants().contains_key(who) {
            Some(Refusal::ParticipantNotFound(who))
        } else if !self.participants()[who].receives_work() {
            Some(Refusal::NotAcceptingWork(who))
        } else if !self.items().contains_key(w) {
            Some(Refusal::WorkItemNotFound(w))
        } else if self.items()[w].status != WorkItemStatus::Pending {
            Some(Refusal::InvalidStateTransition("Can only claim pending work"@))
        } else {
            None
        }
    }

    /// Claims pending work: the item moves from its assignee's queue to the
    /// back of the claimer's, and the claimer becomes its assignee.
    pub fn claim_work(&mut self, work_item_id: u128, claimer_id: u128) -> (r: DelegationResult<
        WorkItem,
    >)
        requires
            old(self).wf(),
        ensures
            final(self).wf(),
            match r {
                Err(e) => *final(self) == *old(self) && old(self).claim_guard(
                    work_item_id,
                    claimer_id,
                ) == Some(e@),
                Ok(item) => {
                    let before = old(self).items()[work_item_id];
                    &&& old(self).claim_guard(work_item_id, claimer_id) is None
                    &&& item == (WorkItem {
                        assignee_id: claimer_id,
                        updated_at: item.updated_at,
                        ..before
                    })
                    &&& final(self).items() == old(self).items().insert(work_item_id, item)
                    &&& final(self).work_queue(claimer_id) == (if before.assignee_id
                        == claimer_id {
                        without(old(self).work_queue(claimer_id), work_item_id)
                    } else {
                        old(self).work_queue(claimer_id)
                    }).push(work_item_id)
                    &&& before.assignee_id != claimer_id ==> final(self).work_queue(
                        before.assignee_id,
                    ) == without(old(self).work_queue(before.assignee_id), work_item_id)
                    &&& forall|q: u128|
                        q != claimer_id && q != before.assignee_id ==> #[trigger] final(self).work_queue(q) == old(self).work_queue(q)
                    &&& final(self).same_people_and_requests(old(self))
                    &&& final(self).events() == old(self).events().push(
                        DelegationEvent::WorkClaimed { work_item_id, claimed_by: claimer_id },
                    )
                },
            },
    {
        match lookup(&self.participants, claimer_id) {
            None => {
                return Err(DelegationError::ParticipantNotFound(claimer_id));
            },
            Some(claimer) => {
                if !claimer.can_receive_work() {
                    return Err(DelegationError::NotAcceptingWork(claimer_id));
                }
            },
        }
        let mut item = match lookup(&self.work_items, work_item_id) {
            Some(found) => found.duplicate(),
            None => {
                return Err(DelegationError::WorkItemNotFound(work_item_id));
            },
        };
        match item.status {
            WorkItemStatus::Pending => {},
            _ => {
                return Err(
                    DelegationError::InvalidStateTransition(owned("Can only claim pending work")),
                );
            },
        }
        let old_assignee = item.assignee_id;
        let ghost before = item;
        dequeue(&mut self.work_queues, old_assignee, work_item_id);
        let ghost middle_queues = self.work_queues@;
        item.assignee_id = claimer_id;
        item.updated_at = now();
        let copy = item.duplicate();
        put(&mut self.work_items, work_item_id, item);
        enqueue(&mut self.work_queues, claimer_id, work_item_id);
        self.events.push(DelegationEvent::WorkClaimed { work_item_id, claimed_by: claimer_id });
        proof {
            let items = old(self).work_items@;
            let requests = old(self).approvals@;
            let parked = WorkItem { status: WorkItemStatus::InProgress, ..before };
            lemma_work_unqueue(items, old(self).work_queues@, middle_queues, work_item_id, parked);
            lemma_work_enqueue(
                items.insert(work_item_id, parked),
                middle_queues,
                self.work_queues@,
                work_item_id,
                copy,
            );
            assert(items.insert(work_item_id, parked).insert(work_item_id, copy) =~= items.insert(
                work_item_id,
                copy,
            ));
            lemma_no_pending_for(items, requests, work_item_id);
            lemma_link_item(items, requests, work_item_id, copy);
        }
        Ok(copy)
    }

    /// The work that waits for a participant, oldest first.
    pub fn get_work_queue(&self, participant_id: u128) -> (r: Vec<WorkItem>)
        requires
            self.wf(),
        ensures
            r@.len() == self.work_queue(participant_id).len(),
            forall|i: int|
                0 <= i < r@.len() ==> #[trigger] r@[i] == self.items()[self.work_queue(
                    participant_id,
                )[i]],
    {
        let mut out: Vec<WorkItem> = Vec::new();
        match lookup(&self.work_queues, participant_id) {
            None => {},
            Some(queue) => {
                let mut i: usize = 0;
                while i < queue.len()
                    invariant
                        i <= queue@.len(),
                        queue@ == self.work_queue(participant_id),
                        self.wf(),
                        out@.len() == i,
                        forall|j: int|
                            0 <= j < i ==> #[trigger] out@[j] == self.items()[queue@[j]],
                    decreases queue@.len() - i,
                {
                    proof {
                        assert(queued_item(
                            self.work_items@,
                            queue_in(self.work_queues@, participant_id)[i as int],
                        ));
                    }
                    match lookup(&self.work_items, queue[i]) {
                        Some(item) => {
                            out.push(item.duplicate());
                        },
                        None => {},
                    }
                    i = i + 1;
                }
            },
        }
        out
    }

    /// The approval requests that wait for a participant, oldest first.
    pub fn get_approval_queue(&self, participant_id: u128) -> (r: Vec<ApprovalRequest>)
        requires
            self.wf(),
        ensures
            r@.len() == self.approval_queue(participant_id).len(),
            forall|i: int|
                0 <= i < r@.len() ==> #[trigger] r@[i] == self.requests()[self.approval_queue(
                    participant_id,
                )[i]],
    {
        let mut out: Vec<ApprovalRequest> = Vec::new();
        match lookup(&self.approval_queues, participant_id) {
            None => {},
            Some(queue) => {
                let mut i: usize = 0;
                while i < queue.len()
                    invariant
                        i <= queue@.len(),
                        queue@ == self.approval_queue(participant_id),
                        self.wf(),
                        out@.len() == i,
                        forall|j: int|
                            0 <= j < i ==> #[trigger] out@[j] == self.requests()[queue@[j]],
                    decreases queue@.len() - i,
                {
                    proof {
                        assert(pending_request(
                            self.approvals@,
                            queue_in(self.approval_queues@, participant_id)[i as int],
                        ));
                    }
                    match lookup(&self.approvals, queue[i]) {
                        Some(request) => {
                            out.push(request.duplicate());
                        },
                        None => {},
                    }
                    i = i + 1;
                }
            },
        }
        out
    }

    /// A work item by its identifier.
    pub fn get_work_item(&self, id: u128) -> (r: Option<WorkItem>)
        ensures
            r == (if self.items().contains_key(id) {
                Some(self.items()[id])
            } else {
                None
            }),
    {
        match lookup(&self.work_items, id) {
            Some(item) => Some(item.duplicate()),
            None => None,
        }
    }

    /// An approval request by its identifier.
    pub fn get_approval(&self, id: u128) -> (r: Option<ApprovalRequest>)
        ensures
            r == (if self.requests().contains_key(id) {
                Some(self.requests()[id])
            } else {
                None
            }),
    {
        match lookup(&self.approvals, id) {
            Some(request) => Some(request.duplicate()),
            None => None,
        }
    }

    /// Every registered participant, each once, in no particular order.
    pub fn list_participants(&self) -> (r: Vec<RegisteredParticipant>)
        requires
            self.wf(),
        ensures
            r@.len() == self.participants().len(),
            forall|i: int|
                0 <= i < r@.len() ==> self.participants().contains_key(
                    (#[trigger] r@[i]).participant.id,
                ) && r@[i].same_as(self.participants()[r@[i].participant.id]),
            forall|i: int, j: int|
                0 <= i < j < r@.len() ==> (#[trigger] r@[i]).participant.id != (
                #[trigger] r@[j]).participant.id,
    {
        let keys = keys_of(&self.participants);
        let mut out: Vec<RegisteredParticipant> = Vec::new();
        let mut i: usize = 0;
        proof {
            keys@.unique_seq_to_set();
        }
        while i < keys.len()
            invariant
                i <= keys@.len(),
                self.wf(),
                keys@.to_set() == self.participants().dom(),
                out@.len() == i,
                forall|j: int|
                    0 <= j < i ==> (#[trigger] out@[j]).same_as(self.participants()[keys@[j]])
                        && out@[j].participant.id == keys@[j],
            decreases keys@.len() - i,
        {
            proof {
                assert(keys@.to_set().contains(keys@[i as int]));
            }
            match lookup(&self.participants, keys[i]) {
                Some(p) => {
                    out.push(p.duplicate());
                },
                None => {},
            }
            i = i + 1;
        }
        proof {
            assert forall|i: int| 0 <= i < out@.len() implies self.participants().contains_key(
                (#[trigger] out@[i]).participant.id,
            ) && out@[i].same_as(self.participants()[out@[i].participant.id]) by {
                assert(keys@.to_set().contains(keys@[i]));
            }
        }
        out
    }

    /// The registered participants that can receive work, each once, in no
    /// particular order.
    pub fn list_available_participants(&self) -> (r: Vec<RegisteredParticipant>)
        requires
            self.wf(),
        ensures
            forall|i: int|
                0 <= i < r@.len() ==> self.participants().contains_key(
                    (#[trigger] r@[i]).participant.id,
                ) && r@[i].same_as(self.participants()[r@[i].participant.id])
                    && r@[i].receives_work(),
            forall|i: int, j: int|
                0 <= i < j < r@.len() ==> (#[trigger] r@[i]).participant.id != (
                #[trigger] r@[j]).participant.id,
            forall|id: u128|
                self.participants().contains_key(id) && (
                #[trigger] self.participants()[id]).receives_work() ==> exists|i: int|
                    0 <= i < r@.len() && (#[trigger] r@[i]).participant.id == id,
    {
        let all = self.list_participants();
        let mut out: Vec<RegisteredParticipant> = Vec::new();
        let mut i: usize = 0;
        let ghost mut picked: Seq<int> = Seq::empty();
        while i < all.len()
            invariant
                i <= all@.len(),
                picked.len() == out@.len(),
                forall|k: int|
                    0 <= k < picked.len() ==> 0 <= #[trigger] picked[k] < i && out@[k].same_as(
                        all@[picked[k]],
                    ) && out@[k].receives_work(),
                forall|k: int, l: int| 0 <= k < l < picked.len() ==> picked[k] < picked[l],
                forall|j: int|
                    0 <= j < i && (#[trigger] all@[j]).receives_work() ==> exists|k: int|
                        0 <= k < picked.len() && #[trigger] picked[k] == j,
            decreases all@.len() - i,
        {
            if all[i].can_receive_work() {
                let ghost before = picked;
                out.push(all[i].duplicate());
                proof {
                    picked = picked.push(i as int);
                    assert forall|j: int|
                        0 <= j < i + 1 && (#[trigger] all@[j]).receives_work() implies exists|
                        k: int,
                    | 0 <= k < picked.len() && #[trigger] picked[k] == j by {
                        if j < i {
                            let k = choose|k: int| 0 <= k < before.len() && #[trigger] before[k] == j;
                            assert(picked[k] == j);
                        } else {
                            assert(picked[before.len() as int] == j);
                        }
                    }
                }
            }
            i = i + 1;
        }
        proof {
            assert forall|i: int| 0 <= i < out@.len() implies self.participants().contains_key(
                (#[trigger] out@[i]).participant.id,
            ) && out@[i].same_as(self.participants()[out@[i].participant.id])
                && out@[i].receives_work() by {
                let j = picked[i];
                assert(out@[i].same_as(all@[j]));
                assert(self.participants().contains_key(all@[j].participant.id));
            }
            assert forall|i: int, j: int| 0 <= i < j < out@.len() implies (
            #[trigger] out@[i]).participant.id != (#[trigger] out@[j]).participant.id by {
                let a = picked[i];
                let b = picked[j];
                assert(a < b);
                assert(out@[i].same_as(all@[a]));
                assert(out@[j].same_as(all@[b]));
                assert(all@[a].participant.id != all@[b].participant.id);
            }
            assert forall|id: u128|
                self.participants().contains_key(id) && (
                #[trigger] self.participants()[id]).receives_work() implies exists|i: int|
                0 <= i < out@.len() && (#[trigger] out@[i]).participant.id == id by {
                Self::lemma_listed(self.participants(), all@, id);
                let j = choose|j: int| 0 <= j < all@.len() && (#[trigger] all@[j]).participant.id == id;
                assert(all@[j].same_as(self.participants()[id]));
                assert(all@[j].receives_work());
                let k = choose|k: int| 0 <= k < picked.len() && #[trigger] picked[k] == j;
                assert(out@[k].participant.id == id);
            }
        }
        out
    }

    proof fn lemma_listed(
        people: Map<u128, RegisteredParticipant>,
        listed: Seq<RegisteredParticipant>,
        id: u128,
    )
        requires
            people.dom().finite(),
            people.contains_key(id),
            listed.len() == people.len(),
            forall|i: int|
                0 <= i < listed.len() ==> people.contains_key((#[trigger] listed[i]).participant.id),
            forall|i: int, j: int|
                0 <= i < j < listed.len() ==> (#[trigger] listed[i]).participant.id != (
                #[trigger] listed[j]).participant.id,
        ensures
            exists|j: int| 0 <= j < listed.len() && (#[trigger] listed[j]).participant.id == id,
    {
        let ids = listed.map_values(|p: RegisteredParticipant| p.participant.id);
        assert(ids.no_duplicates()) by {
            assert forall|i: int, j: int| 0 <= i < ids.len() && 0 <= j < ids.len() && i != j implies ids[i]
                != ids[j] by {
                if i < j {
                    assert(listed[i].participant.id != listed[j].participant.id);
                } else {
                    assert(listed[j].participant.id != listed[i].participant.id);
                }
            }
        }
        ids.unique_seq_to_set();
        assert(ids.to_set().subset_of(people.dom())) by {
            assert forall|x: u128| ids.to_set().contains(x) implies people.dom().contains(x) by {
                let i = choose|i: int| 0 <= i < ids.len() && ids[i] == x;
                assert(people.contains_key(listed[i].participant.id));
            }
        }
        vstd::set_lib::lemma_subset_equality(ids.to_set(), people.dom());
        assert(ids.to_set().contains(id));
        let j = choose|j: int| 0 <= j < ids.len() && ids[j] == id;
        assert(listed[j].participant.id == id);
    }

    /// Law: a work item stands in a participant's queue exactly when it is
    /// pending or rejected and that participant is its assignee; so it
    /// stands in one queue while it is pending or rejected, and in none
    /// otherwise. No queue holds an item twice.
    pub proof fn lemma_work_queue_membership(&self, w: u128, p: u128)
        requires
            self.wf(),
            self.items().contains_key(w),
        ensures
            self.work_queue(p).contains(w) <==> (self.items()[w].status.queued()
                && self.items()[w].assignee_id == p),
            self.work_queue(p).no_duplicates(),
    {
        let items = self.work_items@;
        let wq = self.work_queues@;
        assert(queue_in(wq, p).no_duplicates());
        if queued_item(items, w) && items[w].assignee_id == p {
            assert(queue_in(wq, items[w].assignee_id).contains(w));
        } else {
            lemma_not_in_queue(items, wq, w, p);
        }
    }

    /// Law: work items and approval requests are filed under their own ids,
    /// and every request names a work item that the engine knows.
    pub proof fn lemma_filed(&self, w: u128, a: u128)
        requires
            self.wf(),
        ensures
            self.items().contains_key(w) ==> self.items()[w].id == w,
            self.requests().contains_key(a) ==> self.requests()[a].id == a
                && self.items().contains_key(self.requests()[a].work_item_id),
    {
    }

    /// Law: whatever stands in a work queue is a work item that the engine
    /// knows, assigned to the owner of the queue.
    pub proof fn lemma_work_queue_entries(&self, p: u128, i: int)
        requires
            self.wf(),
            0 <= i < self.work_queue(p).len(),
        ensures
            self.items().contains_key(self.work_queue(p)[i]),
            self.items()[self.work_queue(p)[i]].assignee_id == p,
            self.items()[self.work_queue(p)[i]].status.queued(),
            self.items()[self.work_queue(p)[i]].id == self.work_queue(p)[i],
    {
        assert(queued_item(self.work_items@, queue_in(self.work_queues@, p)[i]));
    }

    /// Law: whatever stands in an approval queue is a pending request that
    /// the engine knows, addressed to the owner of the queue.
    pub proof fn lemma_approval_queue_entries(&self, p: u128, i: int)
        requires
            self.wf(),
            0 <= i < self.approval_queue(p).len(),
        ensures
            self.requests().contains_key(self.approval_queue(p)[i]),
            self.requests()[self.approval_queue(p)[i]].approver_id == p,
            self.requests()[self.approval_queue(p)[i]].status == ApprovalStatus::Pending,
            self.requests()[self.approval_queue(p)[i]].id == self.approval_queue(p)[i],
    {
        assert(pending_request(self.approvals@, queue_in(self.approval_queues@, p)[i]));
    }

    /// Law: an approval request stands in a participant's queue exactly
    /// when it is pending and that participant is its approver; once it is
    /// resolved it stands in none. No queue holds a request twice.
    pub proof fn lemma_approval_queue_membership(&self, a: u128, p: u128)
        requires
            self.wf(),
            self.requests().contains_key(a),
        ensures
            self.approval_queue(p).contains(a) <==> (self.requests()[a].status
                == ApprovalStatus::Pending && self.requests()[a].approver_id == p),
            self.approval_queue(p).no_duplicates(),
    {
        let requests = self.approvals@;
        let aq = self.approval_queues@;
        assert(queue_in(aq, p).no_duplicates());
        if pending_request(requests, a) && requests[a].approver_id == p {
            assert(queue_in(aq, requests[a].approver_id).contains(a));
        } else {
            lemma_not_in_approval_queue(requests, aq, a, p);
        }
    }

    /// Law: at any time a work item has at most one pending approval
    /// request, and while it has one it awaits approval or was cancelled
    /// meanwhile.
    pub proof fn lemma_one_pending_request(&self, a: u128, b: u128)
        requires
            self.wf(),
            self.requests().contains_key(a),
            self.requests().contains_key(b),
            self.requests()[a].status == ApprovalStatus::Pending,
            self.requests()[b].status == ApprovalStatus::Pending,
            self.requests()[a].work_item_id == self.requests()[b].work_item_id,
        ensures
            a == b,
            self.items().contains_key(self.requests()[a].work_item_id),
            self.items()[self.requests()[a].work_item_id].status
                == WorkItemStatus::AwaitingApproval
                || self.items()[self.requests()[a].work_item_id].status
                == WorkItemStatus::Cancelled,
    {
        assert(pending_request(self.approvals@, a));
        assert(pending_request(self.approvals@, b));
    }

    /// Law: a request is decided only while its work awaits approval, so
    /// neither approval nor rejection moves an item out of a final status.
    pub proof fn lemma_decided_work_was_waiting(&self, approve: bool, a: u128, who: u128)
        requires
            self.wf(),
            self.decide_guard(approve, a, who) is None,
        ensures
            self.items().contains_key(self.requests()[a].work_item_id),
            self.items()[self.requests()[a].work_item_id].status
                == WorkItemStatus::AwaitingApproval,
            !self.items()[self.requests()[a].work_item_id].status.terminal(),
    {
        assert(pending_request(self.requests(), a));
    }

    /// Law: a registered participant without the capability that an
    /// operation asks for is refused for that reason, whatever else holds;
    /// and every refusal leaves the engine as it was.
    pub proof fn lemma_capability_gate(&self, who: u128, other: u128, subject: u128, approve: bool)
        requires
            self.participants().contains_key(who),
        ensures
            !self.participants()[who].capabilities.grants(Capability::Delegate)
                ==> self.delegate_guard(who, other, subject) == Some(
                Refusal::InsufficientCapability {
                    participant_id: who,
                    required: Capability::Delegate,
                },
            ),
            !self.participants()[who].capabilities.grants(Capability::Approve)
                ==> self.decide_guard(approve, subject, who) == Some(
                Refusal::InsufficientCapability {
                    participant_id: who,
                    required: Capability::Approve,
                },
            ),
    {
    }
}

impl Default for DelegationManager {
    fn default() -> (r: Self)
        ensures
            r.wf(),
    {
        DelegationManager::new()
    }
}

} // verus!
