//! The connection protocol: the messages that clients and server exchange,
//! and what the server does on each of them.
//!
//! A connection is a `ConnectionState` and a stream of `ClientMessage`s.
//! `handle_message` takes one message, lets the store, the rooms and the
//! delegation engine do their part, and returns the frames to send back.
//! Where a response is to be streamed from the upstream service it also
//! returns the job; the embedding server talks to the service and hands
//! every event to the `StreamRun`. Where a client sent an update of a
//! shared document it returns the update to merge; the embedding server
//! merges it into a replica of the document and hands that to
//! `complete_merge`. Room events reach a subscriber through
//! `relay_room_event`, and `rows_to_write` says what goes to the database.

use vstd::prelude::*;
use std::collections::HashMap;
use crate::crdt::journal_doc::JournalDoc;
use crate::crdt::participant::{Participant, ParticipantKind, ParticipantStatus};
use crate::crdt::room::{JournalRoom, RoomEvent, RoomManager};
use crate::delegation::capability::{Capability, CapabilitySet};
use crate::delegation::manager::{DelegationError, DelegationManager, Refusal, refusal_text};
use crate::delegation::participant::RegisteredParticipant;
use crate::delegation::work_item::{
    ApprovalRequest,
    WorkAction,
    WorkItem,
    WorkItemStatus,
    WorkPriority,
};
use crate::error::{message_of, AppError};
use crate::models::{Block, BlockStatus, BlockType, Journal};
use crate::opencode::StreamEvent;
use crate::clock::{now, Timestamp};
use crate::ident::fresh_id;
use crate::store::{
    block_to_row,
    has_block,
    has_journal,
    holds_block,
    holds_journal,
    journal_to_row,
    BlockRow,
    JournalRow,
    Store,
};
use crate::table::{has, keys_of, lookup, put, take};
use crate::text::{concat, owned, push_text};
use crate::AppState;

pub use crate::base64::{base64_decode, base64_encode};

verus! {

/// What a client sends.
#[derive(Debug)]
pub enum ClientMessage {
    /// Submit a prompt.
    Submit { journal_id: u128, content: String, session_id: Option<String> },
    CreateJournal { title: Option<String> },
    /// Ask for a journal with its blocks.
    GetJournal { journal_id: u128 },
    ListJournals,
    /// Branch off at a block.
    Fork { block_id: u128, session_id: Option<String> },
    /// Run the prompt behind a block again.
    Rerun { block_id: u128, session_id: Option<String> },
    /// Cancel a streaming block.
    Cancel { block_id: u128 },
    /// Join the room of a journal.
    Subscribe { journal_id: u128, name: String, kind: Option<String> },
    Unsubscribe { journal_id: u128 },
    /// Move the cursor.
    Cursor { journal_id: u128, block_id: Option<u128>, offset: Option<u32> },
    GetPresence { journal_id: u128 },
    /// Merge an update, given in base64, into the shared document.
    CrdtUpdate { journal_id: u128, update: String },
    /// Ask for the state of the shared document: all of it, or what is
    /// missing beyond a state vector given in base64.
    SyncRequest { journal_id: u128, state_vector: Option<String> },
    /// Register with the delegation engine.
    RegisterParticipant {
        journal_id: u128,
        name: String,
        kind: Option<String>,
        capabilities: Option<Vec<String>>,
    },
    Delegate {
        journal_id: u128,
        description: String,
        assignee_id: u128,
        block_id: Option<u128>,
        priority: Option<String>,
        requires_approval: bool,
        approver_id: Option<u128>,
    },
    AcceptWork { work_item_id: u128 },
    DeclineWork { work_item_id: u128 },
    SubmitWork { work_item_id: u128, result: String },
    ApproveWork { approval_id: u128, feedback: Option<String> },
    RejectWork { approval_id: u128, feedback: String },
    CancelWork { work_item_id: u128 },
    ClaimWork { work_item_id: u128 },
    GetWorkQueue,
    GetApprovalQueue,
    SetAcceptingWork { accepting: bool },
    /// Ask who can take work.
    GetParticipants { journal_id: u128 },
}

/// What the server sends.
#[derive(Debug)]
pub enum ServerMessage {
    JournalCreated { journal_id: u128, title: String },
    Journal { journal: Journal, blocks: Vec<Block> },
    Journals { journals: Vec<Journal> },
    BlockCreated { block: Block },
    /// More text of a streaming block.
    BlockContentDelta { block_id: u128, delta: String },
    BlockStatusChanged { block_id: u128, status: BlockStatus },
    BlockForked { original_block_id: u128, new_block: Block },
    BlockCancelled { block_id: u128 },
    Error { message: String },
    Subscribed { journal_id: u128, participant: Participant, participants: Vec<Participant> },
    Unsubscribed { journal_id: u128 },
    ParticipantJoined { journal_id: u128, participant: Participant },
    ParticipantLeft { journal_id: u128, participant_id: u128 },
    CursorMoved {
        journal_id: u128,
        participant_id: u128,
        block_id: Option<u128>,
        offset: Option<u32>,
    },
    ParticipantStatusChanged { journal_id: u128, participant_id: u128, status: ParticipantStatus },
    Presence { journal_id: u128, participants: Vec<Participant> },
    /// An update of the shared document, in base64.
    CrdtUpdate { journal_id: u128, source: Option<u128>, update: String },
    /// The state of the shared document, in base64.
    SyncState { journal_id: u128, state: String },
    ParticipantRegistered {
        participant_id: u128,
        name: String,
        kind: String,
        capabilities: Vec<String>,
    },
    WorkDelegated { work_item: WorkItem },
    WorkAccepted { work_item_id: u128, assignee_id: u128 },
    WorkDeclined { work_item_id: u128, assignee_id: u128 },
    ApprovalRequested { approval: ApprovalRequest, work_item: WorkItem },
    WorkApproved { work_item_id: u128, approver_id: u128, feedback: Option<String> },
    WorkRejected { work_item_id: u128, approver_id: u128, feedback: String },
    WorkCancelled { work_item_id: u128, cancelled_by: u128 },
    WorkClaimed { work_item_id: u128, claimed_by: u128 },
    WorkQueue { items: Vec<WorkItem> },
    ApprovalQueue { items: Vec<ApprovalRequest> },
    AvailableParticipants { participants: Vec<RegisteredParticipant> },
    AcceptingWorkChanged { participant_id: u128, accepting: bool },
}

/// Whether the frame is an error frame with the given message.
pub open spec fn is_error(m: ServerMessage, text: Seq<char>) -> bool {
    m matches ServerMessage::Error { message } && message@ == text
}

/// Whether the reply is one error frame with the given message.
pub open spec fn only_error(reply: Seq<ServerMessage>, text: Seq<char>) -> bool {
    reply.len() == 1 && is_error(reply[0], text)
}

/// The error frame for a failure.
pub fn error_frame(e: &AppError) -> (r: ServerMessage)
    ensures
        is_error(r, message_of(*e)),
{
    ServerMessage::Error { message: e.to_string() }
}

/// The error frame for a refusal of the delegation engine.
pub fn refusal_frame(e: &DelegationError) -> (r: ServerMessage)
    ensures
        is_error(r, refusal_text(e@)),
{
    ServerMessage::Error { message: e.to_string() }
}

/// The error frame for a frame of the client that could not be read;
/// `detail` says what the parser found wrong.
pub fn unreadable_frame(detail: &str) -> (r: ServerMessage)
    ensures
        is_error(r, "Invalid message: "@ + detail@),
{
    ServerMessage::Error { message: concat("Invalid message: ", detail) }
}

fn plain_error(text: &str) -> (r: ServerMessage)
    ensures
        is_error(r, text@),
{
    ServerMessage::Error { message: owned(text) }
}

/// Whether `r` is what a room event becomes for the subscriber who joined
/// the room of `journal_id` as `participant_id`: the frame that tells of
/// it, with binary payloads in base64, or nothing where the event is the
/// subscriber's own doing. A subscriber's own join, its own cursor moves
/// and the document updates that it caused are not echoed to it.
pub open spec fn relayed(
    journal_id: u128,
    participant_id: u128,
    event: RoomEvent,
    r: Option<ServerMessage>,
) -> bool {
    match event {
        RoomEvent::ParticipantJoined(p) => r == (if p.id == participant_id {
            None
        } else {
            Some(ServerMessage::ParticipantJoined { journal_id, participant: p })
        }),
        RoomEvent::ParticipantLeft { participant_id: who } => r == Some(
            ServerMessage::ParticipantLeft { journal_id, participant_id: who },
        ),
        RoomEvent::CursorMoved { participant_id: who, block_id, offset } => r == (if who
            == participant_id {
            None
        } else {
            Some(ServerMessage::CursorMoved { journal_id, participant_id: who, block_id, offset })
        }),
        RoomEvent::StatusChanged { participant_id: who, status } => r == Some(
            ServerMessage::ParticipantStatusChanged { journal_id, participant_id: who, status },
        ),
        RoomEvent::CrdtUpdate { source, update } => if source == Some(participant_id) {
            r is None
        } else {
            r matches Some(ServerMessage::CrdtUpdate { journal_id: j, source: s, update: text })
                && j == journal_id && s == source && text@ == crate::base64::base64_text(update@)
        },
        RoomEvent::SyncState { state } => r matches Some(
            ServerMessage::SyncState { journal_id: j, state: text },
        ) && j == journal_id && text@ == crate::base64::base64_text(state@),
    }
}

/// Turns a room event into the frame for one subscriber, or into nothing
/// where the event is that subscriber's own doing.
pub fn relay_room_event(journal_id: u128, participant_id: u128, event: RoomEvent) -> (r: Option<
    ServerMessage,
>)
    ensures
        relayed(journal_id, participant_id, event, r),
{
    match event {
        RoomEvent::ParticipantJoined(p) => {
            if p.id == participant_id {
                None
            } else {
                Some(ServerMessage::ParticipantJoined { journal_id, participant: p })
            }
        },
        RoomEvent::ParticipantLeft { participant_id: who } => Some(
            ServerMessage::ParticipantLeft { journal_id, participant_id: who },
        ),
        RoomEvent::CursorMoved { participant_id: who, block_id, offset } => {
            if who == participant_id {
                None
            } else {
                Some(
                    ServerMessage::CursorMoved {
                        journal_id,
                        participant_id: who,
                        block_id,
                        offset,
                    },
                )
            }
        },
        RoomEvent::StatusChanged { participant_id: who, status } => Some(
            ServerMessage::ParticipantStatusChanged { journal_id, participant_id: who, status },
        ),
        RoomEvent::CrdtUpdate { source, update } => {
            let own = match source {
                Some(s) => s == participant_id,
                None => false,
            };
            if own {
                None
            } else {
                let encoded = base64_encode(update.as_slice());
                Some(ServerMessage::CrdtUpdate { journal_id, source, update: encoded })
            }
        },
        RoomEvent::SyncState { state } => {
            let encoded = base64_encode(state.as_slice());
            Some(ServerMessage::SyncState { journal_id, state: encoded })
        },
    }
}

/// What a connection has joined: for each journal the presence
/// participant that it subscribed as, and the participant that it
/// registered with the delegation engine.
pub struct ConnectionState {
    subscriptions: HashMap<u128, u128>,
    delegation_registrations: HashMap<u128, u128>,
}

impl ConnectionState {
    /// The presence participant of the connection in each journal that it
    /// subscribed to.
    pub closed spec fn subscriptions(&self) -> Map<u128, u128> {
        self.subscriptions@
    }

    /// The registered participant of the connection for each journal that
    /// it registered for.
    pub closed spec fn registrations(&self) -> Map<u128, u128> {
        self.delegation_registrations@
    }

    /// Whether `who` is one of the participants that the connection
    /// registered.
    pub open spec fn registered_as(&self, who: u128) -> bool {
        is_value(self.registrations(), who)
    }

    /// A connection that has joined nothing.
    pub fn new() -> (r: ConnectionState)
        ensures
            r.subscriptions() == Map::<u128, u128>::empty(),
            r.registrations() == Map::<u128, u128>::empty(),
    {
        ConnectionState { subscriptions: HashMap::new(), delegation_registrations: HashMap::new() }
    }

    /// The presence participant of the connection in a journal.
    pub fn subscription(&self, journal_id: u128) -> (r: Option<u128>)
        ensures
            r == (if self.subscriptions().contains_key(journal_id) {
                Some(self.subscriptions()[journal_id])
            } else {
                None
            }),
    {
        match lookup(&self.subscriptions, journal_id) {
            Some(p) => Some(*p),
            None => None,
        }
    }

    /// The registered participant of the connection for a journal.
    pub fn registration(&self, journal_id: u128) -> (r: Option<u128>)
        ensures
            r == (if self.registrations().contains_key(journal_id) {
                Some(self.registrations()[journal_id])
            } else {
                None
            }),
    {
        match lookup(&self.delegation_registrations, journal_id) {
            Some(p) => Some(*p),
            None => None,
        }
    }

    /// A participant that the connection registered, whichever journal it
    /// registered for; `None` where it registered none.
    pub fn acting_participant(&self) -> (r: Option<u128>)
        ensures
            match r {
                Some(who) => self.registered_as(who),
                None => self.registrations() == Map::<u128, u128>::empty(),
            },
    {
        let keys = keys_of(&self.delegation_registrations);
        if keys.len() == 0 {
            proof {
                assert(keys@.to_set() =~= Set::<u128>::empty());
                assert(self.registrations() =~= Map::<u128, u128>::empty());
            }
            None
        } else {
            proof {
                assert(keys@.to_set().contains(keys@[0]));
                assert(self.registrations().contains_key(keys@[0]));
            }
            match lookup(&self.delegation_registrations, keys[0]) {
                Some(p) => Some(*p),
                None => None,
            }
        }
    }
}

/// A response that is to be streamed from the upstream service into a
/// block.
#[derive(Debug)]
pub struct StreamJob {
    /// The assistant block that takes the response.
    pub block_id: u128,
    /// The upstream session to use; a new one is to be opened where this is
    /// `None`.
    pub session_id: Option<String>,
    /// The prompt to send.
    pub prompt: String,
}

/// An update of a shared document that a client sent, read from its
/// base64 and ready to be merged.
///
/// The merge is not done here. The document library stops halfway on some
/// bytes that no replica writes, and no test within this library tells
/// which. So the embedding server merges the update into a replica of the
/// room's document, where a failure harms nothing, and hands the merged
/// replica to `complete_merge`.
#[derive(Debug)]
pub struct MergeJob {
    /// The journal whose document the update is for.
    pub journal_id: u128,
    /// The participant as whom the sender is subscribed to the journal.
    pub source: Option<u128>,
    /// The update.
    pub update: Vec<u8>,
}

/// What the server does on a message: the frames to send back, in their
/// order, the response to stream, if there is one, and the update to
/// merge, if there is one.
#[derive(Debug)]
pub struct Reply {
    pub messages: Vec<ServerMessage>,
    pub job: Option<StreamJob>,
    pub merge: Option<MergeJob>,
}

/// Whether no block of `before` has moved backwards or out of a final
/// status in `after`, and none has vanished.
pub open spec fn statuses_follow(before: Seq<Block>, after: Seq<Block>) -> bool {
    &&& before.len() <= after.len()
    &&& forall|k: int|
        0 <= k < before.len() ==> (#[trigger] after[k]).id == before[k].id
            && before[k].status.may_become(after[k].status)
}

/// Whether `after` is `before` with the block `id`, if it is there and not
/// final, settled: in the status `status`, and with the content `content`
/// where one is given.
pub open spec fn settled(
    before: Seq<Block>,
    after: Seq<Block>,
    id: u128,
    content: Option<Seq<char>>,
    status: BlockStatus,
) -> bool {
    &&& after.len() == before.len()
    &&& forall|k: int|
        0 <= k < before.len() ==> if before[k].id == id && !before[k].status.terminal() {
            &&& (#[trigger] after[k]).status == status
            &&& after[k].content@ == (match content {
                Some(text) => text,
                None => before[k].content@,
            })
            &&& (Block {
                content: before[k].content,
                status: before[k].status,
                updated_at: before[k].updated_at,
                ..after[k]
            }) == before[k]
        } else {
            after[k] == before[k]
        }
}

/// Whether the block `id` is there and not in a final status.
pub open spec fn is_open(blocks: Seq<Block>, id: u128) -> bool {
    exists|k: int| 0 <= k < blocks.len() && #[trigger] blocks[k].id == id && !blocks[k].status.terminal()
}

/// Moves a block that is not final to `status`, with new content where
/// some is given. A block that is final, or not there, stays as it is.
/// Says whether the block moved.
pub fn settle_block(store: &mut Store, id: u128, content: Option<&str>, status: BlockStatus) -> (moved:
    bool)
    requires
        old(store).wf(),
        status != BlockStatus::Pending,
    ensures
        final(store).wf(),
        final(store).journals() == old(store).journals(),
        moved == is_open(old(store).blocks(), id),
        settled(
            old(store).blocks(),
            final(store).blocks(),
            id,
            crate::opencode::slice_text(content),
            status,
        ),
        statuses_follow(old(store).blocks(), final(store).blocks()),
{
    let open = match store.get_block(id) {
        Ok(block) => !block.status.is_terminal(),
        Err(_) => false,
    };
    proof {
        if has_block(store.blocks(), id) {
            let k = choose|k: int|
                0 <= k < store.blocks().len() && store.blocks()[k].id == id;
            store.lemma_block_at(k);
            assert forall|j: int| 0 <= j < store.blocks().len() && store.blocks()[j].id
                == id implies j == k by {
                if j < k {
                    assert(store.blocks()[j].id != store.blocks()[k].id);
                } else if k < j {
                    assert(store.blocks()[k].id != store.blocks()[j].id);
                }
            }
        }
    }
    if !open {
        return false;
    }
    let ghost blocks0 = store.blocks();
    match content {
        Some(text) => {
            let _ = store.update_block_content(id, text);
        },
        None => {},
    }
    let ghost blocks1 = store.blocks();
    let _ = store.update_block_status(id, status);
    proof {
        let blocks2 = store.blocks();
        assert forall|k: int| 0 <= k < blocks0.len() implies if blocks0[k].id == id
            && !blocks0[k].status.terminal() {
            &&& (#[trigger] blocks2[k]).status == status
            &&& blocks2[k].content@ == (match crate::opencode::slice_text(content) {
                Some(text) => text,
                None => blocks0[k].content@,
            })
            &&& (Block {
                content: blocks0[k].content,
                status: blocks0[k].status,
                updated_at: blocks0[k].updated_at,
                ..blocks2[k]
            }) == blocks0[k]
        } else {
            blocks2[k] == blocks0[k]
        } by {
            assert(blocks1[k].id == blocks0[k].id);
        }
        assert forall|k: int| 0 <= k < blocks0.len() implies (#[trigger] blocks2[k]).id
            == blocks0[k].id && blocks0[k].status.may_become(blocks2[k].status) by {
            assert(blocks1[k].id == blocks0[k].id);
        }
    }
    true
}

/// Whether the event ends a response: its end, an error of the session,
/// or a failure of the stream.
pub open spec fn is_ending(e: Result<StreamEvent, AppError>) -> bool {
    match e {
        Ok(StreamEvent::Content(_)) => false,
        Ok(StreamEvent::Unknown { .. }) => false,
        _ => true,
    }
}

/// How many of the events come before the first that ends the response:
/// all of them where none does.
pub open spec fn lead(events: Seq<Result<StreamEvent, AppError>>) -> int
    decreases events.len(),
{
    if events.len() == 0 || is_ending(events[0]) {
        0
    } else {
        1 + lead(events.drop_first())
    }
}

/// The text that the events carry, in their order.
pub open spec fn carried(events: Seq<Result<StreamEvent, AppError>>) -> Seq<char>
    decreases events.len(),
{
    if events.len() == 0 {
        Seq::empty()
    } else {
        carried(events.drop_last()) + (match events.last() {
            Ok(StreamEvent::Content(c)) => c.text@,
            _ => Seq::empty(),
        })
    }
}

/// The frames that pass the text of the events on to the client, one for
/// each event that carries text.
pub open spec fn deltas(block_id: u128, events: Seq<Result<StreamEvent, AppError>>) -> Seq<
    ServerMessage,
>
    decreases events.len(),
{
    if events.len() == 0 {
        Seq::empty()
    } else {
        let before = deltas(block_id, events.drop_last());
        match events.last() {
            Ok(StreamEvent::Content(c)) => before.push(
                ServerMessage::BlockContentDelta { block_id, delta: c.text },
            ),
            _ => before,
        }
    }
}

/// The status that an ending event leaves the block in.
pub open spec fn ending_status(e: Result<StreamEvent, AppError>) -> BlockStatus {
    match e {
        Ok(StreamEvent::Done) => BlockStatus::Complete,
        _ => BlockStatus::Error,
    }
}

/// The content that an ending event stores in the block: the text
/// received where the response is complete, the message of an error of the
/// session, and nothing new where the stream failed.
pub open spec fn ending_content(e: Result<StreamEvent, AppError>, received: Seq<char>) -> Option<
    Seq<char>,
> {
    match e {
        Ok(StreamEvent::Done) => Some(received),
        Ok(StreamEvent::Error(x)) => Some(x.message@),
        _ => None,
    }
}

proof fn lemma_lead(events: Seq<Result<StreamEvent, AppError>>, i: int)
    ensures
        0 <= lead(events) <= events.len(),
        0 <= i < lead(events) ==> !is_ending(events[i]),
        lead(events) < events.len() ==> is_ending(events[lead(events)]),
    decreases events.len(),
{
    if events.len() == 0 || is_ending(events[0]) {
    } else {
        lemma_lead(events.drop_first(), i - 1);
        if 0 < i < lead(events) {
            assert(events.drop_first()[i - 1] == events[i]);
        }
        if lead(events) < events.len() {
            assert(events.drop_first()[lead(events.drop_first())] == events[lead(events)]);
        }
    }
}

/// A response that is being streamed into a block.
#[derive(Debug)]
pub struct StreamRun {
    block_id: u128,
    buffer: String,
    finished: bool,
}

impl StreamRun {
    /// The block that takes the response.
    pub closed spec fn block(&self) -> u128 {
        self.block_id
    }

    /// The text received so far.
    pub closed spec fn received(&self) -> Seq<char> {
        self.buffer@
    }

    /// Whether the response has come to its end.
    pub closed spec fn is_finished(&self) -> bool {
        self.finished
    }

    /// Starts to stream into the block of a job: the block goes to
    /// `streaming`, unless it is final already, and the client is told.
    pub fn start(store: &mut Store, job: &StreamJob) -> (r: (StreamRun, Vec<ServerMessage>))
        requires
            old(store).wf(),
        ensures
            final(store).wf(),
            final(store).journals() == old(store).journals(),
            r.0.block() == job.block_id,
            r.0.received() == Seq::<char>::empty(),
            !r.0.is_finished(),
            settled(
                old(store).blocks(),
                final(store).blocks(),
                job.block_id,
                None,
                BlockStatus::Streaming,
            ),
            statuses_follow(old(store).blocks(), final(store).blocks()),
            r.1@ == (if is_open(old(store).blocks(), job.block_id) {
                seq![
                    ServerMessage::BlockStatusChanged {
                        block_id: job.block_id,
                        status: BlockStatus::Streaming,
                    },
                ]
            } else {
                Seq::<ServerMessage>::empty()
            }),
    {
        let mut messages: Vec<ServerMessage> = Vec::new();
        if settle_block(store, job.block_id, None, BlockStatus::Streaming) {
            messages.push(
                ServerMessage::BlockStatusChanged {
                    block_id: job.block_id,
                    status: BlockStatus::Streaming,
                },
            );
        }
        proof {
            assert(messages@ =~= (if is_open(old(store).blocks(), job.block_id) {
                seq![
                    ServerMessage::BlockStatusChanged {
                        block_id: job.block_id,
                        status: BlockStatus::Streaming,
                    },
                ]
            } else {
                Seq::<ServerMessage>::empty()
            }));
        }
        (StreamRun { block_id: job.block_id, buffer: String::new(), finished: false }, messages)
    }

    /// Whether `after` is this run once it has ended.
    pub open spec fn ended(&self, after: &StreamRun) -> bool {
        after.block() == self.block() && after.received() == self.received()
            && after.is_finished()
    }

    /// Whether the frames tell that the block of this run reached `status`,
    /// where it did, and nothing where it did not.
    pub open spec fn told(
        &self,
        blocks: Seq<Block>,
        status: BlockStatus,
        frames: Seq<ServerMessage>,
    ) -> bool {
        frames == (if is_open(blocks, self.block()) {
            seq![ServerMessage::BlockStatusChanged { block_id: self.block(), status }]
        } else {
            Seq::<ServerMessage>::empty()
        })
    }

    /// Takes the next event of the stream, or the failure of the stream.
    ///
    /// Text is gathered and passed on as a delta. The end of the response
    /// stores the gathered text and completes the block; an error of the
    /// session stores its message and fails the block; a failure of the
    /// stream fails the block. Each of the three ends the run, and what
    /// comes after the end is passed over, as are events of unknown kind.
    /// A block that is final already, as after a cancel, stays as it is.
    pub fn on_event(&mut self, store: &mut Store, event: Result<StreamEvent, AppError>) -> (r: Vec<
        ServerMessage,
    >)
        requires
            old(store).wf(),
        ensures
            final(store).wf(),
            final(store).journals() == old(store).journals(),
            statuses_follow(old(store).blocks(), final(store).blocks()),
            final(self).block() == old(self).block(),
            if old(self).is_finished() {
                *final(self) == *old(self) && final(store).blocks() == old(store).blocks() && r@
                    == Seq::<ServerMessage>::empty()
            } else {
                match event {
                    Ok(StreamEvent::Content(c)) => {
                        &&& final(store).blocks() == old(store).blocks()
                        &&& final(self).received() == old(self).received() + c.text@
                        &&& !final(self).is_finished()
                        &&& r@ == seq![
                            ServerMessage::BlockContentDelta {
                                block_id: old(self).block(),
                                delta: c.text,
                            },
                        ]
                    },
                    Ok(StreamEvent::Done) => {
                        &&& old(self).ended(final(self))
                        &&& settled(
                            old(store).blocks(),
                            final(store).blocks(),
                            old(self).block(),
                            Some(old(self).received()),
                            BlockStatus::Complete,
                        )
                        &&& old(self).told(old(store).blocks(), BlockStatus::Complete, r@)
                    },
                    Ok(StreamEvent::Error(e)) => {
                        &&& old(self).ended(final(self))
                        &&& settled(
                            old(store).blocks(),
                            final(store).blocks(),
                            old(self).block(),
                            Some(e.message@),
                            BlockStatus::Error,
                        )
                        &&& old(self).told(old(store).blocks(), BlockStatus::Error, r@)
                    },
                    Ok(StreamEvent::Unknown { .. }) => {
                        &&& *final(self) == *old(self)
                        &&& final(store).blocks() == old(store).blocks()
                        &&& r@ == Seq::<ServerMessage>::empty()
                    },
                    Err(_) => {
                        &&& old(self).ended(final(self))
                        &&& settled(
                            old(store).blocks(),
                            final(store).blocks(),
                            old(self).block(),
                            None,
                            BlockStatus::Error,
                        )
                        &&& old(self).told(old(store).blocks(), BlockStatus::Error, r@)
                    },
                }
            },
    {
        let mut messages: Vec<ServerMessage> = Vec::new();
        if self.finished {
            proof {
                Self::lemma_same_follow(store.blocks());
            }
            return messages;
        }
        match event {
            Ok(StreamEvent::Content(c)) => {
                push_text(&mut self.buffer, c.text.as_str());
                messages.push(
                    ServerMessage::BlockContentDelta { block_id: self.block_id, delta: c.text },
                );
                proof {
                    Self::lemma_same_follow(store.blocks());
                }
            },
            Ok(StreamEvent::Done) => {
                self.finished = true;
                if settle_block(
                    store,
                    self.block_id,
                    Some(self.buffer.as_str()),
                    BlockStatus::Complete,
                ) {
                    messages.push(
                        ServerMessage::BlockStatusChanged {
                            block_id: self.block_id,
                            status: BlockStatus::Complete,
                        },
                    );
                }
            },
            Ok(StreamEvent::Error(e)) => {
                self.finished = true;
                if settle_block(store, self.block_id, Some(e.message.as_str()), BlockStatus::Error) {
                    messages.push(
                        ServerMessage::BlockStatusChanged {
                            block_id: self.block_id,
                            status: BlockStatus::Error,
                        },
                    );
                }
            },
            Ok(StreamEvent::Unknown { .. }) => {
                proof {
                    Self::lemma_same_follow(store.blocks());
                }
            },
            Err(_) => {
                self.finished = true;
                if settle_block(store, self.block_id, None, BlockStatus::Error) {
                    messages.push(
                        ServerMessage::BlockStatusChanged {
                            block_id: self.block_id,
                            status: BlockStatus::Error,
                        },
                    );
                }
            },
        }
        messages
    }

    /// Takes a run of events, as many as a chunk of the stream brought,
    /// one after the other.
    ///
    /// The text of the events before the first that ends the response is
    /// gathered and passed on, one frame for each. The ending event settles
    /// the block and is told; whatever comes after it is passed over.
    pub fn on_events(&mut self, store: &mut Store, events: Vec<Result<StreamEvent, AppError>>) -> (r:
        Vec<ServerMessage>)
        requires
            old(store).wf(),
        ensures
            final(store).wf(),
            final(store).journals() == old(store).journals(),
            statuses_follow(old(store).blocks(), final(store).blocks()),
            final(self).block() == old(self).block(),
            if old(self).is_finished() {
                *final(self) == *old(self) && final(store).blocks() == old(store).blocks() && r@
                    == Seq::<ServerMessage>::empty()
            } else {
                let n = lead(events@);
                let passed = deltas(old(self).block(), events@.take(n));
                &&& final(self).received() == old(self).received() + carried(events@.take(n))
                &&& final(self).is_finished() == (n < events@.len())
                &&& if n < events@.len() {
                    &&& settled(
                        old(store).blocks(),
                        final(store).blocks(),
                        old(self).block(),
                        ending_content(events@[n], final(self).received()),
                        ending_status(events@[n]),
                    )
                    &&& r@ == passed + (if is_open(old(store).blocks(), old(self).block()) {
                        seq![
                            ServerMessage::BlockStatusChanged {
                                block_id: old(self).block(),
                                status: ending_status(events@[n]),
                            },
                        ]
                    } else {
                        Seq::<ServerMessage>::empty()
                    })
                } else {
                    final(store).blocks() == old(store).blocks() && r@ == passed
                }
            },
    {
        let mut out: Vec<ServerMessage> = Vec::new();
        if self.finished {
            proof {
                Self::lemma_same_follow(store.blocks());
            }
            return out;
        }
        let ghost all = events@;
        let ghost n = lead(all);
        let ghost id = self.block();
        let ghost blocks0 = store.blocks();
        let ghost received0 = self.received();
        let mut rest = events;
        let ghost mut i: int = 0;
        proof {
            lemma_lead(all, 0);
            Self::lemma_same_follow(store.blocks());
            assert(all.take(0) =~= Seq::<Result<StreamEvent, AppError>>::empty());
            assert(received0 + carried(all.take(0)) =~= received0);
            assert(all.skip(0) =~= all);
        }
        while rest.len() > 0
            invariant
                0 <= i <= all.len(),
                rest@ == all.skip(i),
                n == lead(all),
                0 <= n <= all.len(),
                id == old(self).block(),
                blocks0 == old(store).blocks(),
                received0 == old(self).received(),
                store.wf(),
                store.journals() == old(store).journals(),
                statuses_follow(blocks0, store.blocks()),
                self.block() == id,
                i <= n ==> !self.is_finished() && store.blocks() == blocks0 && self.received()
                    == received0 + carried(all.take(i)) && out@ == deltas(
                    id,
                    all.take(i),
                ),
                i > n ==> self.is_finished() && self.received() == received0 + carried(
                    all.take(n),
                ) && settled(
                    blocks0,
                    store.blocks(),
                    id,
                    ending_content(all[n], self.received()),
                    ending_status(all[n]),
                ) && out@ == deltas(id, all.take(n)) + (if is_open(blocks0, id) {
                    seq![
                        ServerMessage::BlockStatusChanged {
                            block_id: id,
                            status: ending_status(all[n]),
                        },
                    ]
                } else {
                    Seq::<ServerMessage>::empty()
                }),
            decreases all.len() - i,
        {
            let ghost blocks1 = store.blocks();
            let ghost before = out@;
            let ghost received1 = self.received();
            proof {
                assert(rest@.len() == all.len() - i);
                assert(rest@[0] == all[i]);
                assert(all.skip(i).remove(0) =~= all.skip(i + 1));
                assert(all.take(i + 1).drop_last() =~= all.take(i));
                assert(all.take(i + 1).last() == all[i]);
                lemma_lead(all, i);
            }
            let event = rest.remove(0);
            let mut frames = self.on_event(store, event);
            proof {
                lemma_statuses_follow_on(blocks0, blocks1, store.blocks());
                if i < n {
                    assert(!is_ending(all[i]));
                    assert(received0 + carried(all.take(i)) + (match all[i] {
                        Ok(StreamEvent::Content(c)) => c.text@,
                        _ => Seq::empty(),
                    }) =~= received0 + carried(all.take(i + 1)));
                    assert(before + frames@ =~= deltas(id, all.take(i + 1)));
                } else if i == n {
                    assert(is_ending(all[i]));
                    assert(before + frames@ =~= deltas(id, all.take(n)) + (if is_open(blocks0, id) {
                        seq![
                            ServerMessage::BlockStatusChanged {
                                block_id: id,
                                status: ending_status(all[n]),
                            },
                        ]
                    } else {
                        Seq::<ServerMessage>::empty()
                    }));
                } else {
                    assert(before + frames@ =~= before);
                }
            }
            out.append(&mut frames);
            proof {
                i = i + 1;
            }
        }
        proof {
            assert(rest@.len() == 0);
            assert(i == all.len());
            if n == all.len() {
                assert(all.take(n) =~= all.take(i));
            }
        }
        out
    }

    proof fn lemma_same_follow(blocks: Seq<Block>)
        ensures
            statuses_follow(blocks, blocks),
    {
    }
}

/// Law: what follows twice follows once. Over any run of steps of the
/// pipeline, no block moves backwards or out of a final status.
pub proof fn lemma_statuses_follow_on(a: Seq<Block>, b: Seq<Block>, c: Seq<Block>)
    requires
        statuses_follow(a, b),
        statuses_follow(b, c),
    ensures
        statuses_follow(a, c),
{
    assert forall|k: int| 0 <= k < a.len() implies (#[trigger] c[k]).id == a[k].id
        && a[k].status.may_become(c[k].status) by {
        assert(b[k].id == a[k].id);
        assert(c[k].id == b[k].id);
        crate::models::lemma_status_path(a[k].status, b[k].status, c[k].status);
    }
}

fn one(message: ServerMessage) -> (r: Vec<ServerMessage>)
    ensures
        r@ == seq![message],
{
    let mut out: Vec<ServerMessage> = Vec::new();
    out.push(message);
    out
}

/// What `handle_create_journal` does, as a relation between its arguments, the state
/// after it and its reply `r`.
pub open spec fn create_journal_handled(
    store: Store,
    title: Option<String>,
    store_after: Store,
    r: Vec<ServerMessage>,
) -> bool {
    &&& (store_after.wf())
    &&& (store_after.blocks() == store.blocks())
    &&& (r@.len() == 1)
    &&& (match r@[0] {
        ServerMessage::JournalCreated { journal_id, title: shown } => {
            &&& store_after.journals().len() == store.journals().len() + 1
            &&& store_after.journals().drop_last() == store.journals()
            &&& store_after.journals().last().id == journal_id
            &&& store_after.journals().last().title == shown
            &&& shown@ == (match title {
                Some(t) => t@,
                None => "Untitled"@,
            })
        },
        ServerMessage::Error { message } => store_after == store && message@
            == "Database error: "@ + "UNIQUE constraint failed: journals.id"@ && exists|id: u128|
            #[trigger] has_journal(store.journals(), id),
        _ => false,
    })
}

/// Creates a journal and tells its id and title; a failure is told as an
/// error frame.
pub fn handle_create_journal(store: &mut Store, title: Option<String>) -> (r: Vec<ServerMessage>)
    requires
        old(store).wf(),
    ensures
        create_journal_handled(*old(store), title, *final(store), r),
{
    match store.create_journal(title) {
        Ok(journal) => {
            proof {
                assert(store.journals().drop_last() =~= old(store).journals());
            }
            one(ServerMessage::JournalCreated { journal_id: journal.id, title: journal.title })
        },
        Err(e) => one(error_frame(&e)),
    }
}

/// What `handle_get_journal` does, as a relation between its arguments, the state
/// after it and its reply `r`.
pub open spec fn get_journal_handled(
    store: &Store,
    journal_id: u128,
    r: Vec<ServerMessage>,
) -> bool {
    &&& (r@.len() == 1)
    &&& (if crate::store::has_journal(store.journals(), journal_id) {
        r@[0] matches ServerMessage::Journal { journal, blocks } && journal.id == journal_id
            && store.journals().contains(journal) && crate::store::is_answer(
            blocks@,
            store.blocks(),
            crate::store::Selector::InJournal(journal_id),
        )
    } else {
        is_error(r@[0], "Not found: "@ + crate::store::journal_missing(journal_id))
    })
}

/// Tells a journal and its blocks, oldest first; an unknown journal is told
/// as an error frame.
pub fn handle_get_journal(store: &Store, journal_id: u128) -> (r: Vec<ServerMessage>)
    requires
        store.wf(),
    ensures
        get_journal_handled(store, journal_id, r),
{
    match store.get_journal(journal_id) {
        Ok(journal) => {
            let blocks = match store.get_blocks_for_journal(journal_id) {
                Ok(list) => list,
                Err(_) => Vec::new(),
            };
            one(ServerMessage::Journal { journal, blocks })
        },
        Err(e) => one(error_frame(&e)),
    }
}

/// What `handle_list_journals` does, as a relation between its arguments, the state
/// after it and its reply `r`.
pub open spec fn list_journals_handled(
    store: &Store,
    r: Vec<ServerMessage>,
) -> bool {
    &&& (r@.len() == 1)
    &&& (r@[0] matches ServerMessage::Journals { journals } && crate::store::is_listing(
        journals@,
        store.journals(),
    ))
}

/// Tells every journal, the most recently updated first.
pub fn handle_list_journals(store: &Store) -> (r: Vec<ServerMessage>)
    ensures
        list_journals_handled(store, r),
{
    match store.list_journals() {
        Ok(journals) => one(ServerMessage::Journals { journals }),
        Err(e) => one(error_frame(&e)),
    }
}

/// Whether a reply ends in an error frame and streams nothing.
pub open spec fn failed(reply: Reply) -> bool {
    reply.job is None && reply.messages@.len() > 0 && reply.messages@.last() is Error
}

/// Whether the store grew by the pending assistant block `block_id`, born
/// under `parent_id`, that a job is to stream into.
pub open spec fn awaiting_response(blocks: Seq<Block>, block_id: u128, parent_id: Option<u128>) -> bool {
    blocks.len() > 0 && blocks.last().id == block_id && blocks.last().block_type
        == BlockType::Assistant && blocks.last().status == BlockStatus::Pending
        && blocks.last().content@ == Seq::<char>::empty() && blocks.last().parent_id == parent_id
}

/// Whether `b` is a block as it is born: of the given make, in the status
/// of its type, created and last changed at `at`.
pub open spec fn born(
    b: Block,
    id: u128,
    journal_id: u128,
    block_type: BlockType,
    content: Seq<char>,
    parent_id: Option<u128>,
    forked_from_id: Option<u128>,
    at: Timestamp,
) -> bool {
    &&& b.id == id
    &&& b.journal_id == journal_id
    &&& b.block_type == block_type
    &&& b.content@ == content
    &&& b.status == block_type.initial_status()
    &&& b.parent_id == parent_id
    &&& b.forked_from_id == forked_from_id
    &&& b.created_at == at
    &&& b.updated_at == at
}

/// Whether `post` holds the journals of `pre` with the journal
/// `journal_id` marked as changed at `at`.
pub open spec fn touched(pre: Seq<Journal>, post: Seq<Journal>, journal_id: u128, at: Timestamp) -> bool {
    &&& post.len() == pre.len()
    &&& forall|i: int|
        0 <= i < pre.len() ==> #[trigger] post[i] == (if pre[i].id == journal_id {
            Journal { updated_at: at, ..pre[i] }
        } else {
            pre[i]
        })
}

/// The text of the error frame for an identifier that is taken.
pub open spec fn taken_text() -> Seq<char> {
    "Database error: "@ + "UNIQUE constraint failed: blocks.id"@
}

fn await_response_with(
    store: &mut Store,
    sent: Vec<ServerMessage>,
    id: u128,
    at: Timestamp,
    journal_id: u128,
    parent_id: Option<u128>,
    session_id: Option<String>,
    prompt: String,
) -> (r: Reply)
    requires
        old(store).wf(),
    ensures
        r.merge is None,
        (r.job is Some) == (old(store).create_refusal(id, journal_id, parent_id, None) is None),
        r.job is None ==> is_error(
            r.messages@.last(),
            "Database error: "@ + old(store).create_refusal(id, journal_id, parent_id, None)->0,
        ),
        r.job matches Some(job) ==> job.block_id == id && born(
            final(store).blocks().last(),
            id,
            journal_id,
            BlockType::Assistant,
            Seq::<char>::empty(),
            parent_id,
            None,
            at,
        ) && touched(old(store).journals(), final(store).journals(), journal_id, at),
        final(store).wf(),
        statuses_follow(old(store).blocks(), final(store).blocks()),
        r.messages@.len() == sent@.len() + 1,
        r.messages@.drop_last() == sent@,
        match r.job {
            Some(job) => {
                &&& job.session_id == session_id
                &&& job.prompt == prompt
                &&& final(store).blocks().len() == old(store).blocks().len() + 1
                &&& final(store).blocks().drop_last() == old(store).blocks()
                &&& awaiting_response(final(store).blocks(), job.block_id, parent_id)
                &&& final(store).blocks().last().journal_id == journal_id
                &&& r.messages@.last() == (ServerMessage::BlockCreated {
                    block: final(store).blocks().last(),
                })
            },
            None => *final(store) == *old(store) && r.messages@.last() is Error,
        },
{
    let ghost before = sent@;
    let mut messages = sent;
    match store.create_block_with(id, at, journal_id, BlockType::Assistant, "", parent_id, None) {
        Err(e) => {
            messages.push(error_frame(&e));
            proof {
                assert(messages@.drop_last() =~= before);
                lemma_grown_follow(old(store).blocks(), store.blocks());
            }
            Reply { messages, job: None, merge: None }
        },
        Ok(assistant) => {
            let block_id = assistant.id;
            messages.push(ServerMessage::BlockCreated { block: assistant });
            proof {
                reveal_strlit("");
                assert(""@ =~= Seq::<char>::empty());
                assert(messages@.drop_last() =~= before);
                assert(store.blocks().drop_last() =~= old(store).blocks());
                lemma_grown_follow(old(store).blocks(), store.blocks());
            }
            Reply { messages, job: Some(StreamJob { block_id, session_id, prompt }), merge: None }
        },
    }
}

proof fn lemma_one_more_id(before: Seq<Block>, after: Seq<Block>, id: u128)
    requires
        after.len() == before.len() + 1,
        after.drop_last() == before,
    ensures
        has_block(after, id) <==> (after.last().id == id || has_block(before, id)),
{
    if has_block(before, id) {
        let k = choose|k: int| 0 <= k < before.len() && #[trigger] before[k].id == id;
        assert(after.drop_last()[k] == after[k]);
        assert(after[k].id == id);
    }
    if after.last().id == id {
        assert(after[after.len() - 1].id == id);
    }
    if has_block(after, id) {
        let k = choose|k: int| 0 <= k < after.len() && #[trigger] after[k].id == id;
        if k < before.len() {
            assert(after.drop_last()[k] == after[k]);
            assert(before[k].id == id);
        }
    }
}

proof fn lemma_touched_twice(
    a: Seq<Journal>,
    b: Seq<Journal>,
    c: Seq<Journal>,
    journal_id: u128,
    first: Timestamp,
    second: Timestamp,
)
    requires
        touched(a, b, journal_id, first),
        touched(b, c, journal_id, second) || c == b,
    ensures
        c == b || touched(a, c, journal_id, second),
{
    if c != b {
        assert forall|i: int| 0 <= i < a.len() implies #[trigger] c[i] == (if a[i].id
            == journal_id {
            Journal { updated_at: second, ..a[i] }
        } else {
            a[i]
        }) by {
            assert(b[i] == (if a[i].id == journal_id {
                Journal { updated_at: first, ..a[i] }
            } else {
                a[i]
            }));
        }
    }
}

proof fn lemma_grown_follow(before: Seq<Block>, after: Seq<Block>)
    requires
        before.len() <= after.len(),
        forall|k: int| 0 <= k < before.len() ==> #[trigger] after[k] == before[k],
    ensures
        statuses_follow(before, after),
{
}

/// What `begin_submit` does, as a relation between its arguments, the state
/// after it and its reply `r`.
pub open spec fn submit_begun(
    store: Store,
    journal_id: u128,
    content: String,
    session_id: Option<String>,
    store_after: Store,
    r: Reply,
) -> bool {
    &&& (store_after.wf())
    &&& (statuses_follow(store.blocks(), store_after.blocks()))
    &&& (match r.job {
        Some(job) => {
            let n = store.blocks().len() as int;
            &&& job.session_id == session_id
            &&& job.prompt == content
            &&& store_after.blocks().len() == n + 2
            &&& store_after.blocks().take(n) == store.blocks()
            &&& store_after.blocks()[n].journal_id == journal_id
            &&& store_after.blocks()[n].block_type == BlockType::User
            &&& store_after.blocks()[n].status == BlockStatus::Complete
            &&& store_after.blocks()[n].content@ == content@
            &&& store_after.blocks()[n].parent_id is None
            &&& store_after.blocks()[n].forked_from_id is None
            &&& awaiting_response(store_after.blocks(), job.block_id, None)
            &&& store_after.blocks()[n + 1].journal_id == journal_id
            &&& r.messages@ == seq![
                ServerMessage::BlockCreated { block: store_after.blocks()[n] },
                ServerMessage::BlockCreated { block: store_after.blocks()[n + 1] },
            ]
        },
        None => failed(r) && r.messages@.len() <= 2 && (!has_journal(
            store.journals(),
            journal_id,
        ) ==> store_after == store && r.messages@.len() == 1),
    })
    &&& (!has_journal(store.journals(), journal_id) ==> r.job is None)
}

/// Takes a prompt: stores it as a complete user block, adds the pending
/// assistant block for the answer, tells of both, and hands out the job of
/// streaming the answer. A failure on the way is told as an error frame
/// after what went well, and ends the matter.
pub fn begin_submit(
    store: &mut Store,
    journal_id: u128,
    content: String,
    session_id: Option<String>,
) -> (r: Reply)
    requires
        old(store).wf(),
    ensures
        r.merge is None,
        submit_begun(*old(store), journal_id, content, session_id, *final(store), r),
        exists|user_id: u128, assistant_id: u128, at: Timestamp, then: Timestamp| #[trigger]
            begun(
                *old(store),
                *final(store),
                r,
                submit_refusal(*old(store), user_id, journal_id),
                None,
                false,
                user_id,
                at,
                journal_id,
                content@,
                assistant_id,
                then,
                None,
                session_id,
            ),
{
    let user_id = fresh_id();
    let at = now();
    let assistant_id = fresh_id();
    let then = now();
    begin_submit_with(store, user_id, assistant_id, at, then, journal_id, content, session_id)
}

/// Why a prompt cannot be taken, if it cannot: the identifier drawn for
/// its block is taken, or its journal is not there.
pub open spec fn submit_refusal(store: Store, user_id: u128, journal_id: u128) -> Option<Seq<char>> {
    match store.create_refusal(user_id, journal_id, None, None) {
        Some(m) => Some("Database error: "@ + m),
        None => None,
    }
}

/// The frame that tells of the first block of an exchange: of a fork as
/// such, of any other as a new block.
pub open spec fn first_frame(forked: bool, origin: Option<u128>, b: Block) -> ServerMessage {
    if forked && origin is Some {
        ServerMessage::BlockForked { original_block_id: origin->0, new_block: b }
    } else {
        ServerMessage::BlockCreated { block: b }
    }
}

/// What the beginning of an exchange comes to, for every identifier and
/// time that it may be given.
///
/// Where `refusal` says why the first block cannot be made, the reply is
/// that error frame and nothing changes. Else the first block, a complete
/// user block with the identifier `first_id`, is stored and told. The
/// pending assistant block with the identifier `assistant_id` follows it,
/// and the job of streaming into it is handed out, if and only if that
/// identifier is free and is not the first one; where it is not, the
/// second frame says so and the first block stays.
pub open spec fn begun(
    store: Store,
    after: Store,
    r: Reply,
    refusal: Option<Seq<char>>,
    origin: Option<u128>,
    forked: bool,
    first_id: u128,
    first_at: Timestamp,
    journal_id: u128,
    content: Seq<char>,
    assistant_id: u128,
    at: Timestamp,
    assistant_parent: Option<u128>,
    session_id: Option<String>,
) -> bool {
    match refusal {
        Some(text) => r.job is None && after == store && only_error(r.messages@, text),
        None => {
            let n = store.blocks().len() as int;
            &&& after.blocks().len() >= n + 1
            &&& after.blocks().take(n) == store.blocks()
            &&& born(
                after.blocks()[n],
                first_id,
                journal_id,
                BlockType::User,
                content,
                origin,
                origin,
                first_at,
            )
            &&& r.messages@.len() == 2
            &&& r.messages@[0] == first_frame(forked, origin, after.blocks()[n])
            &&& if assistant_id == first_id || has_block(store.blocks(), assistant_id) {
                &&& r.job is None
                &&& after.blocks().len() == n + 1
                &&& touched(store.journals(), after.journals(), journal_id, first_at)
                &&& is_error(r.messages@[1], taken_text())
            } else {
                &&& after.blocks().len() == n + 2
                &&& born(
                    after.blocks()[n + 1],
                    assistant_id,
                    journal_id,
                    BlockType::Assistant,
                    Seq::<char>::empty(),
                    assistant_parent,
                    None,
                    at,
                )
                &&& touched(store.journals(), after.journals(), journal_id, at)
                &&& r.job matches Some(job) && job.block_id == assistant_id && job.session_id
                    == session_id && job.prompt@ == content
                &&& r.messages@[1] == (ServerMessage::BlockCreated { block: after.blocks()[n + 1] })
            }
        },
    }
}

/// Takes a prompt as `begin_submit` does; the user block gets the
/// identifier `user_id` and the time `at`, the assistant block the
/// identifier `assistant_id` and the time `then`.
pub fn begin_submit_with(
    store: &mut Store,
    user_id: u128,
    assistant_id: u128,
    at: Timestamp,
    then: Timestamp,
    journal_id: u128,
    content: String,
    session_id: Option<String>,
) -> (r: Reply)
    requires
        old(store).wf(),
    ensures
        r.merge is None,
        submit_begun(*old(store), journal_id, content, session_id, *final(store), r),
        begun(
            *old(store),
            *final(store),
            r,
            submit_refusal(*old(store), user_id, journal_id),
            None,
            false,
            user_id,
            at,
            journal_id,
            content@,
            assistant_id,
            then,
            None,
            session_id,
        ),
{
    let mut messages: Vec<ServerMessage> = Vec::new();
    let user = match store.create_block_with(
        user_id,
        at,
        journal_id,
        BlockType::User,
        content.as_str(),
        None,
        None,
    ) {
        Ok(block) => block,
        Err(e) => {
            messages.push(error_frame(&e));
            proof {
                lemma_grown_follow(old(store).blocks(), store.blocks());
            }
            return Reply { messages, job: None, merge: None };
        },
    };
    let ghost blocks1 = store.blocks();
    let ghost journals1 = store.journals();
    messages.push(ServerMessage::BlockCreated { block: user });
    let r = await_response_with(
        store,
        messages,
        assistant_id,
        then,
        journal_id,
        None,
        session_id,
        content,
    );
    proof {
        let n = old(store).blocks().len() as int;
        assert(blocks1.len() == n + 1);
        assert(blocks1[n].id == user_id);
        assert(has_block(blocks1, assistant_id) <==> (assistant_id == user_id || has_block(
            old(store).blocks(),
            assistant_id,
        ))) by {
            if has_block(old(store).blocks(), assistant_id) {
                let k = choose|k: int|
                    0 <= k < old(store).blocks().len() && #[trigger] old(store).blocks()[k].id
                        == assistant_id;
                assert(blocks1[k].id == assistant_id);
            }
            if assistant_id == user_id {
                assert(blocks1[n].id == assistant_id);
            }
        }
        assert(has_journal(journals1, journal_id)) by {
            let k = choose|k: int|
                0 <= k < old(store).journals().len() && #[trigger] old(store).journals()[k].id
                    == journal_id;
            assert(journals1[k].id == journal_id);
        }
        assert(r.messages@[0] == r.messages@.drop_last()[0]);
        if r.job is Some {
            lemma_touched_twice(
                old(store).journals(),
                journals1,
                store.journals(),
                journal_id,
                at,
                then,
            );
        }
        if r.job is None {
            assert(store.blocks() == blocks1);
        } else {
            assert(store.blocks().drop_last() == blocks1);
            assert(store.blocks()[n] == blocks1[n]);
            assert(store.blocks().last() == store.blocks()[n + 1]);
        }
        assert(store.blocks().take(n) =~= old(store).blocks());
        assert(blocks1.take(n) =~= old(store).blocks());
        lemma_grown_follow(old(store).blocks(), blocks1);
        lemma_statuses_follow_on(old(store).blocks(), blocks1, store.blocks());
        if r.job is Some {
            assert(store.blocks().drop_last() == blocks1);
            assert(store.blocks().take(n) =~= old(store).blocks());
            assert(store.blocks()[n] == blocks1[n]);
            assert(r.messages@.drop_last()[0] == r.messages@[0]);
            assert(r.messages@ =~= seq![
                ServerMessage::BlockCreated { block: store.blocks()[n] },
                ServerMessage::BlockCreated { block: store.blocks()[n + 1] },
            ]);
        }
    }
    r
}

/// Whether the store grew by the user block `made` that a fork or rerun of
/// `origin` derives: complete, with the given content, and with `origin` as
/// its parent and its origin.
pub open spec fn derived(pre: Seq<Block>, post: Seq<Block>, origin: u128, content: Seq<char>) -> bool {
    let n = pre.len() as int;
    &&& post.len() == n + 2
    &&& post.take(n) == pre
    &&& post[n].block_type == BlockType::User
    &&& post[n].status == BlockStatus::Complete
    &&& post[n].content@ == content
    &&& post[n].parent_id == Some(origin)
    &&& post[n].forked_from_id == Some(origin)
    &&& post[n + 1].journal_id == post[n].journal_id
}

fn derive_and_await(
    store: &mut Store,
    made: Result<Block, AppError>,
    forked: bool,
    origin: u128,
    session_id: Option<String>,
    pre: Ghost<Seq<Block>>,
    assistant_id: u128,
    at: Timestamp,
) -> (r: Reply)
    requires
        old(store).wf(),
        statuses_follow(pre@, old(store).blocks()),
        match made {
            Ok(block) => old(store).blocks().len() == pre@.len() + 1 && old(store).blocks().drop_last() == pre@ && old(store).blocks().last() == block,
            Err(_) => old(store).blocks() == pre@,
        },
    ensures
        r.merge is None,
        made matches Err(e) ==> r.job is None && *final(store) == *old(store) && only_error(
            r.messages@,
            message_of(e),
        ),
        made matches Ok(block) ==> {
            &&& r.messages@.len() == 2
            &&& r.messages@[0] == first_frame(forked, Some(origin), block)
            &&& final(store).blocks().len() >= old(store).blocks().len()
            &&& final(store).blocks().take(old(store).blocks().len() as int) == old(store).blocks()
            &&& if has_block(old(store).blocks(), assistant_id) {
                &&& r.job is None
                &&& *final(store) == *old(store)
                &&& is_error(r.messages@[1], taken_text())
            } else {
                &&& final(store).blocks().len() == old(store).blocks().len() + 1
                &&& born(
                    final(store).blocks().last(),
                    assistant_id,
                    block.journal_id,
                    BlockType::Assistant,
                    Seq::<char>::empty(),
                    Some(block.id),
                    None,
                    at,
                )
                &&& touched(old(store).journals(), final(store).journals(), block.journal_id, at)
                &&& r.job matches Some(job) && job.block_id == assistant_id && job.session_id
                    == session_id && job.prompt@ == block.content@
                &&& r.messages@[1] == (ServerMessage::BlockCreated {
                    block: final(store).blocks().last(),
                })
            }
        },
        final(store).wf(),
        statuses_follow(pre@, final(store).blocks()),
        match r.job {
            Some(job) => {
                let n = pre@.len() as int;
                &&& made is Ok
                &&& job.session_id == session_id
                &&& job.prompt == made->Ok_0.content
                &&& final(store).blocks().len() == n + 2
                &&& final(store).blocks().take(n) == pre@
                &&& final(store).blocks()[n] == made->Ok_0
                &&& final(store).blocks()[n + 1].journal_id == made->Ok_0.journal_id
                &&& awaiting_response(final(store).blocks(), job.block_id, Some(made->Ok_0.id))
                &&& r.messages@ == seq![
                    if forked {
                        ServerMessage::BlockForked {
                            original_block_id: origin,
                            new_block: final(store).blocks()[n],
                        }
                    } else {
                        ServerMessage::BlockCreated { block: final(store).blocks()[n] }
                    },
                    ServerMessage::BlockCreated { block: final(store).blocks()[n + 1] },
                ]
            },
            None => failed(r) && r.messages@.len() <= 2 && (made is Err ==> final(store).blocks()
                == pre@ && r.messages@.len() == 1 && is_error(
                r.messages@[0],
                message_of(made->Err_0),
            )),
        },
{
    let mut messages: Vec<ServerMessage> = Vec::new();
    let block = match made {
        Ok(block) => block,
        Err(e) => {
            messages.push(error_frame(&e));
            return Reply { messages, job: None, merge: None };
        },
    };
    let journal_id = block.journal_id;
    let parent_id = block.id;
    let prompt = block.content.clone();
    let ghost blocks1 = store.blocks();
    if forked {
        messages.push(ServerMessage::BlockForked { original_block_id: origin, new_block: block });
    } else {
        messages.push(ServerMessage::BlockCreated { block });
    }
    proof {
        store.lemma_block_at(pre@.len() as int);
        assert(has_block(blocks1, parent_id));
        assert(has_journal(store.journals(), journal_id));
    }
    let r = await_response_with(
        store,
        messages,
        assistant_id,
        at,
        journal_id,
        Some(parent_id),
        session_id,
        prompt,
    );
    proof {
        let n = pre@.len() as int;
        assert(r.messages@[0] == r.messages@.drop_last()[0]);
        assert(r.messages@.last() == r.messages@[1]);
        if r.job is Some {
            assert(store.blocks().drop_last() == blocks1);
            assert(store.blocks().take(blocks1.len() as int) =~= blocks1);
        } else {
            assert(store.blocks().take(blocks1.len() as int) =~= blocks1);
        }
        lemma_statuses_follow_on(pre@, blocks1, store.blocks());
        if r.job is Some {
            assert(store.blocks().drop_last() == blocks1);
            assert(store.blocks().take(n) =~= pre@);
            assert(store.blocks()[n] == blocks1[n]);
            assert(r.messages@.drop_last()[0] == r.messages@[0]);
            assert(r.messages@ =~= seq![
                if forked {
                    ServerMessage::BlockForked {
                        original_block_id: origin,
                        new_block: store.blocks()[n],
                    }
                } else {
                    ServerMessage::BlockCreated { block: store.blocks()[n] }
                },
                ServerMessage::BlockCreated { block: store.blocks()[n + 1] },
            ]);
        }
    }
    r
}

/// What `begin_fork` does, as a relation between its arguments, the state
/// after it and its reply `r`.
pub open spec fn fork_begun(
    store: Store,
    block_id: u128,
    session_id: Option<String>,
    store_after: Store,
    r: Reply,
) -> bool {
    &&& (store_after.wf())
    &&& (statuses_follow(store.blocks(), store_after.blocks()))
    &&& (match r.job {
        Some(job) => {
            let n = store.blocks().len() as int;
            &&& has_block(store.blocks(), block_id)
            &&& job.session_id == session_id
            &&& job.prompt@ == store.block(block_id).content@
            &&& derived(
                store.blocks(),
                store_after.blocks(),
                block_id,
                store.block(block_id).content@,
            )
            &&& store_after.blocks()[n].journal_id == store.block(block_id).journal_id
            &&& awaiting_response(
                store_after.blocks(),
                job.block_id,
                Some(store_after.blocks()[n].id),
            )
            &&& r.messages@ == seq![
                ServerMessage::BlockForked {
                    original_block_id: block_id,
                    new_block: store_after.blocks()[n],
                },
                ServerMessage::BlockCreated { block: store_after.blocks()[n + 1] },
            ]
        },
        None => failed(r) && r.messages@.len() <= 2 && (!has_block(
            store.blocks(),
            block_id,
        ) ==> store_after.blocks() == store.blocks() && only_error(
            r.messages@,
            "Not found: "@ + crate::store::block_missing(block_id),
        )),
    })
}

/// Forks a block: adds the user block that branches off, tells of it as a
/// fork, adds the pending assistant block behind it, and hands out the job
/// of streaming the answer to the forked prompt.
pub fn begin_fork(store: &mut Store, block_id: u128, session_id: Option<String>) -> (r: Reply)
    requires
        old(store).wf(),
    ensures
        r.merge is None,
        fork_begun(*old(store), block_id, session_id, *final(store), r),
        exists|id: u128, assistant_id: u128, at: Timestamp, then: Timestamp| #[trigger]
            begun(
                *old(store),
                *final(store),
                r,
                fork_refusal(*old(store), id, block_id),
                Some(block_id),
                true,
                id,
                at.later_of(old(store).block(block_id).created_at),
                old(store).block(block_id).journal_id,
                old(store).block(block_id).content@,
                assistant_id,
                then,
                Some(id),
                session_id,
            ),
{
    let id = fresh_id();
    let at = now();
    let assistant_id = fresh_id();
    let then = now();
    begin_fork_with(store, id, assistant_id, at, then, block_id, session_id)
}

/// Why a block cannot be forked, if it cannot: it is not there, or the
/// identifier drawn for the fork is taken.
pub open spec fn fork_refusal(store: Store, id: u128, block_id: u128) -> Option<Seq<char>> {
    if !has_block(store.blocks(), block_id) {
        Some("Not found: "@ + crate::store::block_missing(block_id))
    } else if has_block(store.blocks(), id) {
        Some(taken_text())
    } else {
        None
    }
}

/// Why a block cannot be rerun, if it cannot: it is not there, no prompt
/// stands behind it, or the identifier drawn for the new block is taken.
pub open spec fn rerun_refusal(store: Store, id: u128, block_id: u128) -> Option<Seq<char>> {
    if !has_block(store.blocks(), block_id) {
        Some("Not found: "@ + crate::store::block_missing(block_id))
    } else if store.rerun_prompt(block_id) is None {
        Some("Not found: "@ + "No preceding user block found"@)
    } else if has_block(store.blocks(), id) {
        Some(taken_text())
    } else {
        None
    }
}

/// Forks a block as `begin_fork` does; the fork gets the identifier `id`
/// and the time `at`, though none before that of its origin, the assistant
/// block the identifier `assistant_id` and the time `then`.
pub fn begin_fork_with(
    store: &mut Store,
    id: u128,
    assistant_id: u128,
    at: Timestamp,
    then: Timestamp,
    block_id: u128,
    session_id: Option<String>,
) -> (r: Reply)
    requires
        old(store).wf(),
    ensures
        r.merge is None,
        fork_begun(*old(store), block_id, session_id, *final(store), r),
        begun(
            *old(store),
            *final(store),
            r,
            fork_refusal(*old(store), id, block_id),
            Some(block_id),
            true,
            id,
            at.later_of(old(store).block(block_id).created_at),
            old(store).block(block_id).journal_id,
            old(store).block(block_id).content@,
            assistant_id,
            then,
            Some(id),
            session_id,
        ),
{
    let ghost pre = store.blocks();
    let ghost journals0 = store.journals();
    let made = store.fork_block_with(id, at, block_id);
    let ghost journals1 = store.journals();
    proof {
        if made is Ok {
            assert(store.blocks().drop_last() =~= pre);
            assert(store.blocks().take(pre.len() as int) =~= pre);
            lemma_one_more_id(pre, store.blocks(), assistant_id);
        }
        lemma_grown_follow(pre, store.blocks());
    }
    let r = derive_and_await(
        store,
        made,
        true,
        block_id,
        session_id,
        Ghost(pre),
        assistant_id,
        then,
    );
    proof {
        if made is Ok {
            let n = pre.len() as int;
            assert(store.blocks().take(n) =~= pre);
            lemma_touched_twice(
                journals0,
                journals1,
                store.journals(),
                old(store).block(block_id).journal_id,
                at.later_of(old(store).block(block_id).created_at),
                then,
            );
        }
    }
    r
}

/// What `begin_rerun` does, as a relation between its arguments, the state
/// after it and its reply `r`.
pub open spec fn rerun_begun(
    store: Store,
    block_id: u128,
    session_id: Option<String>,
    store_after: Store,
    r: Reply,
) -> bool {
    &&& (store_after.wf())
    &&& (statuses_follow(store.blocks(), store_after.blocks()))
    &&& (match r.job {
        Some(job) => {
            let n = store.blocks().len() as int;
            &&& has_block(store.blocks(), block_id)
            &&& store.rerun_prompt(block_id) is Some
            &&& job.session_id == session_id
            &&& job.prompt@ == store.rerun_prompt(block_id)->0
            &&& derived(
                store.blocks(),
                store_after.blocks(),
                block_id,
                store.rerun_prompt(block_id)->0,
            )
            &&& store_after.blocks()[n].journal_id == store.block(block_id).journal_id
            &&& awaiting_response(
                store_after.blocks(),
                job.block_id,
                Some(store_after.blocks()[n].id),
            )
            &&& r.messages@ == seq![
                ServerMessage::BlockCreated { block: store_after.blocks()[n] },
                ServerMessage::BlockCreated { block: store_after.blocks()[n + 1] },
            ]
        },
        None => failed(r) && r.messages@.len() <= 2 && (!has_block(
            store.blocks(),
            block_id,
        ) ==> store_after.blocks() == store.blocks() && only_error(
            r.messages@,
            "Not found: "@ + crate::store::block_missing(block_id),
        )) && (has_block(store.blocks(), block_id) && store.rerun_prompt(block_id) is None
            ==> store_after.blocks() == store.blocks() && only_error(
            r.messages@,
            "Not found: "@ + "No preceding user block found"@,
        )),
    })
}

/// Reruns a block: adds the user block that repeats the prompt, tells of
/// it, adds the pending assistant block behind it, and hands out the job
/// of streaming the new answer.
pub fn begin_rerun(store: &mut Store, block_id: u128, session_id: Option<String>) -> (r: Reply)
    requires
        old(store).wf(),
    ensures
        r.merge is None,
        rerun_begun(*old(store), block_id, session_id, *final(store), r),
        exists|id: u128, assistant_id: u128, at: Timestamp, then: Timestamp| #[trigger]
            begun(
                *old(store),
                *final(store),
                r,
                rerun_refusal(*old(store), id, block_id),
                Some(block_id),
                false,
                id,
                at.later_of(old(store).block(block_id).created_at),
                old(store).block(block_id).journal_id,
                old(store).rerun_prompt(block_id)->0,
                assistant_id,
                then,
                Some(id),
                session_id,
            ),
{
    let id = fresh_id();
    let at = now();
    let assistant_id = fresh_id();
    let then = now();
    begin_rerun_with(store, id, assistant_id, at, then, block_id, session_id)
}

/// Reruns a block as `begin_rerun` does; the new user block gets the
/// identifier `id` and the time `at`, though none before that of its
/// origin, the assistant block the identifier `assistant_id` and the time
/// `then`.
pub fn begin_rerun_with(
    store: &mut Store,
    id: u128,
    assistant_id: u128,
    at: Timestamp,
    then: Timestamp,
    block_id: u128,
    session_id: Option<String>,
) -> (r: Reply)
    requires
        old(store).wf(),
    ensures
        r.merge is None,
        rerun_begun(*old(store), block_id, session_id, *final(store), r),
        begun(
            *old(store),
            *final(store),
            r,
            rerun_refusal(*old(store), id, block_id),
            Some(block_id),
            false,
            id,
            at.later_of(old(store).block(block_id).created_at),
            old(store).block(block_id).journal_id,
            old(store).rerun_prompt(block_id)->0,
            assistant_id,
            then,
            Some(id),
            session_id,
        ),
{
    let ghost pre = store.blocks();
    let ghost journals0 = store.journals();
    let made = store.rerun_block_with(id, at, block_id);
    let ghost journals1 = store.journals();
    proof {
        if made is Ok {
            assert(store.blocks().drop_last() =~= pre);
            assert(store.blocks().take(pre.len() as int) =~= pre);
            lemma_one_more_id(pre, store.blocks(), assistant_id);
        }
        lemma_grown_follow(pre, store.blocks());
    }
    let r = derive_and_await(
        store,
        made,
        false,
        block_id,
        session_id,
        Ghost(pre),
        assistant_id,
        then,
    );
    proof {
        if made is Ok {
            let n = pre.len() as int;
            assert(store.blocks().take(n) =~= pre);
            lemma_touched_twice(
                journals0,
                journals1,
                store.journals(),
                old(store).block(block_id).journal_id,
                at.later_of(old(store).block(block_id).created_at),
                then,
            );
        }
    }
    r
}

/// What `handle_cancel` does, as a relation between its arguments, the state
/// after it and its reply `r`.
pub open spec fn cancel_handled(
    store: Store,
    block_id: u128,
    store_after: Store,
    r: Vec<ServerMessage>,
) -> bool {
    &&& (store_after.wf())
    &&& (store_after.journals() == store.journals())
    &&& (settled(store.blocks(), store_after.blocks(), block_id, None, BlockStatus::Error))
    &&& (statuses_follow(store.blocks(), store_after.blocks()))
    &&& (r@ == seq![ServerMessage::BlockCancelled { block_id }])
}

/// Cancels a block: a block that is not final yet fails, which is the
/// signal of cancellation, and the client is told that the block was
/// cancelled either way.
pub fn handle_cancel(store: &mut Store, block_id: u128) -> (r: Vec<ServerMessage>)
    requires
        old(store).wf(),
    ensures
        cancel_handled(*old(store), block_id, *final(store), r),
{
    let _ = settle_block(store, block_id, None, BlockStatus::Error);
    one(ServerMessage::BlockCancelled { block_id })
}

/// The kind that a client asks for: the kind that the text names, and a
/// user where it names none or there is no text.
pub open spec fn chosen_kind(kind: Option<String>) -> ParticipantKind {
    match kind {
        Some(k) => match crate::crdt::participant::participant_kind_named(k@) {
            Some(named) => named,
            None => ParticipantKind::User,
        },
        None => ParticipantKind::User,
    }
}

fn choose_kind(kind: &Option<String>) -> (r: ParticipantKind)
    ensures
        r == chosen_kind(*kind),
{
    match kind {
        Some(k) => match ParticipantKind::parse(k.as_str()) {
            Ok(named) => named,
            Err(_) => ParticipantKind::User,
        },
        None => ParticipantKind::User,
    }
}

/// Who is present in the room of a journal; nobody where there is no room.
pub open spec fn present_in(rooms: Map<u128, JournalRoom>, journal_id: u128) -> Map<u128, Participant> {
    if rooms.contains_key(journal_id) {
        rooms[journal_id].people()
    } else {
        Map::empty()
    }
}

/// The events that wait in the room of a journal; none where there is no
/// room.
pub open spec fn waiting_in(rooms: Map<u128, JournalRoom>, journal_id: u128) -> Seq<RoomEvent> {
    if rooms.contains_key(journal_id) {
        rooms[journal_id].events()
    } else {
        Seq::empty()
    }
}

/// Whether `listed` names everyone of `people`, each once.
pub open spec fn lists_everyone(listed: Seq<Participant>, people: Map<u128, Participant>) -> bool {
    &&& listed.len() == people.len()
    &&& forall|i: int|
        0 <= i < listed.len() ==> people.contains_key((#[trigger] listed[i]).id) && people[listed[i].id]
            == listed[i]
    &&& forall|i: int, j: int|
        0 <= i < j < listed.len() ==> (#[trigger] listed[i]).id != (#[trigger] listed[j]).id
}

/// What `handle_subscribe` does, as a relation between its arguments, the state
/// after it and its reply `r`.
pub open spec fn subscribe_handled(
    rooms: RoomManager,
    conn: ConnectionState,
    journal_id: u128,
    name: String,
    kind: Option<String>,
    rooms_after: RoomManager,
    conn_after: ConnectionState,
    r: Vec<ServerMessage>,
) -> bool {
    &&& (rooms_after.wf())
    &&& (conn_after.registrations() == conn.registrations())
    &&& (rooms_after.rooms().remove(journal_id) == rooms.rooms().remove(journal_id))
    &&& (rooms_after.rooms().contains_key(journal_id))
    &&& (r@.len() == 1)
    &&& (r@[0] matches ServerMessage::Subscribed { journal_id: j, participant: p, participants: all }
        && {
        &&& j == journal_id
        &&& p.joined(p.id, name@, chosen_kind(kind))
        &&& conn_after.subscriptions() == conn.subscriptions().insert(journal_id, p.id)
        &&& present_in(rooms_after.rooms(), journal_id) == present_in(
            rooms.rooms(),
            journal_id,
        ).insert(p.id, p)
        &&& waiting_in(rooms_after.rooms(), journal_id) == waiting_in(
            rooms.rooms(),
            journal_id,
        ).push(RoomEvent::ParticipantJoined(p))
        &&& lists_everyone(all@, present_in(rooms_after.rooms(), journal_id))
    })
}

/// Subscribes the connection to a journal: a participant with a fresh
/// identifier joins the journal's room, which is made where there is
/// none, the connection notes whom it subscribed as, and the client is
/// told who it is and who is present.
pub fn handle_subscribe(
    rooms: &mut RoomManager,
    conn: &mut ConnectionState,
    journal_id: u128,
    name: String,
    kind: Option<String>,
) -> (r: Vec<ServerMessage>)
    requires
        old(rooms).wf(),
    ensures
        subscribe_handled(*old(rooms), *old(conn), journal_id, name, kind, *final(rooms), *final(conn), r),
{
    let chosen = choose_kind(&kind);
    let _ = rooms.get_or_create(journal_id);
    let ghost rooms1 = rooms.rooms();
    let mut room = match rooms.take(journal_id) {
        Some(room) => room,
        None => JournalRoom::new(journal_id),
    };
    let participant = room.join(name.as_str(), chosen);
    let participants = room.participants();
    rooms.put(room);
    put(&mut conn.subscriptions, journal_id, participant.id);
    proof {
        assert(rooms.rooms().remove(journal_id) =~= old(rooms).rooms().remove(journal_id));
        assert(present_in(rooms1, journal_id) =~= present_in(old(rooms).rooms(), journal_id));
        assert(waiting_in(rooms1, journal_id) =~= waiting_in(old(rooms).rooms(), journal_id));
    }
    one(ServerMessage::Subscribed { journal_id, participant, participants })
}

/// What `handle_unsubscribe` does, as a relation between its arguments, the state
/// after it and its reply `r`.
pub open spec fn unsubscribe_handled(
    rooms: RoomManager,
    conn: ConnectionState,
    journal_id: u128,
    rooms_after: RoomManager,
    conn_after: ConnectionState,
    r: Vec<ServerMessage>,
) -> bool {
    &&& (rooms_after.wf())
    &&& (conn_after.registrations() == conn.registrations())
    &&& (conn_after.subscriptions() == conn.subscriptions().remove(journal_id))
    &&& (rooms_after.rooms().dom() == rooms.rooms().dom())
    &&& (rooms_after.rooms().remove(journal_id) == rooms.rooms().remove(journal_id))
    &&& (r@ == seq![ServerMessage::Unsubscribed { journal_id }])
    &&& (if conn.subscriptions().contains_key(journal_id) {
        let who = conn.subscriptions()[journal_id];
        &&& present_in(rooms_after.rooms(), journal_id) == present_in(
            rooms.rooms(),
            journal_id,
        ).remove(who)
        &&& waiting_in(rooms_after.rooms(), journal_id) == (if present_in(
            rooms.rooms(),
            journal_id,
        ).contains_key(who) {
            waiting_in(rooms.rooms(), journal_id).push(
                RoomEvent::ParticipantLeft { participant_id: who },
            )
        } else {
            waiting_in(rooms.rooms(), journal_id)
        })
    } else {
        rooms_after.rooms() == rooms.rooms()
    })
}

/// Ends the subscription of the connection to a journal: the participant
/// that it subscribed as leaves the room, and the client is told.
pub fn handle_unsubscribe(rooms: &mut RoomManager, conn: &mut ConnectionState, journal_id: u128) -> (r:
    Vec<ServerMessage>)
    requires
        old(rooms).wf(),
    ensures
        unsubscribe_handled(*old(rooms), *old(conn), journal_id, *final(rooms), *final(conn), r),
{
    match take(&mut conn.subscriptions, journal_id) {
        None => {
            proof {
                assert(rooms.rooms().remove(journal_id) =~= old(rooms).rooms().remove(journal_id));
            }
        },
        Some(who) => {
            match rooms.take(journal_id) {
                None => {
                    proof {
                        assert(rooms.rooms() =~= old(rooms).rooms());
                        assert(present_in(old(rooms).rooms(), journal_id).remove(who)
                            =~= present_in(old(rooms).rooms(), journal_id));
                    }
                },
                Some(room) => {
                    let mut room = room;
                    let _ = room.leave(who);
                    rooms.put(room);
                    proof {
                        assert(rooms.rooms().dom() =~= old(rooms).rooms().dom());
                        assert(rooms.rooms().remove(journal_id) =~= old(rooms).rooms().remove(
                            journal_id,
                        ));
                    }
                },
            }
        },
    }
    one(ServerMessage::Unsubscribed { journal_id })
}

/// What `handle_cursor` does, as a relation between its arguments, the state
/// after it and its reply `r`.
pub open spec fn cursor_handled(
    rooms: RoomManager,
    conn: &ConnectionState,
    journal_id: u128,
    block_id: Option<u128>,
    offset: Option<u32>,
    rooms_after: RoomManager,
    r: Vec<ServerMessage>,
) -> bool {
    &&& (rooms_after.wf())
    &&& (r@ == Seq::<ServerMessage>::empty())
    &&& (rooms_after.rooms().dom() == rooms.rooms().dom())
    &&& (rooms_after.rooms().remove(journal_id) == rooms.rooms().remove(journal_id))
    &&& (if conn.subscriptions().contains_key(journal_id) && present_in(
        rooms.rooms(),
        journal_id,
    ).contains_key(conn.subscriptions()[journal_id]) {
        let who = conn.subscriptions()[journal_id];
        let before = present_in(rooms.rooms(), journal_id);
        let after = present_in(rooms_after.rooms(), journal_id);
        &&& after.dom() == before.dom()
        &&& after.remove(who) == before.remove(who)
        &&& after[who] == (Participant {
            cursor_block_id: block_id,
            cursor_offset: offset,
            status: Participant::woken(before[who].status),
            last_seen_at: after[who].last_seen_at,
            ..before[who]
        })
        &&& waiting_in(rooms_after.rooms(), journal_id) == waiting_in(
            rooms.rooms(),
            journal_id,
        ).push(RoomEvent::CursorMoved { participant_id: who, block_id, offset })
    } else {
        present_in(rooms_after.rooms(), journal_id) == present_in(
            rooms.rooms(),
            journal_id,
        ) && waiting_in(rooms_after.rooms(), journal_id) == waiting_in(
            rooms.rooms(),
            journal_id,
        )
    })
}

/// Moves the cursor of the connection in a journal that it subscribed to.
/// Nothing is sent back; the room tells the other subscribers.
pub fn handle_cursor(
    rooms: &mut RoomManager,
    conn: &ConnectionState,
    journal_id: u128,
    block_id: Option<u128>,
    offset: Option<u32>,
) -> (r: Vec<ServerMessage>)
    requires
        old(rooms).wf(),
    ensures
        cursor_handled(*old(rooms), conn, journal_id, block_id, offset, *final(rooms), r),
{
    match conn.subscription(journal_id) {
        None => {
            proof {
                assert(rooms.rooms().remove(journal_id) =~= old(rooms).rooms().remove(journal_id));
            }
        },
        Some(who) => {
            match rooms.take(journal_id) {
                None => {
                    proof {
                        assert(rooms.rooms() =~= old(rooms).rooms());
                    }
                },
                Some(room) => {
                    let mut room = room;
                    let _ = room.update_cursor(who, block_id, offset);
                    rooms.put(room);
                    proof {
                        assert(rooms.rooms().dom() =~= old(rooms).rooms().dom());
                        assert(rooms.rooms().remove(journal_id) =~= old(rooms).rooms().remove(
                            journal_id,
                        ));
                    }
                },
            }
        },
    }
    Vec::new()
}

/// What `handle_get_presence` does, as a relation between its arguments, the state
/// after it and its reply `r`.
pub open spec fn get_presence_handled(
    rooms: &RoomManager,
    journal_id: u128,
    r: Vec<ServerMessage>,
) -> bool {
    &&& (r@.len() == 1)
    &&& (r@[0] matches ServerMessage::Presence { journal_id: j, participants: all } && j
        == journal_id && lists_everyone(all@, present_in(rooms.rooms(), journal_id)))
}

/// Tells who is present in a journal; nobody where the journal has no
/// room.
pub fn handle_get_presence(rooms: &RoomManager, journal_id: u128) -> (r: Vec<ServerMessage>)
    requires
        rooms.wf(),
    ensures
        get_presence_handled(rooms, journal_id, r),
{
    let participants = match rooms.get(journal_id) {
        Some(room) => room.participants(),
        None => Vec::new(),
    };
    proof {
        if !rooms.rooms().contains_key(journal_id) {
            assert(present_in(rooms.rooms(), journal_id).len() == 0);
        }
    }
    one(ServerMessage::Presence { journal_id, participants })
}

/// The participant as whom the connection is subscribed to the journal.
pub open spec fn subscribed_as(conn: &ConnectionState, journal_id: u128) -> Option<u128> {
    if conn.subscriptions().contains_key(journal_id) {
        Some(conn.subscriptions()[journal_id])
    } else {
        None
    }
}

/// What `handle_crdt_update` does, as a relation between its arguments and
/// what it returns: the frames `r` and the update to merge.
pub open spec fn crdt_update_handled(
    rooms: &RoomManager,
    conn: &ConnectionState,
    journal_id: u128,
    update: String,
    r: Vec<ServerMessage>,
    merge: Option<MergeJob>,
) -> bool {
    if !rooms.rooms().contains_key(journal_id) {
        r@ == Seq::<ServerMessage>::empty() && merge is None
    } else {
        match crate::base64::base64_decoded(update@) {
            Err(why) => only_error(r@, "Invalid base64 update: "@ + why) && merge is None,
            Ok(bytes) => r@ == Seq::<ServerMessage>::empty() && (merge matches Some(job)
                && job.journal_id == journal_id && job.source == subscribed_as(conn, journal_id)
                && job.update@ == bytes),
        }
    }
}

/// Takes an update that a client sent in base64 for the shared document
/// of a journal. Without a room for the journal nothing is done. Text
/// that is no base64 is told as an error frame. Else the update is handed
/// out to be merged, with the participant as whom the sender is
/// subscribed.
pub fn handle_crdt_update(
    rooms: &RoomManager,
    conn: &ConnectionState,
    journal_id: u128,
    update: String,
) -> (r: (Vec<ServerMessage>, Option<MergeJob>))
    requires
        rooms.wf(),
    ensures
        crdt_update_handled(rooms, conn, journal_id, update, r.0, r.1),
{
    if rooms.get(journal_id).is_none() {
        return (Vec::new(), None);
    }
    match base64_decode(update.as_str()) {
        Ok(bytes) => {
            let source = conn.subscription(journal_id);
            (Vec::new(), Some(MergeJob { journal_id, source, update: bytes }))
        },
        Err(why) => (
            one(ServerMessage::Error { message: concat("Invalid base64 update: ", why.as_str()) }),
            None,
        ),
    }
}

/// What `complete_merge` does, as a relation between its arguments, the
/// rooms after it and its result.
pub open spec fn merge_completed(
    rooms: RoomManager,
    job: MergeJob,
    merged: JournalDoc,
    rooms_after: RoomManager,
    done: bool,
) -> bool {
    let j = job.journal_id;
    &&& rooms_after.wf()
    &&& done == (rooms.rooms().contains_key(j) && merged.id() == j)
    &&& if done {
        &&& rooms_after.rooms().dom() == rooms.rooms().dom()
        &&& rooms_after.rooms().remove(j) == rooms.rooms().remove(j)
        &&& present_in(rooms_after.rooms(), j) == present_in(rooms.rooms(), j)
        &&& rooms_after.rooms()[j].document() == merged
        &&& waiting_in(rooms_after.rooms(), j) == waiting_in(rooms.rooms(), j).push(
            RoomEvent::CrdtUpdate { source: job.source, update: job.update },
        )
    } else {
        rooms_after.rooms() == rooms.rooms()
    }
}

/// Ends the merge of a client's update: `merged` takes the place of the
/// document of the journal's room, and the room tells its subscribers of
/// the update. `merged` is to be a replica of the room's document that
/// has merged the update of the job; where the journal has no room, or
/// `merged` is the document of another journal, nothing is done.
pub fn complete_merge(rooms: &mut RoomManager, job: MergeJob, merged: JournalDoc) -> (done: bool)
    requires
        old(rooms).wf(),
    ensures
        merge_completed(*old(rooms), job, merged, *final(rooms), done),
{
    if merged.journal_id() != job.journal_id {
        return false;
    }
    match rooms.take(job.journal_id) {
        None => {
            proof {
                assert(rooms.rooms() =~= old(rooms).rooms());
            }
            false
        },
        Some(room) => {
            let mut room = room;
            room.adopt(merged, job.source, job.update);
            rooms.put(room);
            proof {
                assert(rooms.rooms().dom() =~= old(rooms).rooms().dom());
                assert(rooms.rooms().remove(job.journal_id) =~= old(rooms).rooms().remove(
                    job.journal_id,
                ));
            }
            true
        },
    }
}

/// Whether a request for the state of a shared document gets an answer:
/// the journal has a room, and the client sent no state vector, or one
/// that is no base64, or one that the document can read.
pub open spec fn sync_answered(
    rooms: Map<u128, JournalRoom>,
    journal_id: u128,
    state_vector: Option<String>,
) -> bool {
    rooms.contains_key(journal_id) && (match state_vector {
        None => true,
        Some(text) => match crate::base64::base64_decoded(text@) {
            Err(_) => true,
            Ok(bytes) => crate::crdt::journal_doc::vector_read(bytes),
        },
    })
}

/// Whether `bytes` are what the room answers a request for its state
/// with: what a replica with the client's state vector lacks, where the
/// client sent a vector in base64; else the whole state of the document,
/// from which a new document can start.
pub open spec fn sync_carried(room: JournalRoom, state_vector: Option<String>, bytes: Seq<u8>) -> bool {
    &&& crate::crdt::journal_doc::update_read(bytes)
    &&& match state_vector {
        Some(text) => match crate::base64::base64_decoded(text@) {
            Ok(sv) => room.carries_missing(sv, bytes),
            Err(_) => crate::crdt::journal_doc::starts_document(bytes) && room.holds_state(bytes),
        },
        None => crate::crdt::journal_doc::starts_document(bytes) && room.holds_state(bytes),
    }
}

/// What `handle_sync_request` does, as a relation between its arguments, the state
/// after it and its reply `r`.
pub open spec fn sync_request_handled(
    rooms: &RoomManager,
    journal_id: u128,
    state_vector: Option<String>,
    r: Vec<ServerMessage>,
) -> bool {
    &&& (r@.len() == (if sync_answered(rooms.rooms(), journal_id, state_vector) {
        1nat
    } else {
        0nat
    }))
    &&& (r@.len() == 1 ==> (r@[0] matches ServerMessage::SyncState { journal_id: j, state } && j
        == journal_id && exists|bytes: Seq<u8>| #[trigger]
        sync_carried(rooms.rooms()[journal_id], state_vector, bytes) && state@
            == crate::base64::base64_text(bytes)))
}

/// Answers a request for the state of the shared document of a journal
/// that has a room: with what is missing beyond the client's state
/// vector, or with the whole state where the client sent no vector or one
/// that is no base64. A vector that the document cannot read gets no
/// answer, as does a journal without a room.
pub fn handle_sync_request(rooms: &RoomManager, journal_id: u128, state_vector: Option<String>) -> (r:
    Vec<ServerMessage>)
    requires
        rooms.wf(),
    ensures
        sync_request_handled(rooms, journal_id, state_vector, r),
{
    match rooms.get(journal_id) {
        None => Vec::new(),
        Some(room) => {
            let data = match state_vector {
                None => Some(room.get_sync_state()),
                Some(text) => match base64_decode(text.as_str()) {
                    Err(_) => Some(room.get_sync_state()),
                    Ok(bytes) => match room.encode_diff(bytes.as_slice()) {
                        Ok(diff) => Some(diff),
                        Err(_) => None,
                    },
                },
            };
            match data {
                Some(bytes) => {
                    proof {
                        assert(sync_carried(*room, state_vector, bytes@));
                    }
                    one(
                        ServerMessage::SyncState {
                            journal_id,
                            state: base64_encode(bytes.as_slice()),
                        },
                    )
                },
                None => Vec::new(),
            }
        },
    }
}

/// The capabilities that a list of texts names; texts that name none are
/// passed over.
pub open spec fn named_capabilities(list: Seq<String>) -> Set<Capability> {
    Set::new(
        |c: Capability|
            exists|i: int|
                0 <= i < list.len() && #[trigger] crate::delegation::capability::capability_named(
                    list[i]@,
                ) == Some(c),
    )
}

fn read_capabilities(list: &Vec<String>) -> (r: CapabilitySet)
    ensures
        r@ == named_capabilities(list@),
{
    let mut found: Vec<Capability> = Vec::new();
    let mut i: usize = 0;
    while i < list.len()
        invariant
            i <= list@.len(),
            found@.to_set() == named_capabilities(list@.take(i as int)),
        decreases list@.len() - i,
    {
        let ghost before = found@;
        let ghost seen = list@.take(i as int);
        let ghost seen2 = list@.take(i + 1);
        proof {
            assert(seen2 =~= seen.push(list@[i as int]));
        }
        match Capability::parse(list[i].as_str()) {
            Ok(c) => {
                found.push(c);
                proof {
                    assert forall|x: Capability| found@.to_set().contains(x)
                        <==> named_capabilities(seen2).contains(x) by {
                        if found@.to_set().contains(x) {
                            let k = choose|k: int| 0 <= k < found@.len() && found@[k] == x;
                            if k < before.len() {
                                assert(before[k] == x);
                                assert(before.to_set().contains(x));
                                let a = choose|a: int|
                                    0 <= a < seen.len()
                                        && #[trigger] crate::delegation::capability::capability_named(
                                        seen[a]@,
                                    ) == Some(x);
                                assert(seen2[a] == seen[a]);
                            } else {
                                assert(crate::delegation::capability::capability_named(
                                    seen2[i as int]@,
                                ) == Some(x));
                            }
                        }
                        if named_capabilities(seen2).contains(x) {
                            let a = choose|a: int|
                                0 <= a < seen2.len()
                                    && #[trigger] crate::delegation::capability::capability_named(
                                    seen2[a]@,
                                ) == Some(x);
                            if a < i {
                                assert(seen[a] == seen2[a]);
                                assert(named_capabilities(seen).contains(x));
                                assert(before.to_set().contains(x));
                                let k = choose|k: int| 0 <= k < before.len() && before[k] == x;
                                assert(found@[k] == x);
                            } else {
                                assert(found@[before.len() as int] == x);
                            }
                        }
                    }
                    assert(found@.to_set() =~= named_capabilities(seen2));
                }
            },
            Err(_) => {
                proof {
                    assert forall|x: Capability| named_capabilities(seen).contains(x)
                        <==> named_capabilities(seen2).contains(x) by {
                        if named_capabilities(seen).contains(x) {
                            let a = choose|a: int|
                                0 <= a < seen.len()
                                    && #[trigger] crate::delegation::capability::capability_named(
                                    seen[a]@,
                                ) == Some(x);
                            assert(seen2[a] == seen[a]);
                        }
                        if named_capabilities(seen2).contains(x) {
                            let a = choose|a: int|
                                0 <= a < seen2.len()
                                    && #[trigger] crate::delegation::capability::capability_named(
                                    seen2[a]@,
                                ) == Some(x);
                            assert(a < i);
                            assert(seen[a] == seen2[a]);
                        }
                    }
                    assert(named_capabilities(seen) =~= named_capabilities(seen2));
                }
            },
        }
        i = i + 1;
    }
    proof {
        assert(list@.take(i as int) =~= list@);
    }
    CapabilitySet::from_set(found)
}

/// Whether `names` are the wire names of the members of `set`, each once.
pub open spec fn names_members(names: Seq<String>, set: Set<Capability>) -> bool {
    exists|listed: Seq<Capability>|
        #![trigger listed.to_set()]
        listed.to_set() == set && listed.no_duplicates() && names.len() == listed.len()
            && forall|i: int| 0 <= i < names.len() ==> (#[trigger] names[i])@ == listed[i].name()
}

fn capability_names(set: &CapabilitySet) -> (r: Vec<String>)
    ensures
        names_members(r@, set@),
{
    let listed = set.to_vec();
    let mut out: Vec<String> = Vec::new();
    let mut i: usize = 0;
    while i < listed.len()
        invariant
            i <= listed@.len(),
            out@.len() == i,
            forall|k: int| 0 <= k < i ==> (#[trigger] out@[k])@ == listed@[k].name(),
        decreases listed@.len() - i,
    {
        out.push(owned(listed[i].as_str()));
        i = i + 1;
    }
    proof {
        assert(listed@.to_set() == set@);
    }
    out
}

/// What `handle_register_participant` does, as a relation between its arguments, the state
/// after it and its reply `r`.
pub open spec fn register_participant_handled(
    manager: DelegationManager,
    conn: ConnectionState,
    journal_id: u128,
    name: String,
    kind: Option<String>,
    capabilities: Option<Vec<String>>,
    manager_after: DelegationManager,
    conn_after: ConnectionState,
    r: Vec<ServerMessage>,
) -> bool {
    &&& (manager_after.wf())
    &&& (conn_after.subscriptions() == conn.subscriptions())
    &&& (manager_after.items() == manager.items())
    &&& (manager_after.requests() == manager.requests())
    &&& (r@.len() == 1)
    &&& (r@[0] matches ServerMessage::ParticipantRegistered {
        participant_id: who,
        name: shown,
        kind: kind_name,
        capabilities: names,
    } && {
        let granted = match capabilities {
            Some(list) => named_capabilities(list@),
            None => crate::delegation::participant::default_capabilities(chosen_kind(kind)),
        };
        &&& shown@ == name@
        &&& kind_name@ == chosen_kind(kind).name()
        &&& names_members(names@, granted)
        &&& conn_after.registrations() == conn.registrations().insert(journal_id, who)
        &&& manager_after.participants().contains_key(who)
        &&& manager_after.participants().remove(who) == manager.participants().remove(
            who,
        )
        &&& manager_after.participants()[who].capabilities@ == granted
        &&& manager_after.participants()[who].participant.joined(
            who,
            name@,
            chosen_kind(kind),
        )
        &&& manager_after.participants()[who].receives_work() == (chosen_kind(kind)
            != ParticipantKind::Observer)
    })
}

/// Registers the connection with the delegation engine, under a fresh
/// identifier: with the capabilities that the client names, or with those
/// of the participant's kind where it names none. The connection notes
/// whom it registered as for the journal, and the client is told.
pub fn handle_register_participant(
    manager: &mut DelegationManager,
    conn: &mut ConnectionState,
    journal_id: u128,
    name: String,
    kind: Option<String>,
    capabilities: Option<Vec<String>>,
) -> (r: Vec<ServerMessage>)
    requires
        old(manager).wf(),
    ensures
        register_participant_handled(*old(manager), *old(conn), journal_id, name, kind, capabilities, *final(manager), *final(conn), r),
{
    let chosen = choose_kind(&kind);
    let participant = Participant::new(name.as_str(), chosen);
    let registered = match capabilities {
        Some(list) => {
            let set = read_capabilities(&list);
            manager.register_participant_with_capabilities(participant, set)
        },
        None => manager.register_participant(participant),
    };
    let who = registered.id();
    put(&mut conn.delegation_registrations, journal_id, who);
    one(
        ServerMessage::ParticipantRegistered {
            participant_id: who,
            name: owned(registered.name()),
            kind: owned(registered.kind().as_str()),
            capabilities: capability_names(&registered.capabilities),
        },
    )
}

/// What is said to a connection that acts on the delegation engine
/// without having registered.
pub open spec fn not_registered() -> Seq<char> {
    "Not registered with delegation system"@
}

/// The priority that a client asks for, if it names one.
pub open spec fn chosen_priority(priority: Option<String>) -> Option<WorkPriority> {
    match priority {
        Some(p) => crate::delegation::work_item::work_priority_named(p@),
        None => None,
    }
}

fn choose_priority(priority: &Option<String>) -> (r: Option<WorkPriority>)
    ensures
        r == chosen_priority(*priority),
{
    match priority {
        Some(p) => match WorkPriority::parse(p.as_str()) {
            Ok(named) => Some(named),
            Err(_) => None,
        },
        None => None,
    }
}

/// What `handle_delegate` does, as a relation between its arguments, the state
/// after it and its reply `r`.
pub open spec fn delegate_handled(
    manager: DelegationManager,
    conn: &ConnectionState,
    journal_id: u128,
    description: String,
    assignee_id: u128,
    priority: Option<String>,
    requires_approval: bool,
    approver_id: Option<u128>,
    manager_after: DelegationManager,
    r: Vec<ServerMessage>,
) -> bool {
    &&& (manager_after.wf())
    &&& (r@.len() == 1)
    &&& (if !conn.registrations().contains_key(journal_id) {
        only_error(r@, not_registered()) && manager_after == manager
    } else {
        let delegator_id = conn.registrations()[journal_id];
        match r@[0] {
            ServerMessage::WorkDelegated { work_item } => manager.delegate_guard(
                delegator_id,
                assignee_id,
                work_item.id,
            ) is None && manager_after.delegated(
                &manager,
                work_item,
                work_item.created_at,
                journal_id,
                description@,
                delegator_id,
                assignee_id,
                chosen_priority(priority),
                requires_approval,
                approver_id,
            ),
            ServerMessage::Error { message } => manager_after == manager && exists|
                id: u128,
            | #[trigger]
                manager.delegate_guard(delegator_id, assignee_id, id) is Some
                    && message@ == refusal_text(
                    manager.delegate_guard(delegator_id, assignee_id, id)->0,
                ),
            _ => false,
        }
    })
}

/// Delegates work in the name of the participant that the connection
/// registered for the journal. The client is told of the new work item,
/// or why the delegation was refused.
pub fn handle_delegate(
    manager: &mut DelegationManager,
    conn: &ConnectionState,
    journal_id: u128,
    description: String,
    assignee_id: u128,
    priority: Option<String>,
    requires_approval: bool,
    approver_id: Option<u128>,
) -> (r: Vec<ServerMessage>)
    requires
        old(manager).wf(),
    ensures
        delegate_handled(*old(manager), conn, journal_id, description, assignee_id, priority, requires_approval, approver_id, *final(manager), r),
{
    let delegator_id = match conn.registration(journal_id) {
        Some(id) => id,
        None => {
            return one(plain_error("Not registered with delegation system"));
        },
    };
    let wanted = choose_priority(&priority);
    match manager.delegate(
        journal_id,
        description.as_str(),
        delegator_id,
        assignee_id,
        wanted,
        requires_approval,
        approver_id,
    ) {
        Ok(work_item) => one(ServerMessage::WorkDelegated { work_item }),
        Err(e) => {
            proof {
                let id = choose|id: u128| #[trigger]
                    old(manager).delegate_guard(delegator_id, assignee_id, id) == Some(e@);
                assert(old(manager).delegate_guard(delegator_id, assignee_id, id) is Some);
            }
            one(refusal_frame(&e))
        },
    }
}

/// Whether the connection acts as `who`: one of the participants that it
/// registered.
pub open spec fn acts_as(conn: &ConnectionState, who: u128) -> bool {
    conn.registered_as(who)
}

/// Whether a reply is what the step of an assignee came to: the frame
/// `done` where the engine took the step, and the engine's refusal where
/// it did not.
pub open spec fn answered(
    guard: Option<Refusal>,
    unchanged: bool,
    reply: Seq<ServerMessage>,
    done: ServerMessage,
) -> bool {
    reply.len() == 1 && (match guard {
        Some(refusal) => is_error(reply[0], refusal_text(refusal)) && unchanged,
        None => reply[0] == done,
    })
}

/// What `handle_accept_work` does, as a relation between its arguments, the state
/// after it and its reply `r`.
pub open spec fn accept_work_handled(
    manager: DelegationManager,
    conn: &ConnectionState,
    work_item_id: u128,
    manager_after: DelegationManager,
    r: Vec<ServerMessage>,
) -> bool {
    &&& (manager_after.wf())
    &&& (if conn.registrations() == Map::<u128, u128>::empty() {
        only_error(r@, not_registered()) && manager_after == manager
    } else {
        exists|who: u128| #[trigger]
            acts_as(conn, who) && answered(
                manager.assignee_guard(WorkAction::Accept, work_item_id, who),
                manager_after == manager,
                r@,
                ServerMessage::WorkAccepted { work_item_id, assignee_id: who },
            ) && (manager.assignee_guard(WorkAction::Accept, work_item_id, who) is None
                ==> manager_after.items().contains_key(work_item_id) && manager_after.items()[work_item_id].status == WorkItemStatus::InProgress && !manager_after.work_queue(who).contains(work_item_id))
    })
}

/// Accepts work in the name of the connection.
pub fn handle_accept_work(manager: &mut DelegationManager, conn: &ConnectionState, work_item_id: u128) -> (r:
    Vec<ServerMessage>)
    requires
        old(manager).wf(),
    ensures
        accept_work_handled(*old(manager), conn, work_item_id, *final(manager), r),
{
    let who = match conn.acting_participant() {
        Some(id) => id,
        None => {
            return one(plain_error("Not registered with delegation system"));
        },
    };
    let r = match manager.accept_work(work_item_id, who) {
        Ok(_) => {
            proof {
                manager.lemma_work_queue_membership(work_item_id, who);
            }
            one(ServerMessage::WorkAccepted { work_item_id, assignee_id: who })
        },
        Err(e) => one(refusal_frame(&e)),
    };
    proof {
        assert(acts_as(conn, who));
        assert(conn.registrations().contains_key(choose|j: u128| #[trigger]
            conn.registrations().contains_key(j) && conn.registrations()[j] == who));
    }
    r
}

/// What `handle_decline_work` does, as a relation between its arguments, the state
/// after it and its reply `r`.
pub open spec fn decline_work_handled(
    manager: DelegationManager,
    conn: &ConnectionState,
    work_item_id: u128,
    manager_after: DelegationManager,
    r: Vec<ServerMessage>,
) -> bool {
    &&& (manager_after.wf())
    &&& (if conn.registrations() == Map::<u128, u128>::empty() {
        only_error(r@, not_registered()) && manager_after == manager
    } else {
        exists|who: u128| #[trigger]
            acts_as(conn, who) && answered(
                manager.assignee_guard(WorkAction::Decline, work_item_id, who),
                manager_after == manager,
                r@,
                ServerMessage::WorkDeclined { work_item_id, assignee_id: who },
            ) && (manager.assignee_guard(WorkAction::Decline, work_item_id, who) is None
                ==> manager_after.items().contains_key(work_item_id) && manager_after.items()[work_item_id].status == WorkItemStatus::Declined && !manager_after.work_queue(who).contains(work_item_id))
    })
}

/// Declines work in the name of the connection.
pub fn handle_decline_work(manager: &mut DelegationManager, conn: &ConnectionState, work_item_id: u128) -> (r:
    Vec<ServerMessage>)
    requires
        old(manager).wf(),
    ensures
        decline_work_handled(*old(manager), conn, work_item_id, *final(manager), r),
{
    let who = match conn.acting_participant() {
        Some(id) => id,
        None => {
            return one(plain_error("Not registered with delegation system"));
        },
    };
    let r = match manager.decline_work(work_item_id, who) {
        Ok(_) => {
            proof {
                manager.lemma_work_queue_membership(work_item_id, who);
            }
            one(ServerMessage::WorkDeclined { work_item_id, assignee_id: who })
        },
        Err(e) => one(refusal_frame(&e)),
    };
    proof {
        assert(acts_as(conn, who));
        assert(conn.registrations().contains_key(choose|j: u128| #[trigger]
            conn.registrations().contains_key(j) && conn.registrations()[j] == who));
    }
    r
}

/// What `handle_cancel_work` does, as a relation between its arguments, the state
/// after it and its reply `r`.
pub open spec fn cancel_work_handled(
    manager: DelegationManager,
    conn: &ConnectionState,
    work_item_id: u128,
    manager_after: DelegationManager,
    r: Vec<ServerMessage>,
) -> bool {
    &&& (manager_after.wf())
    &&& (if conn.registrations() == Map::<u128, u128>::empty() {
        only_error(r@, not_registered()) && manager_after == manager
    } else {
        exists|who: u128| #[trigger]
            acts_as(conn, who) && answered(
                manager.cancel_guard(work_item_id, who),
                manager_after == manager,
                r@,
                ServerMessage::WorkCancelled { work_item_id, cancelled_by: who },
            ) && (manager.cancel_guard(work_item_id, who) is None ==> manager_after.items().contains_key(work_item_id) && manager_after.items()[work_item_id].status
                == WorkItemStatus::Cancelled)
    })
}

/// Cancels work in the name of the connection.
pub fn handle_cancel_work(manager: &mut DelegationManager, conn: &ConnectionState, work_item_id: u128) -> (r:
    Vec<ServerMessage>)
    requires
        old(manager).wf(),
    ensures
        cancel_work_handled(*old(manager), conn, work_item_id, *final(manager), r),
{
    let who = match conn.acting_participant() {
        Some(id) => id,
        None => {
            return one(plain_error("Not registered with delegation system"));
        },
    };
    let r = match manager.cancel_work(work_item_id, who) {
        Ok(_) => one(ServerMessage::WorkCancelled { work_item_id, cancelled_by: who }),
        Err(e) => one(refusal_frame(&e)),
    };
    proof {
        assert(acts_as(conn, who));
        assert(conn.registrations().contains_key(choose|j: u128| #[trigger]
            conn.registrations().contains_key(j) && conn.registrations()[j] == who));
    }
    r
}

/// What `handle_claim_work` does, as a relation between its arguments, the state
/// after it and its reply `r`.
pub open spec fn claim_work_handled(
    manager: DelegationManager,
    conn: &ConnectionState,
    work_item_id: u128,
    manager_after: DelegationManager,
    r: Vec<ServerMessage>,
) -> bool {
    &&& (manager_after.wf())
    &&& (if conn.registrations() == Map::<u128, u128>::empty() {
        only_error(r@, not_registered()) && manager_after == manager
    } else {
        exists|who: u128| #[trigger]
            acts_as(conn, who) && answered(
                manager.claim_guard(work_item_id, who),
                manager_after == manager,
                r@,
                ServerMessage::WorkClaimed { work_item_id, claimed_by: who },
            ) && (manager.claim_guard(work_item_id, who) is None ==> manager_after.items().contains_key(work_item_id) && manager_after.items()[work_item_id].assignee_id == who && manager_after.work_queue(
                who,
            ).contains(work_item_id))
    })
}

/// Claims pending work in the name of the connection.
pub fn handle_claim_work(manager: &mut DelegationManager, conn: &ConnectionState, work_item_id: u128) -> (r:
    Vec<ServerMessage>)
    requires
        old(manager).wf(),
    ensures
        claim_work_handled(*old(manager), conn, work_item_id, *final(manager), r),
{
    let who = match conn.acting_participant() {
        Some(id) => id,
        None => {
            return one(plain_error("Not registered with delegation system"));
        },
    };
    let r = match manager.claim_work(work_item_id, who) {
        Ok(_) => {
            proof {
                manager.lemma_work_queue_membership(work_item_id, who);
            }
            one(ServerMessage::WorkClaimed { work_item_id, claimed_by: who })
        },
        Err(e) => one(refusal_frame(&e)),
    };
    proof {
        assert(acts_as(conn, who));
        assert(conn.registrations().contains_key(choose|j: u128| #[trigger]
            conn.registrations().contains_key(j) && conn.registrations()[j] == who));
    }
    r
}

/// What `handle_set_accepting_work` does, as a relation between its arguments, the state
/// after it and its reply `r`.
pub open spec fn set_accepting_work_handled(
    manager: DelegationManager,
    conn: &ConnectionState,
    accepting: bool,
    manager_after: DelegationManager,
    r: Vec<ServerMessage>,
) -> bool {
    &&& (manager_after.wf())
    &&& (if conn.registrations() == Map::<u128, u128>::empty() {
        only_error(r@, not_registered()) && manager_after == manager
    } else {
        exists|who: u128| #[trigger]
            acts_as(conn, who) && answered(
                if manager.participants().contains_key(who) {
                    None
                } else {
                    Some(Refusal::ParticipantNotFound(who))
                },
                manager_after == manager,
                r@,
                ServerMessage::AcceptingWorkChanged { participant_id: who, accepting },
            ) && (manager.participants().contains_key(who) ==> manager_after.participants().contains_key(who) && manager_after.participants()[who].accepting_work == accepting)
    })
}

/// Says in the name of the connection whether it accepts work.
pub fn handle_set_accepting_work(manager: &mut DelegationManager, conn: &ConnectionState, accepting: bool) -> (r:
    Vec<ServerMessage>)
    requires
        old(manager).wf(),
    ensures
        set_accepting_work_handled(*old(manager), conn, accepting, *final(manager), r),
{
    let who = match conn.acting_participant() {
        Some(id) => id,
        None => {
            return one(plain_error("Not registered with delegation system"));
        },
    };
    let r = match manager.set_accepting_work(who, accepting) {
        Ok(_) => one(ServerMessage::AcceptingWorkChanged { participant_id: who, accepting }),
        Err(e) => one(refusal_frame(&e)),
    };
    proof {
        assert(acts_as(conn, who));
        assert(conn.registrations().contains_key(choose|j: u128| #[trigger]
            conn.registrations().contains_key(j) && conn.registrations()[j] == who));
    }
    r
}

/// What `handle_approve_work` does, as a relation between its arguments, the state
/// after it and its reply `r`.
pub open spec fn approve_work_handled(
    manager: DelegationManager,
    conn: &ConnectionState,
    approval_id: u128,
    feedback: Option<String>,
    manager_after: DelegationManager,
    r: Vec<ServerMessage>,
) -> bool {
    &&& (manager_after.wf())
    &&& (if conn.registrations() == Map::<u128, u128>::empty() {
        only_error(r@, not_registered()) && manager_after == manager
    } else {
        exists|who: u128| #[trigger]
            acts_as(conn, who) && answered(
                manager.decide_guard(true, approval_id, who),
                manager_after == manager,
                r@,
                ServerMessage::WorkApproved {
                    work_item_id: manager.requests()[approval_id].work_item_id,
                    approver_id: who,
                    feedback,
                },
            ) && (manager.decide_guard(true, approval_id, who) is None ==> {
                let w = manager.requests()[approval_id].work_item_id;
                &&& manager_after.items().contains_key(w)
                &&& manager_after.items()[w].status == WorkItemStatus::Approved
                &&& manager_after.requests()[approval_id].status
                    == crate::delegation::work_item::ApprovalStatus::Approved
            })
    })
}

/// Approves submitted work in the name of the connection.
pub fn handle_approve_work(
    manager: &mut DelegationManager,
    conn: &ConnectionState,
    approval_id: u128,
    feedback: Option<String>,
) -> (r: Vec<ServerMessage>)
    requires
        old(manager).wf(),
    ensures
        approve_work_handled(*old(manager), conn, approval_id, feedback, *final(manager), r),
{
    let who = match conn.acting_participant() {
        Some(id) => id,
        None => {
            return one(plain_error("Not registered with delegation system"));
        },
    };
    let shown = feedback.clone();
    proof {
        manager.lemma_filed(manager.requests()[approval_id].work_item_id, approval_id);
    }
    let r = match manager.approve(approval_id, who, feedback) {
        Ok((_, work_item)) => one(
            ServerMessage::WorkApproved {
                work_item_id: work_item.id,
                approver_id: who,
                feedback: shown,
            },
        ),
        Err(e) => one(refusal_frame(&e)),
    };
    proof {
        assert(acts_as(conn, who));
        assert(conn.registrations().contains_key(choose|j: u128| #[trigger]
            conn.registrations().contains_key(j) && conn.registrations()[j] == who));
    }
    r
}

/// What `handle_reject_work` does, as a relation between its arguments, the state
/// after it and its reply `r`.
pub open spec fn reject_work_handled(
    manager: DelegationManager,
    conn: &ConnectionState,
    approval_id: u128,
    feedback: String,
    manager_after: DelegationManager,
    r: Vec<ServerMessage>,
) -> bool {
    &&& (manager_after.wf())
    &&& (if conn.registrations() == Map::<u128, u128>::empty() {
        only_error(r@, not_registered()) && manager_after == manager
    } else {
        exists|who: u128| #[trigger]
            acts_as(conn, who) && answered(
                manager.decide_guard(false, approval_id, who),
                manager_after == manager,
                r@,
                ServerMessage::WorkRejected {
                    work_item_id: manager.requests()[approval_id].work_item_id,
                    approver_id: who,
                    feedback,
                },
            ) && (manager.decide_guard(false, approval_id, who) is None ==> {
                let w = manager.requests()[approval_id].work_item_id;
                &&& manager_after.items().contains_key(w)
                &&& manager_after.items()[w].status == WorkItemStatus::Rejected
                &&& manager_after.work_queue(manager_after.items()[w].assignee_id).contains(
                    w,
                )
                &&& manager_after.requests()[approval_id].status
                    == crate::delegation::work_item::ApprovalStatus::Rejected
            })
    })
}

/// Rejects submitted work in the name of the connection.
pub fn handle_reject_work(
    manager: &mut DelegationManager,
    conn: &ConnectionState,
    approval_id: u128,
    feedback: String,
) -> (r: Vec<ServerMessage>)
    requires
        old(manager).wf(),
    ensures
        reject_work_handled(*old(manager), conn, approval_id, feedback, *final(manager), r),
{
    let who = match conn.acting_participant() {
        Some(id) => id,
        None => {
            return one(plain_error("Not registered with delegation system"));
        },
    };
    proof {
        manager.lemma_filed(manager.requests()[approval_id].work_item_id, approval_id);
    }
    let r = match manager.reject(approval_id, who, feedback.as_str()) {
        Ok((_, work_item)) => {
            proof {
                manager.lemma_work_queue_membership(work_item.id, work_item.assignee_id);
            }
            one(
                ServerMessage::WorkRejected { work_item_id: work_item.id, approver_id: who, feedback },
            )
        },
        Err(e) => one(refusal_frame(&e)),
    };
    proof {
        assert(acts_as(conn, who));
        assert(conn.registrations().contains_key(choose|j: u128| #[trigger]
            conn.registrations().contains_key(j) && conn.registrations()[j] == who));
    }
    r
}

/// What `handle_submit_work` does, as a relation between its arguments, the state
/// after it and its reply `r`.
pub open spec fn submit_work_handled(
    manager: DelegationManager,
    conn: &ConnectionState,
    work_item_id: u128,
    result: String,
    manager_after: DelegationManager,
    r: Vec<ServerMessage>,
) -> bool {
    &&& (manager_after.wf())
    &&& (r@.len() == 1)
    &&& (if conn.registrations() == Map::<u128, u128>::empty() {
        only_error(r@, not_registered()) && manager_after == manager
    } else {
        exists|who: u128| #[trigger]
            acts_as(conn, who) && (match r@[0] {
                ServerMessage::Error { message } => manager_after == manager
                    && exists|approval_id: u128| #[trigger]
                    manager.submit_guard(work_item_id, who, approval_id) is Some
                        && message@ == refusal_text(
                        manager.submit_guard(work_item_id, who, approval_id)->0,
                    ),
                ServerMessage::ApprovalRequested { approval, work_item } => {
                    &&& manager.assignee_guard(WorkAction::Submit, work_item_id, who)
                        is None
                    &&& manager.items()[work_item_id].requires_approval
                    &&& manager_after.items().contains_key(work_item_id)
                    &&& work_item == manager_after.items()[work_item_id]
                    &&& work_item.status == WorkItemStatus::AwaitingApproval
                    &&& work_item.result matches Some(text) && text@ == result@
                    &&& manager_after.requests().contains_key(approval.id)
                    &&& approval == manager_after.requests()[approval.id]
                    &&& approval.opened(approval.id, work_item)
                    &&& manager_after.approval_queue(approval.approver_id).contains(
                        approval.id,
                    )
                },
                ServerMessage::WorkApproved { work_item_id: w, approver_id, feedback } => {
                    &&& manager.assignee_guard(WorkAction::Submit, work_item_id, who)
                        is None
                    &&& !manager.items()[work_item_id].requires_approval
                    &&& w == work_item_id
                    &&& approver_id == manager.items()[work_item_id].delegator_id
                    &&& feedback is None
                    &&& manager_after.items().contains_key(work_item_id)
                    &&& manager_after.items()[work_item_id].status
                        == WorkItemStatus::Approved
                    &&& manager_after.items()[work_item_id].result matches Some(text)
                        && text@ == result@
                },
                _ => false,
            })
    })
}

/// Hands in work in the name of the connection. Where the work needs
/// approval the client is shown the request that now waits for the
/// approver; where it does not, the client is told that the work is
/// approved.
pub fn handle_submit_work(
    manager: &mut DelegationManager,
    conn: &ConnectionState,
    work_item_id: u128,
    result: String,
) -> (r: Vec<ServerMessage>)
    requires
        old(manager).wf(),
    ensures
        submit_work_handled(*old(manager), conn, work_item_id, result, *final(manager), r),
{
    let who = match conn.acting_participant() {
        Some(id) => id,
        None => {
            return one(plain_error("Not registered with delegation system"));
        },
    };
    proof {
        assert(acts_as(conn, who));
        assert(conn.registrations().contains_key(choose|j: u128| #[trigger]
            conn.registrations().contains_key(j) && conn.registrations()[j] == who));
        manager.lemma_filed(work_item_id, 0);
    }
    match manager.submit_work(work_item_id, who, result.as_str()) {
        Err(e) => {
            proof {
                let approval_id = choose|approval_id: u128| #[trigger]
                    old(manager).submit_guard(work_item_id, who, approval_id) == Some(e@);
                assert(old(manager).submit_guard(work_item_id, who, approval_id) is Some);
            }
            one(refusal_frame(&e))
        },
        Ok(work_item) => {
            let ghost (approval_id, at) = choose|approval_id: u128, at: crate::clock::Timestamp| #[trigger]
                manager.submitted(old(manager), work_item, result@, approval_id, at);
            match work_item.status {
                WorkItemStatus::AwaitingApproval => {
                    let waiting = manager.get_approval_queue(work_item.get_approver_id());
                    let ghost queue = manager.approval_queue(work_item.approver());
                    proof {
                        assert(queue[queue.len() - 1] == approval_id);
                        assert(waiting@[waiting@.len() - 1] == manager.requests()[approval_id]);
                    }
                    let mut i: usize = 0;
                    while i < waiting.len() && waiting[i].work_item_id != work_item_id
                        invariant
                            i <= waiting@.len(),
                            waiting@.len() > 0,
                            waiting@[waiting@.len() - 1].work_item_id == work_item_id,
                            forall|j: int|
                                0 <= j < i ==> (#[trigger] waiting@[j]).work_item_id
                                    != work_item_id,
                        decreases waiting@.len() - i,
                    {
                        i = i + 1;
                    }
                    proof {
                        assert(i < waiting@.len());
                        assert(waiting@[i as int] == manager.requests()[queue[i as int]]);
                        manager.lemma_approval_queue_entries(work_item.approver(), i as int);
                        manager.lemma_one_pending_request(queue[i as int], approval_id);
                        manager.lemma_approval_queue_membership(approval_id, work_item.approver());
                    }
                    let approval = waiting[i].duplicate();
                    one(ServerMessage::ApprovalRequested { approval, work_item })
                },
                _ => {
                    let approver_id = work_item.delegator_id;
                    one(
                        ServerMessage::WorkApproved { work_item_id, approver_id, feedback: None },
                    )
                },
            }
        },
    }
}

/// What `handle_get_work_queue` does, as a relation between its arguments, the state
/// after it and its reply `r`.
pub open spec fn get_work_queue_handled(
    manager: &DelegationManager,
    conn: &ConnectionState,
    r: Vec<ServerMessage>,
) -> bool {
    &&& (r@.len() == 1)
    &&& (r@[0] matches ServerMessage::WorkQueue { items } && (if conn.registrations() == Map::<
        u128,
        u128,
    >::empty() {
        items@.len() == 0
    } else {
        exists|who: u128| #[trigger]
            acts_as(conn, who) && items@.len() == manager.work_queue(who).len() && forall|
                i: int,
            |
                0 <= i < items@.len() ==> #[trigger] items@[i] == manager.items()[manager.work_queue(
                    who,
                )[i]]
    }))
}

/// Shows the work that waits for the connection, oldest first; nothing
/// where the connection has not registered.
pub fn handle_get_work_queue(manager: &DelegationManager, conn: &ConnectionState) -> (r: Vec<
    ServerMessage,
>)
    requires
        manager.wf(),
    ensures
        get_work_queue_handled(manager, conn, r),
{
    let items = match conn.acting_participant() {
        Some(who) => {
            proof {
                assert(acts_as(conn, who));
                assert(conn.registrations().contains_key(choose|j: u128| #[trigger]
                    conn.registrations().contains_key(j) && conn.registrations()[j] == who));
            }
            manager.get_work_queue(who)
        },
        None => Vec::new(),
    };
    one(ServerMessage::WorkQueue { items })
}

/// What `handle_get_approval_queue` does, as a relation between its arguments, the state
/// after it and its reply `r`.
pub open spec fn get_approval_queue_handled(
    manager: &DelegationManager,
    conn: &ConnectionState,
    r: Vec<ServerMessage>,
) -> bool {
    &&& (r@.len() == 1)
    &&& (r@[0] matches ServerMessage::ApprovalQueue { items } && (if conn.registrations() == Map::<
        u128,
        u128,
    >::empty() {
        items@.len() == 0
    } else {
        exists|who: u128| #[trigger]
            acts_as(conn, who) && items@.len() == manager.approval_queue(who).len() && forall|
                i: int,
            |
                0 <= i < items@.len() ==> #[trigger] items@[i]
                    == manager.requests()[manager.approval_queue(who)[i]]
    }))
}

/// Shows the approval requests that wait for the connection, oldest
/// first; nothing where the connection has not registered.
pub fn handle_get_approval_queue(manager: &DelegationManager, conn: &ConnectionState) -> (r: Vec<
    ServerMessage,
>)
    requires
        manager.wf(),
    ensures
        get_approval_queue_handled(manager, conn, r),
{
    let items = match conn.acting_participant() {
        Some(who) => {
            proof {
                assert(acts_as(conn, who));
                assert(conn.registrations().contains_key(choose|j: u128| #[trigger]
                    conn.registrations().contains_key(j) && conn.registrations()[j] == who));
            }
            manager.get_approval_queue(who)
        },
        None => Vec::new(),
    };
    one(ServerMessage::ApprovalQueue { items })
}

/// What `handle_get_participants` does, as a relation between its arguments, the state
/// after it and its reply `r`.
pub open spec fn get_participants_handled(
    manager: &DelegationManager,
    r: Vec<ServerMessage>,
) -> bool {
    &&& (r@.len() == 1)
    &&& (r@[0] matches ServerMessage::AvailableParticipants { participants: all } && {
        &&& forall|i: int|
            0 <= i < all@.len() ==> manager.participants().contains_key(
                (#[trigger] all@[i]).participant.id,
            ) && all@[i].same_as(manager.participants()[all@[i].participant.id])
                && all@[i].receives_work()
        &&& forall|i: int, j: int|
            0 <= i < j < all@.len() ==> (#[trigger] all@[i]).participant.id != (
            #[trigger] all@[j]).participant.id
        &&& forall|id: u128|
            manager.participants().contains_key(id) && (
            #[trigger] manager.participants()[id]).receives_work() ==> exists|i: int|
                0 <= i < all@.len() && (#[trigger] all@[i]).participant.id == id
    })
}

/// Shows the registered participants that can take work.
pub fn handle_get_participants(manager: &DelegationManager) -> (r: Vec<ServerMessage>)
    requires
        manager.wf(),
    ensures
        get_participants_handled(manager, r),
{
    one(ServerMessage::AvailableParticipants { participants: manager.list_available_participants() })
}

/// A row to write to the database.
#[derive(Debug)]
pub enum Row {
    Journal(JournalRow),
    Block(BlockRow),
}

/// Whether `rows` is the row of the journal as the store holds it, or
/// nothing where the store holds no such journal.
pub open spec fn journal_rows(store: &Store, journal_id: u128, rows: Seq<Row>) -> bool {
    if has_journal(store.journals(), journal_id) {
        rows.len() == 1 && is_journal_row(store, journal_id, rows[0])
    } else {
        rows.len() == 0
    }
}

/// Whether `row` is the row of the journal as the store holds it.
pub open spec fn is_journal_row(store: &Store, journal_id: u128, row: Row) -> bool {
    row is Journal && exists|journal: Journal|
        #![trigger store.journals().contains(journal)]
        store.journals().contains(journal) && journal.id == journal_id && holds_journal(
            row->Journal_0,
            journal,
        )
}

/// Whether `rows` are the rows of the block and of its journal, which
/// changes with it, as the store holds them: the journal first. Nothing
/// where the store holds no such block.
pub open spec fn block_rows(store: &Store, block_id: u128, rows: Seq<Row>) -> bool {
    if has_block(store.blocks(), block_id) {
        rows.len() == 2 && is_journal_row(store, store.block(block_id).journal_id, rows[0]) && (
        rows[1] matches Row::Block(r) && holds_block(r, store.block(block_id)))
    } else {
        rows.len() == 0
    }
}

/// Whether `rows` are what is to be written to the database for a frame:
/// the new journal that it tells of, or the block that it tells of as
/// made or changed, with the block's journal.
pub open spec fn rows_for(store: &Store, m: ServerMessage, rows: Seq<Row>) -> bool {
    match m {
        ServerMessage::JournalCreated { journal_id, .. } => journal_rows(store, journal_id, rows),
        ServerMessage::BlockCreated { block } => block_rows(store, block.id, rows),
        ServerMessage::BlockForked { new_block, .. } => block_rows(store, new_block.id, rows),
        ServerMessage::BlockStatusChanged { block_id, .. } => block_rows(store, block_id, rows),
        ServerMessage::BlockCancelled { block_id } => block_rows(store, block_id, rows),
        _ => rows.len() == 0,
    }
}

fn rows_of_journal(store: &Store, journal_id: u128) -> (r: Vec<Row>)
    requires
        store.wf(),
    ensures
        journal_rows(store, journal_id, r@),
{
    let mut rows: Vec<Row> = Vec::new();
    match store.get_journal(journal_id) {
        Ok(journal) => {
            let row = journal_to_row(&journal);
            let ghost shown = row;
            rows.push(Row::Journal(row));
            proof {
                assert(store.journals().contains(journal) && journal.id == journal_id
                    && holds_journal(shown, journal));
                assert(rows@.len() == 1);
                assert(rows@[0] == Row::Journal(shown));
                assert(is_journal_row(store, journal_id, rows@[0]));
            }
        },
        Err(_) => {},
    }
    rows
}

fn rows_of_block(store: &Store, block_id: u128) -> (r: Vec<Row>)
    requires
        store.wf(),
    ensures
        block_rows(store, block_id, r@),
{
    match store.get_block(block_id) {
        Ok(block) => {
            let mut rows = rows_of_journal(store, block.journal_id);
            proof {
                let k = choose|k: int|
                    0 <= k < store.blocks().len() && #[trigger] store.blocks()[k].id == block_id;
                store.lemma_lineage_exists(k);
                store.lemma_block_at(k);
            }
            rows.push(Row::Block(block_to_row(&block)));
            rows
        },
        Err(_) => Vec::new(),
    }
}

/// What is to be written to the database after the server has made the
/// frames: for each frame its rows, as the store holds them now.
pub fn rows_to_write(store: &Store, messages: &Vec<ServerMessage>) -> (r: Vec<Vec<Row>>)
    requires
        store.wf(),
    ensures
        r@.len() == messages@.len(),
        forall|i: int| 0 <= i < r@.len() ==> rows_for(store, messages@[i], (#[trigger] r@[i])@),
{
    let mut out: Vec<Vec<Row>> = Vec::new();
    let mut i: usize = 0;
    while i < messages.len()
        invariant
            i <= messages@.len(),
            store.wf(),
            out@.len() == i,
            forall|k: int| 0 <= k < i ==> rows_for(store, messages@[k], (#[trigger] out@[k])@),
        decreases messages@.len() - i,
    {
        let rows = match &messages[i] {
            ServerMessage::JournalCreated { journal_id, .. } => rows_of_journal(store, *journal_id),
            ServerMessage::BlockCreated { block } => rows_of_block(store, block.id),
            ServerMessage::BlockForked { new_block, .. } => rows_of_block(store, new_block.id),
            ServerMessage::BlockStatusChanged { block_id, .. } => rows_of_block(store, *block_id),
            ServerMessage::BlockCancelled { block_id } => rows_of_block(store, *block_id),
            _ => Vec::new(),
        };
        out.push(rows);
        i = i + 1;
    }
    out
}

/// The journal whose room may have news after a message: the one that a
/// message about presence, or an update of the shared document, is for.
pub fn room_of(message: &ClientMessage) -> (r: Option<u128>)
    ensures
        r == (match *message {
            ClientMessage::Subscribe { journal_id, .. } => Some(journal_id),
            ClientMessage::Unsubscribe { journal_id } => Some(journal_id),
            ClientMessage::Cursor { journal_id, .. } => Some(journal_id),
            ClientMessage::CrdtUpdate { journal_id, .. } => Some(journal_id),
            _ => None,
        }),
{
    match message {
        ClientMessage::Subscribe { journal_id, .. } => Some(*journal_id),
        ClientMessage::Unsubscribe { journal_id } => Some(*journal_id),
        ClientMessage::Cursor { journal_id, .. } => Some(*journal_id),
        ClientMessage::CrdtUpdate { journal_id, .. } => Some(*journal_id),
        _ => None,
    }
}

/// Whether a message can change the store.
pub open spec fn touches_store(m: ClientMessage) -> bool {
    m is Submit || m is CreateJournal || m is Fork || m is Rerun || m is Cancel
}

/// Whether a message can change the rooms.
pub open spec fn touches_rooms(m: ClientMessage) -> bool {
    m is Subscribe || m is Unsubscribe || m is Cursor
}

/// Whether a message can change the delegation engine.
pub open spec fn touches_engine(m: ClientMessage) -> bool {
    m is RegisterParticipant || m is Delegate || m is AcceptWork || m is DeclineWork
        || m is SubmitWork || m is ApproveWork || m is RejectWork || m is CancelWork
        || m is ClaimWork || m is SetAcceptingWork
}

/// Whether a message can change what the connection has joined.
pub open spec fn touches_connection(m: ClientMessage) -> bool {
    m is Subscribe || m is Unsubscribe || m is RegisterParticipant
}

fn no_job(messages: Vec<ServerMessage>) -> (r: Reply)
    ensures
        r.messages == messages,
        r.job is None,
        r.merge is None,
{
    Reply { messages, job: None, merge: None }
}

/// Whether `r`, with the state and the connection after it, is what the
/// handler of the message's kind gives on the state and the connection
/// before it.
pub open spec fn dispatched(
    state: AppState,
    conn: ConnectionState,
    message: ClientMessage,
    state_after: AppState,
    conn_after: ConnectionState,
    r: Reply,
) -> bool {
    match message {
        ClientMessage::Submit { journal_id, content, session_id } => submit_begun(
            state.store,
            journal_id,
            content,
            session_id,
            state_after.store,
            r,
        ) && r.merge is None && exists|
            user_id: u128,
            assistant_id: u128,
            at: Timestamp,
            then: Timestamp,
        | #[trigger]
            begun(
                state.store,
                state_after.store,
                r,
                submit_refusal(state.store, user_id, journal_id),
                None,
                false,
                user_id,
                at,
                journal_id,
                content@,
                assistant_id,
                then,
                None,
                session_id,
            ),
        ClientMessage::Fork { block_id, session_id } => fork_begun(
            state.store,
            block_id,
            session_id,
            state_after.store,
            r,
        ) && r.merge is None && exists|
            id: u128,
            assistant_id: u128,
            at: Timestamp,
            then: Timestamp,
        | #[trigger]
            begun(
                state.store,
                state_after.store,
                r,
                fork_refusal(state.store, id, block_id),
                Some(block_id),
                true,
                id,
                at.later_of(state.store.block(block_id).created_at),
                state.store.block(block_id).journal_id,
                state.store.block(block_id).content@,
                assistant_id,
                then,
                Some(id),
                session_id,
            ),
        ClientMessage::Rerun { block_id, session_id } => rerun_begun(
            state.store,
            block_id,
            session_id,
            state_after.store,
            r,
        ) && r.merge is None && exists|
            id: u128,
            assistant_id: u128,
            at: Timestamp,
            then: Timestamp,
        | #[trigger]
            begun(
                state.store,
                state_after.store,
                r,
                rerun_refusal(state.store, id, block_id),
                Some(block_id),
                false,
                id,
                at.later_of(state.store.block(block_id).created_at),
                state.store.block(block_id).journal_id,
                state.store.rerun_prompt(block_id)->0,
                assistant_id,
                then,
                Some(id),
                session_id,
            ),
        ClientMessage::CrdtUpdate { journal_id, update } => r.job is None && crdt_update_handled(
            &state.room_manager,
            &conn,
            journal_id,
            update,
            r.messages,
            r.merge,
        ),
        _ => r.job is None && r.merge is None && dispatched_at_once(
            state,
            conn,
            message,
            state_after,
            conn_after,
            r.messages,
        ),
    }
}

/// The same for the kinds of message that start no stream: `r` holds the
/// frames of the whole answer.
pub open spec fn dispatched_at_once(
    state: AppState,
    conn: ConnectionState,
    message: ClientMessage,
    state_after: AppState,
    conn_after: ConnectionState,
    r: Vec<ServerMessage>,
) -> bool {
    match message {
        ClientMessage::Submit { .. } | ClientMessage::Fork { .. } | ClientMessage::Rerun { .. } => false,
        ClientMessage::CreateJournal { title } => create_journal_handled(
            state.store,
            title,
            state_after.store,
            r,
        ),
        ClientMessage::GetJournal { journal_id } => get_journal_handled(
            &state.store,
            journal_id,
            r,
        ),
        ClientMessage::ListJournals => list_journals_handled(&state.store, r),
        ClientMessage::Cancel { block_id } => cancel_handled(
            state.store,
            block_id,
            state_after.store,
            r,
        ),
        ClientMessage::Subscribe { journal_id, name, kind } => subscribe_handled(
            state.room_manager,
            conn,
            journal_id,
            name,
            kind,
            state_after.room_manager,
            conn_after,
            r,
        ),
        ClientMessage::Unsubscribe { journal_id } => unsubscribe_handled(
            state.room_manager,
            conn,
            journal_id,
            state_after.room_manager,
            conn_after,
            r,
        ),
        ClientMessage::Cursor { journal_id, block_id, offset } => cursor_handled(
            state.room_manager,
            &conn,
            journal_id,
            block_id,
            offset,
            state_after.room_manager,
            r,
        ),
        ClientMessage::GetPresence { journal_id } => get_presence_handled(
            &state.room_manager,
            journal_id,
            r,
        ),
        ClientMessage::CrdtUpdate { .. } => false,
        ClientMessage::SyncRequest { journal_id, state_vector } => sync_request_handled(
            &state.room_manager,
            journal_id,
            state_vector,
            r,
        ),
        ClientMessage::RegisterParticipant {
            journal_id,
            name,
            kind,
            capabilities,
        } => register_participant_handled(
            state.delegation_manager,
            conn,
            journal_id,
            name,
            kind,
            capabilities,
            state_after.delegation_manager,
            conn_after,
            r,
        ),
        ClientMessage::Delegate {
            journal_id,
            description,
            assignee_id,
            block_id,
            priority,
            requires_approval,
            approver_id,
        } => delegate_handled(
            state.delegation_manager,
            &conn,
            journal_id,
            description,
            assignee_id,
            priority,
            requires_approval,
            approver_id,
            state_after.delegation_manager,
            r,
        ),
        ClientMessage::AcceptWork { work_item_id } => accept_work_handled(
            state.delegation_manager,
            &conn,
            work_item_id,
            state_after.delegation_manager,
            r,
        ),
        ClientMessage::DeclineWork { work_item_id } => decline_work_handled(
            state.delegation_manager,
            &conn,
            work_item_id,
            state_after.delegation_manager,
            r,
        ),
        ClientMessage::SubmitWork { work_item_id, result } => submit_work_handled(
            state.delegation_manager,
            &conn,
            work_item_id,
            result,
            state_after.delegation_manager,
            r,
        ),
        ClientMessage::ApproveWork { approval_id, feedback } => approve_work_handled(
            state.delegation_manager,
            &conn,
            approval_id,
            feedback,
            state_after.delegation_manager,
            r,
        ),
        ClientMessage::RejectWork { approval_id, feedback } => reject_work_handled(
            state.delegation_manager,
            &conn,
            approval_id,
            feedback,
            state_after.delegation_manager,
            r,
        ),
        ClientMessage::CancelWork { work_item_id } => cancel_work_handled(
            state.delegation_manager,
            &conn,
            work_item_id,
            state_after.delegation_manager,
            r,
        ),
        ClientMessage::ClaimWork { work_item_id } => claim_work_handled(
            state.delegation_manager,
            &conn,
            work_item_id,
            state_after.delegation_manager,
            r,
        ),
        ClientMessage::GetWorkQueue => get_work_queue_handled(&state.delegation_manager, &conn, r),
        ClientMessage::GetApprovalQueue => get_approval_queue_handled(
            &state.delegation_manager,
            &conn,
            r,
        ),
        ClientMessage::SetAcceptingWork { accepting } => set_accepting_work_handled(
            state.delegation_manager,
            &conn,
            accepting,
            state_after.delegation_manager,
            r,
        ),
        ClientMessage::GetParticipants { journal_id } => get_participants_handled(
            &state.delegation_manager,
            r,
        ),
    }
}

/// Does what a message of a client asks for, and returns the frames to
/// send back and the response to stream, if there is one.
///
/// Each kind of message has its handler; the answer is the one of the
/// handler of the message's kind. An update of a shared document is
/// not merged here but handed out, as a response to stream is. Whatever the message, every part of the
/// state stays well-formed, no block moves backwards or out of a final
/// status, and the parts that the kind of message has no business with
/// stay as they are.
pub fn handle_message(state: &mut AppState, conn: &mut ConnectionState, message: ClientMessage) -> (r:
    Reply)
    requires
        old(state).wf(),
    ensures
        dispatched(*old(state), *old(conn), message, *final(state), *final(conn), r),
        final(state).wf(),
        statuses_follow(old(state).store.blocks(), final(state).store.blocks()),
        !touches_store(message) ==> final(state).store == old(state).store,
        !touches_rooms(message) ==> final(state).room_manager == old(state).room_manager,
        !touches_engine(message) ==> final(state).delegation_manager == old(state).delegation_manager,
        !touches_connection(message) ==> *final(conn) == *old(conn),
        r.job is Some ==> message is Submit || message is Fork || message is Rerun,
        r.merge is Some ==> message is CrdtUpdate,
        r.job matches Some(job) ==> final(state).store.blocks().len() == old(state).store.blocks().len() + 2 && final(state).store.blocks().last().id == job.block_id
            && final(state).store.blocks().last().status == BlockStatus::Pending && r.messages@.len()
            == 2,
        (message is Submit || message is Fork || message is Rerun) && r.job is None ==> failed(r),
{
    proof {
        lemma_grown_follow(state.store.blocks(), state.store.blocks());
    }
    match message {
        ClientMessage::Submit { journal_id, content, session_id } => begin_submit(
            &mut state.store,
            journal_id,
            content,
            session_id,
        ),
        ClientMessage::CreateJournal { title } => {
            let reply = handle_create_journal(&mut state.store, title);
            no_job(reply)
        },
        ClientMessage::GetJournal { journal_id } => no_job(
            handle_get_journal(&state.store, journal_id),
        ),
        ClientMessage::ListJournals => no_job(handle_list_journals(&state.store)),
        ClientMessage::Fork { block_id, session_id } => begin_fork(
            &mut state.store,
            block_id,
            session_id,
        ),
        ClientMessage::Rerun { block_id, session_id } => begin_rerun(
            &mut state.store,
            block_id,
            session_id,
        ),
        ClientMessage::Cancel { block_id } => {
            let reply = handle_cancel(&mut state.store, block_id);
            no_job(reply)
        },
        ClientMessage::Subscribe { journal_id, name, kind } => {
            let reply = handle_subscribe(&mut state.room_manager, conn, journal_id, name, kind);
            no_job(reply)
        },
        ClientMessage::Unsubscribe { journal_id } => {
            let reply = handle_unsubscribe(&mut state.room_manager, conn, journal_id);
            no_job(reply)
        },
        ClientMessage::Cursor { journal_id, block_id, offset } => {
            let reply = handle_cursor(&mut state.room_manager, conn, journal_id, block_id, offset);
            no_job(reply)
        },
        ClientMessage::GetPresence { journal_id } => no_job(
            handle_get_presence(&state.room_manager, journal_id),
        ),
        ClientMessage::CrdtUpdate { journal_id, update } => {
            let (messages, merge) = handle_crdt_update(
                &state.room_manager,
                conn,
                journal_id,
                update,
            );
            Reply { messages, job: None, merge }
        },
        ClientMessage::SyncRequest { journal_id, state_vector } => no_job(
            handle_sync_request(&state.room_manager, journal_id, state_vector),
        ),
        ClientMessage::RegisterParticipant { journal_id, name, kind, capabilities } => {
            let reply = handle_register_participant(
                &mut state.delegation_manager,
                conn,
                journal_id,
                name,
                kind,
                capabilities,
            );
            no_job(reply)
        },
        ClientMessage::Delegate {
            journal_id,
            description,
            assignee_id,
            block_id: _,
            priority,
            requires_approval,
            approver_id,
        } => {
            let reply = handle_delegate(
                &mut state.delegation_manager,
                conn,
                journal_id,
                description,
                assignee_id,
                priority,
                requires_approval,
                approver_id,
            );
            no_job(reply)
        },
        ClientMessage::AcceptWork { work_item_id } => {
            let reply = handle_accept_work(&mut state.delegation_manager, conn, work_item_id);
            no_job(reply)
        },
        ClientMessage::DeclineWork { work_item_id } => {
            let reply = handle_decline_work(&mut state.delegation_manager, conn, work_item_id);
            no_job(reply)
        },
        ClientMessage::SubmitWork { work_item_id, result } => {
            let reply = handle_submit_work(
                &mut state.delegation_manager,
                conn,
                work_item_id,
                result,
            );
            no_job(reply)
        },
        ClientMessage::ApproveWork { approval_id, feedback } => {
            let reply = handle_approve_work(
                &mut state.delegation_manager,
                conn,
                approval_id,
                feedback,
            );
            no_job(reply)
        },
        ClientMessage::RejectWork { approval_id, feedback } => {
            let reply = handle_reject_work(
                &mut state.delegation_manager,
                conn,
                approval_id,
                feedback,
            );
            no_job(reply)
        },
        ClientMessage::CancelWork { work_item_id } => {
            let reply = handle_cancel_work(&mut state.delegation_manager, conn, work_item_id);
            no_job(reply)
        },
        ClientMessage::ClaimWork { work_item_id } => {
            let reply = handle_claim_work(&mut state.delegation_manager, conn, work_item_id);
            no_job(reply)
        },
        ClientMessage::GetWorkQueue => no_job(
            handle_get_work_queue(&state.delegation_manager, conn),
        ),
        ClientMessage::GetApprovalQueue => no_job(
            handle_get_approval_queue(&state.delegation_manager, conn),
        ),
        ClientMessage::SetAcceptingWork { accepting } => {
            let reply = handle_set_accepting_work(&mut state.delegation_manager, conn, accepting);
            no_job(reply)
        },
        ClientMessage::GetParticipants { journal_id: _ } => no_job(
            handle_get_participants(&state.delegation_manager),
        ),
    }
}

/// Whether `who` is a value of the map.
pub open spec fn is_value(m: Map<u128, u128>, who: u128) -> bool {
    exists|j: u128| #[trigger] m.contains_key(j) && m[j] == who
}

/// The events that wait in the room of a journal once `who` has left it:
/// those that waited before, and the notice of the leaving where `who`
/// was present.
pub open spec fn waiting_after_leave(rooms: Map<u128, JournalRoom>, j: u128, who: u128) -> Seq<
    RoomEvent,
> {
    if present_in(rooms, j).contains_key(who) {
        waiting_in(rooms, j).push(RoomEvent::ParticipantLeft { participant_id: who })
    } else {
        waiting_in(rooms, j)
    }
}

fn leave_all(rooms: &mut RoomManager, subscriptions: &HashMap<u128, u128>)
    requires
        old(rooms).wf(),
    ensures
        final(rooms).wf(),
        final(rooms).rooms().dom() == old(rooms).rooms().dom(),
        forall|j: u128|
            #[trigger] present_in(final(rooms).rooms(), j) == (if subscriptions@.contains_key(j) {
                present_in(old(rooms).rooms(), j).remove(subscriptions@[j])
            } else {
                present_in(old(rooms).rooms(), j)
            }),
        forall|j: u128|
            #[trigger] waiting_in(final(rooms).rooms(), j) == (if subscriptions@.contains_key(j) {
                waiting_after_leave(old(rooms).rooms(), j, subscriptions@[j])
            } else {
                waiting_in(old(rooms).rooms(), j)
            }),
{
    let journals = keys_of(subscriptions);
    let ghost rooms0 = rooms.rooms();
    let mut i: usize = 0;
    while i < journals.len()
        invariant
            i <= journals@.len(),
            journals@.no_duplicates(),
            journals@.to_set() == subscriptions@.dom(),
            rooms.wf(),
            rooms.rooms().dom() == rooms0.dom(),
            forall|k: int|
                0 <= k < i ==> present_in(rooms.rooms(), #[trigger] journals@[k]) == present_in(
                    rooms0,
                    journals@[k],
                ).remove(subscriptions@[journals@[k]]) && waiting_in(rooms.rooms(), journals@[k])
                    == waiting_after_leave(rooms0, journals@[k], subscriptions@[journals@[k]]),
            forall|j: u128|
                !(exists|k: int| 0 <= k < i && journals@[k] == j) ==> #[trigger] present_in(
                    rooms.rooms(),
                    j,
                ) == present_in(rooms0, j),
            forall|j: u128|
                !(exists|k: int| 0 <= k < i && journals@[k] == j) ==> #[trigger] waiting_in(
                    rooms.rooms(),
                    j,
                ) == waiting_in(rooms0, j),
        decreases journals@.len() - i,
    {
        let journal_id = journals[i];
        let ghost rooms1 = rooms.rooms();
        proof {
            assert(journals@.to_set().contains(journals@[i as int]));
            assert(subscriptions@.contains_key(journal_id));
            assert(!(exists|k: int| 0 <= k < i && journals@[k] == journal_id)) by {
                if exists|k: int| 0 <= k < i && journals@[k] == journal_id {
                    let k = choose|k: int| 0 <= k < i && journals@[k] == journal_id;
                    assert(journals@[k] == journals@[i as int]);
                }
            }
            assert(present_in(rooms1, journal_id) == present_in(rooms0, journal_id));
            assert(waiting_in(rooms1, journal_id) == waiting_in(rooms0, journal_id));
        }
        match lookup(subscriptions, journal_id) {
            None => {},
            Some(who) => {
                match rooms.take(journal_id) {
                    None => {
                        proof {
                            assert(rooms.rooms() =~= rooms1);
                            assert(present_in(rooms1, journal_id).remove(*who) =~= present_in(
                                rooms1,
                                journal_id,
                            ));
                        }
                    },
                    Some(room) => {
                        let mut room = room;
                        let _ = room.leave(*who);
                        rooms.put(room);
                        proof {
                            assert(rooms.rooms().dom() =~= rooms1.dom());
                        }
                    },
                }
            },
        }
        proof {
            let rooms2 = rooms.rooms();
            assert forall|j: u128| j != journal_id implies present_in(rooms2, j) == present_in(
                rooms1,
                j,
            ) && waiting_in(rooms2, j) == waiting_in(rooms1, j) by {}
            assert forall|k: int| 0 <= k < i + 1 implies present_in(
                rooms2,
                #[trigger] journals@[k],
            ) == present_in(rooms0, journals@[k]).remove(subscriptions@[journals@[k]])
                && waiting_in(rooms2, journals@[k]) == waiting_after_leave(
                rooms0,
                journals@[k],
                subscriptions@[journals@[k]],
            ) by {
                if k < i {
                    assert(journals@[k] != journals@[i as int]);
                    assert(present_in(rooms1, journals@[k]) == present_in(
                        rooms0,
                        journals@[k],
                    ).remove(subscriptions@[journals@[k]]));
                }
            }
            assert forall|j: u128|
                !(exists|k: int| 0 <= k < i + 1 && journals@[k] == j) implies #[trigger] present_in(
                rooms2,
                j,
            ) == present_in(rooms0, j) by {
                assert(j != journal_id) by {
                    if j == journal_id {
                        assert(journals@[i as int] == j);
                    }
                }
                assert(!(exists|k: int| 0 <= k < i && journals@[k] == j)) by {
                    if exists|k: int| 0 <= k < i && journals@[k] == j {
                        let k = choose|k: int| 0 <= k < i && journals@[k] == j;
                        assert(0 <= k < i + 1 && journals@[k] == j);
                    }
                }
                assert(present_in(rooms1, j) == present_in(rooms0, j));
            }
            assert forall|j: u128|
                !(exists|k: int| 0 <= k < i + 1 && journals@[k] == j) implies #[trigger] waiting_in(
                rooms2,
                j,
            ) == waiting_in(rooms0, j) by {
                assert(j != journal_id) by {
                    if j == journal_id {
                        assert(journals@[i as int] == j);
                    }
                }
                assert(!(exists|k: int| 0 <= k < i && journals@[k] == j)) by {
                    if exists|k: int| 0 <= k < i && journals@[k] == j {
                        let k = choose|k: int| 0 <= k < i && journals@[k] == j;
                        assert(0 <= k < i + 1 && journals@[k] == j);
                    }
                }
                assert(waiting_in(rooms1, j) == waiting_in(rooms0, j));
            }
        }
        i = i + 1;
    }
    proof {
        assert forall|j: u128|
            #[trigger] present_in(rooms.rooms(), j) == (if subscriptions@.contains_key(j) {
                present_in(rooms0, j).remove(subscriptions@[j])
            } else {
                present_in(rooms0, j)
            }) by {
            if subscriptions@.contains_key(j) {
                assert(journals@.to_set().contains(j));
                let k = choose|k: int| 0 <= k < journals@.len() && journals@[k] == j;
                assert(present_in(rooms.rooms(), journals@[k]) == present_in(
                    rooms0,
                    journals@[k],
                ).remove(subscriptions@[journals@[k]]));
            } else {
                if exists|k: int| 0 <= k < i && journals@[k] == j {
                    let k = choose|k: int| 0 <= k < i && journals@[k] == j;
                    assert(journals@.to_set().contains(journals@[k]));
                }
            }
        }
        assert forall|j: u128|
            #[trigger] waiting_in(rooms.rooms(), j) == (if subscriptions@.contains_key(j) {
                waiting_after_leave(rooms0, j, subscriptions@[j])
            } else {
                waiting_in(rooms0, j)
            }) by {
            if subscriptions@.contains_key(j) {
                assert(journals@.to_set().contains(j));
                let k = choose|k: int| 0 <= k < journals@.len() && journals@[k] == j;
                assert(waiting_in(rooms.rooms(), journals@[k]) == waiting_after_leave(
                    rooms0,
                    journals@[k],
                    subscriptions@[journals@[k]],
                ));
            } else {
                if exists|k: int| 0 <= k < i && journals@[k] == j {
                    let k = choose|k: int| 0 <= k < i && journals@[k] == j;
                    assert(journals@.to_set().contains(journals@[k]));
                }
            }
        }
    }
}

/// Whether `who` is the value under one of the first `n` keys.
pub open spec fn among_first(m: Map<u128, u128>, keys: Seq<u128>, n: int, who: u128) -> bool {
    exists|k: int| 0 <= k < n && m[#[trigger] keys[k]] == who
}

fn unregister_all(manager: &mut DelegationManager, registrations: &HashMap<u128, u128>)
    requires
        old(manager).wf(),
    ensures
        final(manager).wf(),
        final(manager).items() == old(manager).items(),
        final(manager).requests() == old(manager).requests(),
        forall|p: u128| #[trigger] final(manager).work_queue(p) == old(manager).work_queue(p),
        forall|p: u128| #[trigger]
            final(manager).approval_queue(p) == old(manager).approval_queue(p),
        final(manager).events() == old(manager).events(),
        forall|who: u128|
            #![trigger final(manager).participants().contains_key(who)]
            final(manager).participants().contains_key(who) <==> (old(manager).participants().contains_key(who) && !is_value(registrations@, who)),
        forall|who: u128| #[trigger]
            final(manager).participants().contains_key(who) ==> final(manager).participants()[who]
                == old(manager).participants()[who],
{
    let registered = keys_of(registrations);
    let ghost people0 = manager.participants();
    let mut n: usize = 0;
    while n < registered.len()
        invariant
            n <= registered@.len(),
            registered@.to_set() == registrations@.dom(),
            manager.wf(),
            manager.items() == old(manager).items(),
            manager.requests() == old(manager).requests(),
            forall|p: u128| #[trigger] manager.work_queue(p) == old(manager).work_queue(p),
            forall|p: u128| #[trigger] manager.approval_queue(p) == old(manager).approval_queue(p),
            manager.events() == old(manager).events(),
            forall|who: u128|
                #![trigger manager.participants().contains_key(who)]
                manager.participants().contains_key(who) <==> (people0.contains_key(who)
                    && !among_first(registrations@, registered@, n as int, who)),
            forall|who: u128| #[trigger]
                manager.participants().contains_key(who) ==> manager.participants()[who]
                    == people0[who],
        decreases registered@.len() - n,
    {
        let journal_id = registered[n];
        let ghost before = manager.participants();
        proof {
            assert(registered@.to_set().contains(registered@[n as int]));
            assert(registrations@.contains_key(journal_id));
        }
        let who = match lookup(registrations, journal_id) {
            None => 0,
            Some(who) => *who,
        };
        let _ = manager.unregister_participant(who);
        proof {
            let after = manager.participants();
            assert(after == before.remove(who));
            assert(registrations@[registered@[n as int]] == who);
            assert forall|x: u128|
                #![trigger after.contains_key(x)]
                after.contains_key(x) <==> (people0.contains_key(x) && !among_first(
                    registrations@,
                    registered@,
                    n + 1,
                    x,
                )) by {
                assert(before.contains_key(x) <==> (people0.contains_key(x) && !among_first(
                    registrations@,
                    registered@,
                    n as int,
                    x,
                )));
                if x == who {
                    assert(among_first(registrations@, registered@, n + 1, x));
                } else {
                    if among_first(registrations@, registered@, n + 1, x) {
                        let k = choose|k: int|
                            0 <= k < n + 1 && registrations@[#[trigger] registered@[k]] == x;
                        assert(k < n);
                        assert(among_first(registrations@, registered@, n as int, x));
                    }
                    if among_first(registrations@, registered@, n as int, x) {
                        let k = choose|k: int|
                            0 <= k < n && registrations@[#[trigger] registered@[k]] == x;
                        assert(0 <= k < n + 1 && registrations@[registered@[k]] == x);
                    }
                }
            }
        }
        n = n + 1;
    }
    proof {
        assert forall|who: u128|
            #![trigger manager.participants().contains_key(who)]
            manager.participants().contains_key(who) <==> (people0.contains_key(who) && !is_value(
                registrations@,
                who,
            )) by {
            if is_value(registrations@, who) {
                let j = choose|j: u128| #[trigger]
                    registrations@.contains_key(j) && registrations@[j] == who;
                assert(registered@.to_set().contains(j));
                let k = choose|k: int| 0 <= k < registered@.len() && registered@[k] == j;
                assert(0 <= k < n && registrations@[registered@[k]] == who);
                assert(among_first(registrations@, registered@, n as int, who));
            } else {
                if among_first(registrations@, registered@, n as int, who) {
                    let k = choose|k: int|
                        0 <= k < n && registrations@[#[trigger] registered@[k]] == who;
                    assert(registered@.to_set().contains(registered@[k]));
                    assert(registrations@.contains_key(registered@[k]));
                }
            }
        }
    }
}

/// Ends a connection: every participant that it subscribed as leaves its
/// room, and every participant that it registered is taken off the
/// delegation engine's register. Work and queues stay.
pub fn disconnect(state: &mut AppState, conn: ConnectionState)
    requires
        old(state).wf(),
    ensures
        final(state).wf(),
        final(state).store == old(state).store,
        final(state).room_manager.rooms().dom() == old(state).room_manager.rooms().dom(),
        forall|j: u128|
            #[trigger] present_in(final(state).room_manager.rooms(), j) == (if conn.subscriptions().contains_key(
                j,
            ) {
                present_in(old(state).room_manager.rooms(), j).remove(conn.subscriptions()[j])
            } else {
                present_in(old(state).room_manager.rooms(), j)
            }),
        forall|j: u128|
            #[trigger] waiting_in(final(state).room_manager.rooms(), j) == (if conn.subscriptions().contains_key(
                j,
            ) {
                waiting_after_leave(old(state).room_manager.rooms(), j, conn.subscriptions()[j])
            } else {
                waiting_in(old(state).room_manager.rooms(), j)
            }),
        final(state).delegation_manager.items() == old(state).delegation_manager.items(),
        final(state).delegation_manager.requests() == old(state).delegation_manager.requests(),
        forall|p: u128| #[trigger]
            final(state).delegation_manager.work_queue(p) == old(state).delegation_manager.work_queue(
                p,
            ),
        forall|p: u128| #[trigger]
            final(state).delegation_manager.approval_queue(p)
                == old(state).delegation_manager.approval_queue(p),
        final(state).delegation_manager.events() == old(state).delegation_manager.events(),
        forall|who: u128|
            final(state).delegation_manager.participants().contains_key(who) <==> #[trigger] old(state).delegation_manager.participants().contains_key(who) && !conn.registered_as(who),
        forall|who: u128| #[trigger]
            final(state).delegation_manager.participants().contains_key(who) ==> final(state).delegation_manager.participants()[who] == old(state).delegation_manager.participants()[who],
{
    leave_all(&mut state.room_manager, &conn.subscriptions);
    unregister_all(&mut state.delegation_manager, &conn.delegation_registrations);
}

} // verus!
