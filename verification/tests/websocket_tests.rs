use outer::crdt::journal_doc::JournalDoc;
use outer::crdt::room::RoomEvent;
use outer::crdt::{Participant, ParticipantKind, ParticipantStatus};
use outer::delegation::work_item::{ApprovalStatus, WorkItemStatus, WorkPriority};
use outer::error::AppError;
use outer::models::{BlockStatus, BlockType};
use outer::opencode::{ContentEvent, ErrorEvent, StreamEvent};
use outer::websocket::{
    base64_encode, complete_merge, disconnect, handle_message, relay_room_event, unreadable_frame, ClientMessage,
    ConnectionState, Reply, ServerMessage, StreamRun,
};
use outer::AppState;

fn send(state: &mut AppState, conn: &mut ConnectionState, message: ClientMessage) -> Vec<ServerMessage> {
    let Reply { messages, job, merge } = handle_message(state, conn, message);
    assert!(job.is_none());
    if let Some(job) = merge {
        // The embedding server merges on a replica and hands it back.
        let room = state.room_manager.get(job.journal_id).expect("a room");
        let mut replica = room.doc().replica().unwrap();
        if replica.apply_update(&job.update).is_ok() {
            assert!(complete_merge(&mut state.room_manager, job, replica));
        }
    }
    messages
}

fn only(mut messages: Vec<ServerMessage>) -> ServerMessage {
    assert_eq!(messages.len(), 1, "{:?}", messages);
    messages.remove(0)
}

fn error_text(message: ServerMessage) -> String {
    match message {
        ServerMessage::Error { message } => message,
        other => panic!("expected an error frame, got {:?}", other),
    }
}

fn create_journal(state: &mut AppState, conn: &mut ConnectionState, title: &str) -> u128 {
    match only(send(state, conn, ClientMessage::CreateJournal { title: Some(title.to_string()) })) {
        ServerMessage::JournalCreated { journal_id, title: shown } => {
            assert_eq!(shown, title);
            journal_id
        }
        other => panic!("expected journal_created, got {:?}", other),
    }
}

fn register(
    state: &mut AppState,
    conn: &mut ConnectionState,
    name: &str,
    kind: &str,
) -> u128 {
    let message = ClientMessage::RegisterParticipant {
        journal_id: 1,
        name: name.to_string(),
        kind: Some(kind.to_string()),
        capabilities: None,
    };
    match only(send(state, conn, message)) {
        ServerMessage::ParticipantRegistered { participant_id, name: shown, kind: k, .. } => {
            assert_eq!(shown, name);
            assert_eq!(k, kind);
            participant_id
        }
        other => panic!("expected participant_registered, got {:?}", other),
    }
}

fn delegate(requires_approval: bool, assignee_id: u128) -> ClientMessage {
    ClientMessage::Delegate {
        journal_id: 1,
        description: "D".to_string(),
        assignee_id,
        block_id: None,
        priority: Some("high".to_string()),
        requires_approval,
        approver_id: None,
    }
}

fn work_queue(state: &mut AppState, conn: &mut ConnectionState) -> Vec<(u128, WorkItemStatus)> {
    match only(send(state, conn, ClientMessage::GetWorkQueue)) {
        ServerMessage::WorkQueue { items } => items.into_iter().map(|i| (i.id, i.status)).collect(),
        other => panic!("expected work_queue, got {:?}", other),
    }
}

fn approval_queue(state: &mut AppState, conn: &mut ConnectionState) -> Vec<(u128, u128)> {
    match only(send(state, conn, ClientMessage::GetApprovalQueue)) {
        ServerMessage::ApprovalQueue { items } => {
            items.into_iter().map(|a| (a.id, a.work_item_id)).collect()
        }
        other => panic!("expected approval_queue, got {:?}", other),
    }
}

#[test]
fn list_journals_on_a_fresh_server_is_empty() {
    let mut state = AppState::new();
    let mut conn = ConnectionState::new();
    match only(send(&mut state, &mut conn, ClientMessage::ListJournals)) {
        ServerMessage::Journals { journals } => assert!(journals.is_empty()),
        other => panic!("expected journals, got {:?}", other),
    }
}

#[test]
fn create_and_get_a_journal() {
    let mut state = AppState::new();
    let mut conn = ConnectionState::new();
    let journal_id = create_journal(&mut state, &mut conn, "T");
    match only(send(&mut state, &mut conn, ClientMessage::GetJournal { journal_id })) {
        ServerMessage::Journal { journal, blocks } => {
            assert_eq!(journal.id, journal_id);
            assert_eq!(journal.title, "T");
            assert!(blocks.is_empty());
        }
        other => panic!("expected journal, got {:?}", other),
    }
    let missing = only(send(&mut state, &mut conn, ClientMessage::GetJournal { journal_id: 5 }));
    assert_eq!(
        error_text(missing),
        "Not found: Journal 00000000-0000-0000-0000-000000000005 not found"
    );
    match only(send(&mut state, &mut conn, ClientMessage::CreateJournal { title: None })) {
        ServerMessage::JournalCreated { title, .. } => assert_eq!(title, "Untitled"),
        other => panic!("expected journal_created, got {:?}", other),
    }
}

#[test]
fn submit_streams_the_response() {
    let mut state = AppState::new();
    let mut conn = ConnectionState::new();
    let journal_id = create_journal(&mut state, &mut conn, "T");
    let submit = ClientMessage::Submit {
        journal_id,
        content: "Hi".to_string(),
        session_id: Some("ses_1".to_string()),
    };
    let Reply { mut messages, job, .. } = handle_message(&mut state, &mut conn, submit);
    let job = job.expect("a job to stream");
    assert_eq!(job.prompt, "Hi");
    assert_eq!(job.session_id.as_deref(), Some("ses_1"));
    assert_eq!(messages.len(), 2);
    let assistant = match messages.pop().unwrap() {
        ServerMessage::BlockCreated { block } => block,
        other => panic!("expected block_created, got {:?}", other),
    };
    let user = match messages.pop().unwrap() {
        ServerMessage::BlockCreated { block } => block,
        other => panic!("expected block_created, got {:?}", other),
    };
    assert_eq!(user.block_type, BlockType::User);
    assert_eq!(user.content, "Hi");
    assert_eq!(user.status, BlockStatus::Complete);
    assert_eq!(assistant.block_type, BlockType::Assistant);
    assert_eq!(assistant.status, BlockStatus::Pending);
    assert_eq!(assistant.id, job.block_id);

    let (mut run, started) = StreamRun::start(&mut state.store, &job);
    match only(started) {
        ServerMessage::BlockStatusChanged { block_id, status } => {
            assert_eq!(block_id, assistant.id);
            assert_eq!(status, BlockStatus::Streaming);
        }
        other => panic!("expected block_status_changed, got {:?}", other),
    }
    let deltas = ["Hello ", "World"];
    for delta in deltas {
        let event = StreamEvent::Content(ContentEvent { text: delta.to_string() });
        match only(run.on_event(&mut state.store, Ok(event))) {
            ServerMessage::BlockContentDelta { block_id, delta: sent } => {
                assert_eq!(block_id, assistant.id);
                assert_eq!(sent, delta);
            }
            other => panic!("expected block_content_delta, got {:?}", other),
        }
    }
    let unknown = StreamEvent::Unknown { event_type: "x".to_string(), data: "{}".to_string() };
    assert!(run.on_event(&mut state.store, Ok(unknown)).is_empty());
    // Nothing is stored before the response is complete.
    assert_eq!(state.store.get_block(assistant.id).unwrap().content, "");
    match only(run.on_event(&mut state.store, Ok(StreamEvent::Done))) {
        ServerMessage::BlockStatusChanged { block_id, status } => {
            assert_eq!(block_id, assistant.id);
            assert_eq!(status, BlockStatus::Complete);
        }
        other => panic!("expected block_status_changed, got {:?}", other),
    }
    // What comes after the end is passed over.
    let late = StreamEvent::Content(ContentEvent { text: "late".to_string() });
    assert!(run.on_event(&mut state.store, Ok(late)).is_empty());
    assert!(run.on_event(&mut state.store, Ok(StreamEvent::Done)).is_empty());
    match only(send(&mut state, &mut conn, ClientMessage::GetJournal { journal_id })) {
        ServerMessage::Journal { blocks, .. } => {
            assert_eq!(blocks.len(), 2);
            let answer = blocks.iter().find(|b| b.id == assistant.id).unwrap();
            assert_eq!(answer.content, "Hello World");
            assert_eq!(answer.status, BlockStatus::Complete);
        }
        other => panic!("expected journal, got {:?}", other),
    }
}

fn start_run(state: &mut AppState, conn: &mut ConnectionState) -> (u128, StreamRun) {
    let journal_id = create_journal(state, conn, "T");
    let submit = ClientMessage::Submit { journal_id, content: "Hi".to_string(), session_id: None };
    let job = handle_message(state, conn, submit).job.unwrap();
    assert_eq!(job.session_id, None);
    let (run, _) = StreamRun::start(&mut state.store, &job);
    (job.block_id, run)
}

#[test]
fn a_session_error_fails_the_block_with_its_message() {
    let mut state = AppState::new();
    let mut conn = ConnectionState::new();
    let (block_id, mut run) = start_run(&mut state, &mut conn);
    let partial = StreamEvent::Content(ContentEvent { text: "partial".to_string() });
    run.on_event(&mut state.store, Ok(partial));
    let failure = StreamEvent::Error(ErrorEvent { message: "Rate limited".to_string(), code: None });
    match only(run.on_event(&mut state.store, Ok(failure))) {
        ServerMessage::BlockStatusChanged { block_id: b, status } => {
            assert_eq!(b, block_id);
            assert_eq!(status, BlockStatus::Error);
        }
        other => panic!("expected block_status_changed, got {:?}", other),
    }
    let block = state.store.get_block(block_id).unwrap();
    assert_eq!(block.status, BlockStatus::Error);
    assert_eq!(block.content, "Rate limited");
}

#[test]
fn a_broken_stream_fails_the_block_and_says_so() {
    let mut state = AppState::new();
    let mut conn = ConnectionState::new();
    let (block_id, mut run) = start_run(&mut state, &mut conn);
    let broken = Err(AppError::OpenCode("connection reset".to_string()));
    match only(run.on_event(&mut state.store, broken)) {
        ServerMessage::BlockStatusChanged { status, .. } => assert_eq!(status, BlockStatus::Error),
        other => panic!("expected block_status_changed, got {:?}", other),
    }
    let block = state.store.get_block(block_id).unwrap();
    assert_eq!(block.status, BlockStatus::Error);
    assert_eq!(block.content, "");
}

#[test]
fn a_cancelled_block_stays_failed() {
    let mut state = AppState::new();
    let mut conn = ConnectionState::new();
    let (block_id, mut run) = start_run(&mut state, &mut conn);
    match only(send(&mut state, &mut conn, ClientMessage::Cancel { block_id })) {
        ServerMessage::BlockCancelled { block_id: b } => assert_eq!(b, block_id),
        other => panic!("expected block_cancelled, got {:?}", other),
    }
    assert_eq!(state.store.get_block(block_id).unwrap().status, BlockStatus::Error);
    // The stream may still deliver; the block does not come back to life.
    let more = StreamEvent::Content(ContentEvent { text: "more".to_string() });
    assert_eq!(run.on_event(&mut state.store, Ok(more)).len(), 1);
    assert!(run.on_event(&mut state.store, Ok(StreamEvent::Done)).is_empty());
    let block = state.store.get_block(block_id).unwrap();
    assert_eq!(block.status, BlockStatus::Error);
    assert_eq!(block.content, "");
    // Cancelling a block that is complete, or not there, changes nothing.
    let user_block = state.store.get_blocks_for_journal(block.journal_id).unwrap()[0].id;
    send(&mut state, &mut conn, ClientMessage::Cancel { block_id: user_block });
    assert_eq!(state.store.get_block(user_block).unwrap().status, BlockStatus::Complete);
    assert_eq!(send(&mut state, &mut conn, ClientMessage::Cancel { block_id: 3 }).len(), 1);
}

#[test]
fn submit_to_an_unknown_journal_fails() {
    let mut state = AppState::new();
    let mut conn = ConnectionState::new();
    let submit = ClientMessage::Submit { journal_id: 9, content: "Hi".to_string(), session_id: None };
    let Reply { messages, job, .. } = handle_message(&mut state, &mut conn, submit);
    assert!(job.is_none());
    assert_eq!(
        error_text(only(messages)),
        "Database error: FOREIGN KEY constraint failed"
    );
}

#[test]
fn fork_and_rerun_branch_off() {
    let mut state = AppState::new();
    let mut conn = ConnectionState::new();
    let journal_id = create_journal(&mut state, &mut conn, "T");
    let submit = ClientMessage::Submit { journal_id, content: "Hi".to_string(), session_id: None };
    let reply = handle_message(&mut state, &mut conn, submit);
    let answer_id = reply.job.unwrap().block_id;
    let user_id = match &reply.messages[0] {
        ServerMessage::BlockCreated { block } => block.id,
        other => panic!("expected block_created, got {:?}", other),
    };
    state.store.update_block_content(answer_id, "Hello").unwrap();

    let fork = ClientMessage::Fork { block_id: user_id, session_id: Some("s".to_string()) };
    let Reply { messages, job, .. } = handle_message(&mut state, &mut conn, fork);
    let job = job.unwrap();
    assert_eq!(job.prompt, "Hi");
    assert_eq!(job.session_id.as_deref(), Some("s"));
    assert_eq!(messages.len(), 2);
    let forked = match &messages[0] {
        ServerMessage::BlockForked { original_block_id, new_block } => {
            assert_eq!(*original_block_id, user_id);
            new_block
        }
        other => panic!("expected block_forked, got {:?}", other),
    };
    assert_eq!(forked.parent_id, Some(user_id));
    assert_eq!(forked.forked_from_id, Some(user_id));
    assert_eq!(forked.content, "Hi");
    assert_eq!(forked.journal_id, journal_id);
    match &messages[1] {
        ServerMessage::BlockCreated { block } => {
            assert_eq!(block.id, job.block_id);
            assert_eq!(block.parent_id, Some(forked.id));
            assert_eq!(block.forked_from_id, None);
            assert_eq!(block.block_type, BlockType::Assistant);
            assert_eq!(block.status, BlockStatus::Pending);
        }
        other => panic!("expected block_created, got {:?}", other),
    }

    let rerun = ClientMessage::Rerun { block_id: answer_id, session_id: None };
    let Reply { messages, job, .. } = handle_message(&mut state, &mut conn, rerun);
    let job = job.unwrap();
    assert_eq!(job.prompt, "Hi");
    match &messages[0] {
        ServerMessage::BlockCreated { block } => {
            assert_eq!(block.parent_id, Some(answer_id));
            assert_eq!(block.forked_from_id, Some(answer_id));
            assert_eq!(block.block_type, BlockType::User);
            assert_eq!(block.content, "Hi");
        }
        other => panic!("expected block_created, got {:?}", other),
    }
    assert_eq!(state.store.get_forks(answer_id).unwrap().len(), 1);
    assert_eq!(state.store.get_children(user_id).unwrap().len(), 1);

    let missing = ClientMessage::Fork { block_id: 4, session_id: None };
    let Reply { messages, job, .. } = handle_message(&mut state, &mut conn, missing);
    assert!(job.is_none());
    assert_eq!(
        error_text(only(messages)),
        "Not found: Block 00000000-0000-0000-0000-000000000004 not found"
    );
    let missing = ClientMessage::Rerun { block_id: 4, session_id: None };
    let Reply { messages, .. } = handle_message(&mut state, &mut conn, missing);
    assert_eq!(
        error_text(only(messages)),
        "Not found: Block 00000000-0000-0000-0000-000000000004 not found"
    );
}

#[test]
fn delegation_round_trip() {
    let mut state = AppState::new();
    let mut alice = ConnectionState::new();
    let mut bob = ConnectionState::new();
    let alice_id = register(&mut state, &mut alice, "Alice", "user");
    let bob_id = register(&mut state, &mut bob, "Bob", "agent");

    let work = match only(send(&mut state, &mut alice, delegate(true, bob_id))) {
        ServerMessage::WorkDelegated { work_item } => work_item,
        other => panic!("expected work_delegated, got {:?}", other),
    };
    assert_eq!(work.description, "D");
    assert_eq!(work.delegator_id, alice_id);
    assert_eq!(work.assignee_id, bob_id);
    assert_eq!(work.priority, WorkPriority::High);
    assert!(work.requires_approval);
    assert_eq!(work_queue(&mut state, &mut bob), vec![(work.id, WorkItemStatus::Pending)]);
    assert!(work_queue(&mut state, &mut alice).is_empty());
    assert!(approval_queue(&mut state, &mut alice).is_empty());

    match only(send(&mut state, &mut bob, ClientMessage::AcceptWork { work_item_id: work.id })) {
        ServerMessage::WorkAccepted { work_item_id, assignee_id } => {
            assert_eq!(work_item_id, work.id);
            assert_eq!(assignee_id, bob_id);
        }
        other => panic!("expected work_accepted, got {:?}", other),
    }
    assert!(work_queue(&mut state, &mut bob).is_empty());

    let submit = ClientMessage::SubmitWork { work_item_id: work.id, result: "R".to_string() };
    let approval = match only(send(&mut state, &mut bob, submit)) {
        ServerMessage::ApprovalRequested { approval, work_item } => {
            assert_eq!(work_item.id, work.id);
            assert_eq!(work_item.status, WorkItemStatus::AwaitingApproval);
            assert_eq!(work_item.result.as_deref(), Some("R"));
            assert_eq!(approval.work_item_id, work.id);
            assert_eq!(approval.requester_id, bob_id);
            assert_eq!(approval.approver_id, alice_id);
            assert_eq!(approval.status, ApprovalStatus::Pending);
            approval
        }
        other => panic!("expected approval_requested, got {:?}", other),
    };
    assert!(work_queue(&mut state, &mut bob).is_empty());
    assert_eq!(approval_queue(&mut state, &mut alice), vec![(approval.id, work.id)]);
    assert!(approval_queue(&mut state, &mut bob).is_empty());

    let approve = ClientMessage::ApproveWork {
        approval_id: approval.id,
        feedback: Some("ok".to_string()),
    };
    match only(send(&mut state, &mut alice, approve)) {
        ServerMessage::WorkApproved { work_item_id, approver_id, feedback } => {
            assert_eq!(work_item_id, work.id);
            assert_eq!(approver_id, alice_id);
            assert_eq!(feedback.as_deref(), Some("ok"));
        }
        other => panic!("expected work_approved, got {:?}", other),
    }
    assert!(approval_queue(&mut state, &mut alice).is_empty());
    assert!(work_queue(&mut state, &mut bob).is_empty());
    assert_eq!(
        state.delegation_manager.get_work_item(work.id).unwrap().status,
        WorkItemStatus::Approved
    );
}

#[test]
fn a_rejection_returns_the_work_to_the_queue() {
    let mut state = AppState::new();
    let mut alice = ConnectionState::new();
    let mut bob = ConnectionState::new();
    let alice_id = register(&mut state, &mut alice, "Alice", "user");
    let bob_id = register(&mut state, &mut bob, "Bob", "agent");
    let work = match only(send(&mut state, &mut alice, delegate(true, bob_id))) {
        ServerMessage::WorkDelegated { work_item } => work_item,
        other => panic!("expected work_delegated, got {:?}", other),
    };
    send(&mut state, &mut bob, ClientMessage::AcceptWork { work_item_id: work.id });
    let submit = ClientMessage::SubmitWork { work_item_id: work.id, result: "R".to_string() };
    send(&mut state, &mut bob, submit);
    let approval_id = approval_queue(&mut state, &mut alice)[0].0;

    let reject = ClientMessage::RejectWork { approval_id, feedback: "redo".to_string() };
    match only(send(&mut state, &mut alice, reject)) {
        ServerMessage::WorkRejected { work_item_id, approver_id, feedback } => {
            assert_eq!(work_item_id, work.id);
            assert_eq!(approver_id, alice_id);
            assert_eq!(feedback, "redo");
        }
        other => panic!("expected work_rejected, got {:?}", other),
    }
    assert_eq!(work_queue(&mut state, &mut bob), vec![(work.id, WorkItemStatus::Rejected)]);
    assert!(approval_queue(&mut state, &mut alice).is_empty());
}

#[test]
fn an_observer_cannot_delegate() {
    let mut state = AppState::new();
    let mut watcher = ConnectionState::new();
    let mut bob = ConnectionState::new();
    let watcher_id = register(&mut state, &mut watcher, "Watcher", "observer");
    let bob_id = register(&mut state, &mut bob, "Bob", "agent");
    let refused = only(send(&mut state, &mut watcher, delegate(false, bob_id)));
    assert_eq!(
        error_text(refused),
        format!(
            "Participant {} lacks capability: delegate",
            uuid::Uuid::from_u128(watcher_id)
        )
    );
    assert!(work_queue(&mut state, &mut bob).is_empty());
    assert!(state.delegation_manager.take_events().iter().all(|e| matches!(
        e,
        outer::delegation::DelegationEvent::ParticipantRegistered { .. }
    )));
}

#[test]
fn delegation_needs_a_registration() {
    let mut state = AppState::new();
    let mut conn = ConnectionState::new();
    let want = "Not registered with delegation system";
    let messages = vec![
        delegate(false, 1),
        ClientMessage::AcceptWork { work_item_id: 1 },
        ClientMessage::DeclineWork { work_item_id: 1 },
        ClientMessage::SubmitWork { work_item_id: 1, result: String::new() },
        ClientMessage::ApproveWork { approval_id: 1, feedback: None },
        ClientMessage::RejectWork { approval_id: 1, feedback: String::new() },
        ClientMessage::CancelWork { work_item_id: 1 },
        ClientMessage::ClaimWork { work_item_id: 1 },
        ClientMessage::SetAcceptingWork { accepting: true },
    ];
    for message in messages {
        assert_eq!(error_text(only(send(&mut state, &mut conn, message))), want);
    }
    assert!(work_queue(&mut state, &mut conn).is_empty());
    assert!(approval_queue(&mut state, &mut conn).is_empty());
    // A registration for another journal does not let one delegate in this one.
    let message = ClientMessage::RegisterParticipant {
        journal_id: 2,
        name: "A".to_string(),
        kind: None,
        capabilities: None,
    };
    send(&mut state, &mut conn, message);
    assert_eq!(error_text(only(send(&mut state, &mut conn, delegate(false, 1)))), want);
}

#[test]
fn the_other_delegation_messages() {
    let mut state = AppState::new();
    let mut alice = ConnectionState::new();
    let mut bob = ConnectionState::new();
    let mut carl = ConnectionState::new();
    let alice_id = register(&mut state, &mut alice, "Alice", "user");
    let bob_id = register(&mut state, &mut bob, "Bob", "agent");
    let message = ClientMessage::RegisterParticipant {
        journal_id: 1,
        name: "Carl".to_string(),
        kind: Some("nonsense".to_string()),
        capabilities: Some(vec!["read".to_string(), "fly".to_string(), "read".to_string()]),
    };
    let carl_id = match only(send(&mut state, &mut carl, message)) {
        ServerMessage::ParticipantRegistered { participant_id, kind, capabilities, .. } => {
            assert_eq!(kind, "user");
            assert_eq!(capabilities, vec!["read"]);
            participant_id
        }
        other => panic!("expected participant_registered, got {:?}", other),
    };
    match only(send(&mut state, &mut alice, ClientMessage::GetParticipants { journal_id: 1 })) {
        ServerMessage::AvailableParticipants { participants } => {
            let mut who: Vec<u128> = participants.iter().map(|p| p.id()).collect();
            who.sort();
            let mut want = vec![alice_id, bob_id, carl_id];
            want.sort();
            assert_eq!(who, want);
        }
        other => panic!("expected available_participants, got {:?}", other),
    }
    match only(send(&mut state, &mut bob, ClientMessage::SetAcceptingWork { accepting: false })) {
        ServerMessage::AcceptingWorkChanged { participant_id, accepting } => {
            assert_eq!(participant_id, bob_id);
            assert!(!accepting);
        }
        other => panic!("expected accepting_work_changed, got {:?}", other),
    }
    let refused = only(send(&mut state, &mut alice, delegate(false, bob_id)));
    assert_eq!(
        error_text(refused),
        format!("Participant {} is not accepting work", uuid::Uuid::from_u128(bob_id))
    );
    send(&mut state, &mut bob, ClientMessage::SetAcceptingWork { accepting: true });
    let first = match only(send(&mut state, &mut alice, delegate(false, bob_id))) {
        ServerMessage::WorkDelegated { work_item } => work_item.id,
        other => panic!("expected work_delegated, got {:?}", other),
    };
    let second = match only(send(&mut state, &mut alice, delegate(false, bob_id))) {
        ServerMessage::WorkDelegated { work_item } => work_item.id,
        other => panic!("expected work_delegated, got {:?}", other),
    };
    match only(send(&mut state, &mut carl, ClientMessage::ClaimWork { work_item_id: first })) {
        ServerMessage::WorkClaimed { work_item_id, claimed_by } => {
            assert_eq!(work_item_id, first);
            assert_eq!(claimed_by, carl_id);
        }
        other => panic!("expected work_claimed, got {:?}", other),
    }
    assert_eq!(work_queue(&mut state, &mut carl), vec![(first, WorkItemStatus::Pending)]);
    assert_eq!(work_queue(&mut state, &mut bob), vec![(second, WorkItemStatus::Pending)]);
    match only(send(&mut state, &mut carl, ClientMessage::DeclineWork { work_item_id: first })) {
        ServerMessage::WorkDeclined { work_item_id, assignee_id } => {
            assert_eq!(work_item_id, first);
            assert_eq!(assignee_id, carl_id);
        }
        other => panic!("expected work_declined, got {:?}", other),
    }
    match only(send(&mut state, &mut alice, ClientMessage::CancelWork { work_item_id: second })) {
        ServerMessage::WorkCancelled { work_item_id, cancelled_by } => {
            assert_eq!(work_item_id, second);
            assert_eq!(cancelled_by, alice_id);
        }
        other => panic!("expected work_cancelled, got {:?}", other),
    }
    assert!(work_queue(&mut state, &mut bob).is_empty());
    // Work without approval is approved when it is handed in.
    let third = match only(send(&mut state, &mut alice, delegate(false, bob_id))) {
        ServerMessage::WorkDelegated { work_item } => work_item.id,
        other => panic!("expected work_delegated, got {:?}", other),
    };
    send(&mut state, &mut bob, ClientMessage::AcceptWork { work_item_id: third });
    let submit = ClientMessage::SubmitWork { work_item_id: third, result: "R".to_string() };
    match only(send(&mut state, &mut bob, submit)) {
        ServerMessage::WorkApproved { work_item_id, approver_id, feedback } => {
            assert_eq!(work_item_id, third);
            assert_eq!(approver_id, alice_id);
            assert_eq!(feedback, None);
        }
        other => panic!("expected work_approved, got {:?}", other),
    }
}

#[test]
fn subscribe_and_presence() {
    let mut state = AppState::new();
    let mut alice = ConnectionState::new();
    let mut bob = ConnectionState::new();
    let subscribe = |name: &str, kind: Option<&str>| ClientMessage::Subscribe {
        journal_id: 1,
        name: name.to_string(),
        kind: kind.map(|k| k.to_string()),
    };
    let alice_id = match only(send(&mut state, &mut alice, subscribe("Alice", None))) {
        ServerMessage::Subscribed { journal_id, participant, participants } => {
            assert_eq!(journal_id, 1);
            assert_eq!(participant.name, "Alice");
            assert_eq!(participant.kind, ParticipantKind::User);
            assert_eq!(participants.len(), 1);
            participant.id
        }
        other => panic!("expected subscribed, got {:?}", other),
    };
    assert_eq!(alice.subscription(1), Some(alice_id));
    let bob_id = match only(send(&mut state, &mut bob, subscribe("Bob", Some("agent")))) {
        ServerMessage::Subscribed { participant, participants, .. } => {
            assert_eq!(participant.kind, ParticipantKind::Agent);
            assert_eq!(participants.len(), 2);
            participant.id
        }
        other => panic!("expected subscribed, got {:?}", other),
    };
    match only(send(&mut state, &mut bob, ClientMessage::GetPresence { journal_id: 1 })) {
        ServerMessage::Presence { journal_id, participants } => {
            assert_eq!(journal_id, 1);
            let mut who: Vec<u128> = participants.iter().map(|p| p.id).collect();
            who.sort();
            let mut want = vec![alice_id, bob_id];
            want.sort();
            assert_eq!(who, want);
        }
        other => panic!("expected presence, got {:?}", other),
    }
    match only(send(&mut state, &mut bob, ClientMessage::GetPresence { journal_id: 2 })) {
        ServerMessage::Presence { participants, .. } => assert!(participants.is_empty()),
        other => panic!("expected presence, got {:?}", other),
    }
    let mut room = state.room_manager.take(1).unwrap();
    let _ = room.take_events();
    state.room_manager.put(room);
    let cursor = ClientMessage::Cursor { journal_id: 1, block_id: Some(3), offset: Some(4) };
    assert!(send(&mut state, &mut alice, cursor).is_empty());
    let unsubscribed = ClientMessage::Cursor { journal_id: 2, block_id: None, offset: None };
    assert!(send(&mut state, &mut alice, unsubscribed).is_empty());
    let mut room = state.room_manager.take(1).unwrap();
    let events = room.take_events();
    state.room_manager.put(room);
    assert_eq!(events.len(), 1);
    // Alice's own move is not echoed to her, but reaches Bob.
    let mine = RoomEvent::CursorMoved { participant_id: alice_id, block_id: Some(3), offset: Some(4) };
    assert!(relay_room_event(1, alice_id, mine).is_none());
    for event in events {
        match relay_room_event(1, bob_id, event) {
            Some(ServerMessage::CursorMoved { journal_id, participant_id, block_id, offset }) => {
                assert_eq!(journal_id, 1);
                assert_eq!(participant_id, alice_id);
                assert_eq!(block_id, Some(3));
                assert_eq!(offset, Some(4));
            }
            other => panic!("expected cursor_moved, got {:?}", other),
        }
    }
    match only(send(&mut state, &mut alice, ClientMessage::Unsubscribe { journal_id: 1 })) {
        ServerMessage::Unsubscribed { journal_id } => assert_eq!(journal_id, 1),
        other => panic!("expected unsubscribed, got {:?}", other),
    }
    assert_eq!(alice.subscription(1), None);
    assert_eq!(state.room_manager.get(1).unwrap().participant_count(), 1);
    assert_eq!(send(&mut state, &mut alice, ClientMessage::Unsubscribe { journal_id: 1 }).len(), 1);
    assert_eq!(state.room_manager.get(1).unwrap().participant_count(), 1);
}

#[test]
fn relay_keeps_a_subscriber_from_its_own_echo() {
    let me = 5;
    let other = Participant::with_id(6, "Other", ParticipantKind::User);
    let myself = Participant::with_id(me, "Me", ParticipantKind::User);
    assert!(relay_room_event(1, me, RoomEvent::ParticipantJoined(myself)).is_none());
    match relay_room_event(1, me, RoomEvent::ParticipantJoined(other)) {
        Some(ServerMessage::ParticipantJoined { journal_id, participant }) => {
            assert_eq!(journal_id, 1);
            assert_eq!(participant.id, 6);
        }
        other => panic!("expected participant_joined, got {:?}", other),
    }
    // Leaving and status changes are told to everyone, the subscriber included.
    match relay_room_event(1, me, RoomEvent::ParticipantLeft { participant_id: me }) {
        Some(ServerMessage::ParticipantLeft { participant_id, .. }) => assert_eq!(participant_id, me),
        other => panic!("expected participant_left, got {:?}", other),
    }
    let idle = RoomEvent::StatusChanged { participant_id: me, status: ParticipantStatus::Idle };
    match relay_room_event(1, me, idle) {
        Some(ServerMessage::ParticipantStatusChanged { participant_id, status, .. }) => {
            assert_eq!(participant_id, me);
            assert_eq!(status, ParticipantStatus::Idle);
        }
        other => panic!("expected participant_status_changed, got {:?}", other),
    }
    let own = RoomEvent::CrdtUpdate { source: Some(me), update: vec![1, 2, 3] };
    assert!(relay_room_event(1, me, own).is_none());
    let foreign = RoomEvent::CrdtUpdate { source: Some(6), update: b"Hello".to_vec() };
    match relay_room_event(1, me, foreign) {
        Some(ServerMessage::CrdtUpdate { journal_id, source, update }) => {
            assert_eq!(journal_id, 1);
            assert_eq!(source, Some(6));
            assert_eq!(update, "SGVsbG8=");
        }
        other => panic!("expected crdt_update, got {:?}", other),
    }
    let server = RoomEvent::CrdtUpdate { source: None, update: vec![] };
    match relay_room_event(1, me, server) {
        Some(ServerMessage::CrdtUpdate { source, update, .. }) => {
            assert_eq!(source, None);
            assert_eq!(update, "");
        }
        other => panic!("expected crdt_update, got {:?}", other),
    }
    match relay_room_event(1, me, RoomEvent::SyncState { state: vec![1, 0, 0, 1] }) {
        Some(ServerMessage::SyncState { state, .. }) => assert_eq!(state, "AQAAAQ=="),
        other => panic!("expected sync_state, got {:?}", other),
    }
}

#[test]
fn crdt_updates_and_sync() {
    let mut state = AppState::new();
    let mut alice = ConnectionState::new();
    // Without a room nothing happens.
    let update = ClientMessage::CrdtUpdate { journal_id: 1, update: "AAAA".to_string() };
    assert!(send(&mut state, &mut alice, update).is_empty());
    let sync = ClientMessage::SyncRequest { journal_id: 1, state_vector: None };
    assert!(send(&mut state, &mut alice, sync).is_empty());

    let subscribe = ClientMessage::Subscribe { journal_id: 1, name: "A".to_string(), kind: None };
    let alice_id = match only(send(&mut state, &mut alice, subscribe)) {
        ServerMessage::Subscribed { participant, .. } => participant.id,
        other => panic!("expected subscribed, got {:?}", other),
    };
    let mut remote = JournalDoc::new(1);
    remote.set_block_content(5, "typed elsewhere");
    let update = ClientMessage::CrdtUpdate {
        journal_id: 1,
        update: base64_encode(&remote.encode_state()),
    };
    assert!(send(&mut state, &mut alice, update).is_empty());
    assert_eq!(
        state.room_manager.get(1).unwrap().doc().get_block_content(5),
        Some("typed elsewhere".to_string())
    );
    let mut room = state.room_manager.take(1).unwrap();
    match room.take_events().pop() {
        Some(RoomEvent::CrdtUpdate { source, update }) => {
            assert_eq!(source, Some(alice_id));
            assert_eq!(update, remote.encode_state());
        }
        other => panic!("expected a crdt update, got {:?}", other),
    }
    state.room_manager.put(room);
    let bad = ClientMessage::CrdtUpdate { journal_id: 1, update: "!!invalid!!".to_string() };
    assert_eq!(
        error_text(only(send(&mut state, &mut alice, bad))),
        "Invalid base64 update: Invalid base64 length"
    );
    let bad = ClientMessage::CrdtUpdate { journal_id: 1, update: "ab!d".to_string() };
    assert_eq!(
        error_text(only(send(&mut state, &mut alice, bad))),
        "Invalid base64 update: Invalid base64 character: !"
    );
    // The whole state, for a client that sends no vector or a garbled one.
    for state_vector in [None, Some("***".to_string())] {
        let sync = ClientMessage::SyncRequest { journal_id: 1, state_vector };
        match only(send(&mut state, &mut alice, sync)) {
            ServerMessage::SyncState { journal_id, state: sent } => {
                assert_eq!(journal_id, 1);
                let bytes = outer::websocket::base64_decode(&sent).unwrap();
                let doc = JournalDoc::from_update(1, &bytes).unwrap();
                assert_eq!(doc.get_block_content(5), Some("typed elsewhere".to_string()));
            }
            other => panic!("expected sync_state, got {:?}", other),
        }
    }
    // The difference, for a client that says what it has.
    let sync = ClientMessage::SyncRequest {
        journal_id: 1,
        state_vector: Some(base64_encode(&JournalDoc::new(1).state_vector())),
    };
    match only(send(&mut state, &mut alice, sync)) {
        ServerMessage::SyncState { state: sent, .. } => {
            let mut doc = JournalDoc::new(1);
            doc.apply_update(&outer::websocket::base64_decode(&sent).unwrap()).unwrap();
            assert_eq!(doc.get_block_content(5), Some("typed elsewhere".to_string()));
        }
        other => panic!("expected sync_state, got {:?}", other),
    }
    // A vector that the document cannot read gets no answer.
    let sync = ClientMessage::SyncRequest {
        journal_id: 1,
        state_vector: Some(base64_encode(&[0xff, 0xff, 0xff])),
    };
    assert!(send(&mut state, &mut alice, sync).is_empty());
}

#[test]
fn disconnect_leaves_rooms_and_register() {
    let mut state = AppState::new();
    let mut alice = ConnectionState::new();
    let mut bob = ConnectionState::new();
    for journal_id in [1, 2] {
        let subscribe = ClientMessage::Subscribe { journal_id, name: "A".to_string(), kind: None };
        send(&mut state, &mut alice, subscribe);
    }
    let subscribe = ClientMessage::Subscribe { journal_id: 1, name: "B".to_string(), kind: None };
    send(&mut state, &mut bob, subscribe);
    let alice_id = register(&mut state, &mut alice, "Alice", "user");
    let bob_id = register(&mut state, &mut bob, "Bob", "agent");
    let work = match only(send(&mut state, &mut alice, delegate(false, bob_id))) {
        ServerMessage::WorkDelegated { work_item } => work_item.id,
        other => panic!("expected work_delegated, got {:?}", other),
    };
    disconnect(&mut state, alice);
    assert_eq!(state.room_manager.get(1).unwrap().participant_count(), 1);
    assert_eq!(state.room_manager.get(2).unwrap().participant_count(), 0);
    assert!(state.delegation_manager.get_participant(alice_id).is_none());
    assert!(state.delegation_manager.get_participant(bob_id).is_some());
    assert_eq!(work_queue(&mut state, &mut bob), vec![(work, WorkItemStatus::Pending)]);
    state.room_manager.cleanup_empty_rooms();
    assert_eq!(state.room_manager.room_count(), 1);
}

#[test]
fn an_unreadable_frame_is_answered_with_an_error() {
    assert_eq!(
        error_text(unreadable_frame("missing field `type` at line 1 column 2")),
        "Invalid message: missing field `type` at line 1 column 2"
    );
}

#[test]
fn test_app_initial_state() {
    // Just verify the struct can be created with expected defaults
    let input = String::new();
    assert!(input.is_empty());
    let app = outer::tui::App::new(7);
    assert_eq!(app.journal_id, 7);
    assert!(app.input.is_empty());
    assert!(app.blocks.is_empty());
    assert!(app.participants.is_empty());
    assert_eq!(app.scroll, 0);
    assert!(!app.streaming);
    assert!(app.streaming_content.is_empty());
    assert_eq!(app.streaming_block_id, None);
    assert!(!app.should_quit);
    assert_eq!(app.status, "Connected");
}

#[test]
fn the_view_follows_a_streamed_answer() {
    let mut state = AppState::new();
    let mut conn = ConnectionState::new();
    let journal_id = create_journal(&mut state, &mut conn, "T");
    let mut app = outer::tui::App::new(journal_id);
    assert_eq!(app.submit_input(), None);
    app.input = "Hi".to_string();
    let content = app.submit_input().unwrap();
    assert_eq!(content, "Hi");
    assert_eq!(app.status, "Sending...");
    assert!(app.input.is_empty());

    let submit = ClientMessage::Submit { journal_id, content, session_id: None };
    let Reply { messages, job, .. } = handle_message(&mut state, &mut conn, submit);
    for message in messages {
        app.handle_server_message(message);
    }
    let job = job.unwrap();
    assert_eq!(app.blocks.len(), 2);
    assert!(app.streaming);
    assert_eq!(app.streaming_block_id, Some(job.block_id));
    app.input = "too early".to_string();
    assert_eq!(app.submit_input(), None);
    assert_eq!(app.input, "too early");

    let (mut run, started) = StreamRun::start(&mut state.store, &job);
    let mut frames = started;
    for text in ["Hello ", "World"] {
        let event = StreamEvent::Content(ContentEvent { text: text.to_string() });
        frames.extend(run.on_event(&mut state.store, Ok(event)));
    }
    // A delta for another block is passed over.
    frames.push(ServerMessage::BlockContentDelta { block_id: 1, delta: "x".to_string() });
    for frame in frames {
        app.handle_server_message(frame);
    }
    assert_eq!(app.streaming_content, "Hello World");
    assert_eq!(app.blocks[1].content, "Hello World");
    assert_eq!(app.blocks[1].status, BlockStatus::Streaming);
    assert_eq!(app.blocks[0].content, "Hi");
    for frame in run.on_event(&mut state.store, Ok(StreamEvent::Done)) {
        app.handle_server_message(frame);
    }
    assert!(!app.streaming);
    assert_eq!(app.streaming_block_id, None);
    assert_eq!(app.status, "Ready");
    assert_eq!(app.blocks[1].status, BlockStatus::Complete);

    app.handle_server_message(ServerMessage::Error { message: "boom".to_string() });
    assert_eq!(app.status, "Error: boom");
    let a = Participant::with_id(1, "A", ParticipantKind::User);
    let b = Participant::with_id(2, "B", ParticipantKind::User);
    let c = Participant::with_id(3, "C", ParticipantKind::User);
    app.handle_server_message(ServerMessage::Subscribed {
        journal_id,
        participant: a.clone(),
        participants: vec![a, b],
    });
    app.handle_server_message(ServerMessage::ParticipantJoined { journal_id, participant: c });
    app.handle_server_message(ServerMessage::ParticipantLeft { journal_id, participant_id: 2 });
    let names: Vec<&str> = app.participants.iter().map(|p| p.name.as_str()).collect();
    assert_eq!(names, vec!["A", "C"]);
    app.handle_server_message(ServerMessage::Unsubscribed { journal_id });
    assert_eq!(app.participants.len(), 2);
    let stored = state.store.get_blocks_for_journal(journal_id).unwrap();
    app.load_journal(stored);
    assert_eq!(app.blocks.len(), 2);
}

#[test]
fn test_server_message_debug() {
    let msg = ServerMessage::Error { message: "test".to_string() };
    let debug_str = format!("{:?}", msg);
    assert!(debug_str.contains("Error"));
}

#[test]
fn test_client_message_debug() {
    let msg = ClientMessage::ListJournals;
    let debug_str = format!("{:?}", msg);
    assert!(debug_str.contains("ListJournals"));
}
