use outer::delegation::work_item::{WorkItem, WorkItemStatus, WorkPriority};
use outer::websocket::{handle_message, ClientMessage, ConnectionState, ServerMessage};
use outer::AppState;

const JOURNAL: u128 = 0x6f1d_2c3b_4a59_4e68_9f70_8192_a3b4_c5d6;

fn exchange(
    state: &mut AppState,
    conn: &mut ConnectionState,
    message: ClientMessage,
) -> ServerMessage {
    let reply = handle_message(state, conn, message);
    assert!(reply.job.is_none());
    let mut messages = reply.messages;
    assert_eq!(messages.len(), 1, "{:?}", messages);
    messages.remove(0)
}

struct Registered {
    id: u128,
    name: String,
    kind: String,
    capabilities: Vec<String>,
}

fn register(state: &mut AppState, conn: &mut ConnectionState, name: &str, kind: &str) -> Registered {
    let message = ClientMessage::RegisterParticipant {
        journal_id: JOURNAL,
        name: name.to_string(),
        kind: Some(kind.to_string()),
        capabilities: None,
    };
    match exchange(state, conn, message) {
        ServerMessage::ParticipantRegistered { participant_id, name, kind, capabilities } => {
            Registered { id: participant_id, name, kind, capabilities }
        }
        other => panic!("expected participant_registered, got {:?}", other),
    }
}

fn delegate(
    state: &mut AppState,
    conn: &mut ConnectionState,
    description: &str,
    assignee_id: u128,
    priority: Option<&str>,
    requires_approval: bool,
) -> WorkItem {
    let message = ClientMessage::Delegate {
        journal_id: JOURNAL,
        description: description.to_string(),
        assignee_id,
        block_id: None,
        priority: priority.map(|p| p.to_string()),
        requires_approval,
        approver_id: None,
    };
    match exchange(state, conn, message) {
        ServerMessage::WorkDelegated { work_item } => work_item,
        other => panic!("expected work_delegated, got {:?}", other),
    }
}

#[test]
fn test_register_participant_user() {
    let mut state = AppState::new();
    let mut ws = ConnectionState::new();
    let response = register(&mut state, &mut ws, "Alice", "user");
    assert_eq!(response.name, "Alice");
    assert_eq!(response.kind, "user");

    // User should have delegate and approve capabilities
    assert!(response.capabilities.iter().any(|c| c == "delegate"));
    assert!(response.capabilities.iter().any(|c| c == "approve"));
}

#[test]
fn test_register_participant_agent() {
    let mut state = AppState::new();
    let mut ws = ConnectionState::new();
    let response = register(&mut state, &mut ws, "Bot", "agent");
    assert_eq!(response.name, "Bot");
    assert_eq!(response.kind, "agent");

    // Agent should have delegate but not approve
    assert!(response.capabilities.iter().any(|c| c == "delegate"));
    assert!(!response.capabilities.iter().any(|c| c == "approve"));
}

#[test]
fn test_human_to_agent_delegation() {
    let mut state = AppState::new();
    let mut ws_alice = ConnectionState::new();
    let _alice = register(&mut state, &mut ws_alice, "Alice", "user");
    let mut ws_bot = ConnectionState::new();
    let bot = register(&mut state, &mut ws_bot, "Bot", "agent");

    // Alice delegates to Bot
    let work_item =
        delegate(&mut state, &mut ws_alice, "Implement feature X", bot.id, Some("high"), true);
    assert_eq!(work_item.description, "Implement feature X");
    assert_eq!(work_item.priority, WorkPriority::High);
    assert_eq!(work_item.status, WorkItemStatus::Pending);
}

#[test]
fn test_agent_to_human_delegation() {
    let mut state = AppState::new();
    let mut ws_bot = ConnectionState::new();
    let _bot = register(&mut state, &mut ws_bot, "Bot", "agent");
    let mut ws_alice = ConnectionState::new();
    let alice = register(&mut state, &mut ws_alice, "Alice", "user");

    // Bot delegates back to Alice
    let work_item = delegate(
        &mut state,
        &mut ws_bot,
        "Need clarification on requirements",
        alice.id,
        None,
        false,
    );
    assert_eq!(work_item.description, "Need clarification on requirements");
}

#[test]
fn test_accept_and_complete_work() {
    let mut state = AppState::new();
    let mut ws_alice = ConnectionState::new();
    let _alice = register(&mut state, &mut ws_alice, "Alice", "user");
    let mut ws_bot = ConnectionState::new();
    let bot = register(&mut state, &mut ws_bot, "Bot", "agent");

    // Alice delegates to Bot (no approval required)
    let work_item = delegate(&mut state, &mut ws_alice, "Simple task", bot.id, None, false);

    // Bot accepts the work
    let accept = ClientMessage::AcceptWork { work_item_id: work_item.id };
    assert!(matches!(
        exchange(&mut state, &mut ws_bot, accept),
        ServerMessage::WorkAccepted { .. }
    ));

    // Bot submits the work
    let submit = ClientMessage::SubmitWork {
        work_item_id: work_item.id,
        result: "Task completed successfully".to_string(),
    };
    // Since no approval required, should be directly approved
    assert!(matches!(
        exchange(&mut state, &mut ws_bot, submit),
        ServerMessage::WorkApproved { .. }
    ));
}

#[test]
fn test_approval_flow() {
    let mut state = AppState::new();
    let mut ws_alice = ConnectionState::new();
    let _alice = register(&mut state, &mut ws_alice, "Alice", "user");
    let mut ws_bot = ConnectionState::new();
    let bot = register(&mut state, &mut ws_bot, "Bot", "agent");

    // Alice delegates to Bot with approval required
    let work_item = delegate(&mut state, &mut ws_alice, "Important task", bot.id, None, true);

    // Bot accepts and submits
    let accept = ClientMessage::AcceptWork { work_item_id: work_item.id };
    let _ = exchange(&mut state, &mut ws_bot, accept);
    let submit =
        ClientMessage::SubmitWork { work_item_id: work_item.id, result: "Work done".to_string() };

    // Should be awaiting approval
    let approval_id = match exchange(&mut state, &mut ws_bot, submit) {
        ServerMessage::ApprovalRequested { approval, .. } => approval.id,
        other => panic!("expected approval_requested, got {:?}", other),
    };

    // Alice approves
    let approve =
        ClientMessage::ApproveWork { approval_id, feedback: Some("Good job!".to_string()) };
    match exchange(&mut state, &mut ws_alice, approve) {
        ServerMessage::WorkApproved { feedback, .. } => {
            assert_eq!(feedback.as_deref(), Some("Good job!"));
        }
        other => panic!("expected work_approved, got {:?}", other),
    }
}

#[test]
fn delegation_tests_test_decline_work() {
    let mut state = AppState::new();
    let mut ws_alice = ConnectionState::new();
    let _alice = register(&mut state, &mut ws_alice, "Alice", "user");
    let mut ws_bot = ConnectionState::new();
    let bot = register(&mut state, &mut ws_bot, "Bot", "agent");

    // Alice delegates
    let work_item = delegate(&mut state, &mut ws_alice, "Impossible task", bot.id, None, false);

    // Bot declines
    let decline = ClientMessage::DeclineWork { work_item_id: work_item.id };
    assert!(matches!(
        exchange(&mut state, &mut ws_bot, decline),
        ServerMessage::WorkDeclined { .. }
    ));
}

#[test]
fn test_get_work_queue() {
    let mut state = AppState::new();
    let mut ws_alice = ConnectionState::new();
    let _alice = register(&mut state, &mut ws_alice, "Alice", "user");
    let mut ws_bot = ConnectionState::new();
    let bot = register(&mut state, &mut ws_bot, "Bot", "agent");

    // Alice delegates multiple tasks
    for i in 1..=3 {
        let _ =
            delegate(&mut state, &mut ws_alice, &format!("Task {}", i), bot.id, None, false);
    }

    // Bot gets work queue
    match exchange(&mut state, &mut ws_bot, ClientMessage::GetWorkQueue) {
        ServerMessage::WorkQueue { items } => assert_eq!(items.len(), 3),
        other => panic!("expected work_queue, got {:?}", other),
    }
}

#[test]
fn delegation_tests_test_cancel_work() {
    let mut state = AppState::new();
    let mut ws_alice = ConnectionState::new();
    let _alice = register(&mut state, &mut ws_alice, "Alice", "user");
    let mut ws_bot = ConnectionState::new();
    let bot = register(&mut state, &mut ws_bot, "Bot", "agent");

    // Alice delegates
    let work_item = delegate(&mut state, &mut ws_alice, "Task to cancel", bot.id, None, false);

    // Alice cancels
    let cancel = ClientMessage::CancelWork { work_item_id: work_item.id };
    assert!(matches!(
        exchange(&mut state, &mut ws_alice, cancel),
        ServerMessage::WorkCancelled { .. }
    ));
}

#[test]
fn test_human_to_human_delegation() {
    let mut state = AppState::new();
    let mut ws_alice = ConnectionState::new();
    let _alice = register(&mut state, &mut ws_alice, "Alice", "user");
    let mut ws_bob = ConnectionState::new();
    let bob = register(&mut state, &mut ws_bob, "Bob", "user");

    // Alice delegates to Bob
    let work_item = delegate(&mut state, &mut ws_alice, "Review my code", bob.id, None, true);
    assert_eq!(work_item.description, "Review my code");
}

#[test]
fn test_agent_to_agent_delegation() {
    let mut state = AppState::new();
    let mut ws_bot1 = ConnectionState::new();
    let _bot1 = register(&mut state, &mut ws_bot1, "Bot1", "agent");
    let mut ws_bot2 = ConnectionState::new();
    let bot2 = register(&mut state, &mut ws_bot2, "Bot2", "agent");

    // Bot1 delegates to Bot2
    let work_item = delegate(
        &mut state,
        &mut ws_bot1,
        "Subtask for specialized agent",
        bot2.id,
        None,
        false,
    );
    assert_eq!(work_item.description, "Subtask for specialized agent");
}

#[test]
fn test_get_participants() {
    let mut state = AppState::new();
    let mut ws_alice = ConnectionState::new();
    let _alice = register(&mut state, &mut ws_alice, "Alice", "user");
    let mut ws_bot = ConnectionState::new();
    let _bot = register(&mut state, &mut ws_bot, "Bot", "agent");

    // Get available participants
    let ask = ClientMessage::GetParticipants { journal_id: JOURNAL };
    match exchange(&mut state, &mut ws_alice, ask) {
        ServerMessage::AvailableParticipants { participants } => {
            assert_eq!(participants.len(), 2)
        }
        other => panic!("expected available_participants, got {:?}", other),
    }
}

#[test]
fn delegation_tests_test_set_accepting_work() {
    let mut state = AppState::new();
    let mut ws = ConnectionState::new();
    let _bot = register(&mut state, &mut ws, "Bot", "agent");

    // Disable accepting work
    let set = ClientMessage::SetAcceptingWork { accepting: false };
    match exchange(&mut state, &mut ws, set) {
        ServerMessage::AcceptingWorkChanged { accepting, .. } => assert!(!accepting),
        other => panic!("expected accepting_work_changed, got {:?}", other),
    }
}

#[test]
fn delegation_tests_test_reject_work() {
    let mut state = AppState::new();
    let mut ws_alice = ConnectionState::new();
    let _alice = register(&mut state, &mut ws_alice, "Alice", "user");
    let mut ws_bot = ConnectionState::new();
    let bot = register(&mut state, &mut ws_bot, "Bot", "agent");

    // Alice delegates with approval required
    let work_item = delegate(&mut state, &mut ws_alice, "Needs work", bot.id, None, true);

    // Bot accepts and submits
    let accept = ClientMessage::AcceptWork { work_item_id: work_item.id };
    let _ = exchange(&mut state, &mut ws_bot, accept);
    let submit = ClientMessage::SubmitWork {
        work_item_id: work_item.id,
        result: "First attempt".to_string(),
    };
    let approval_id = match exchange(&mut state, &mut ws_bot, submit) {
        ServerMessage::ApprovalRequested { approval, .. } => approval.id,
        other => panic!("expected approval_requested, got {:?}", other),
    };

    // Alice rejects
    let reject =
        ClientMessage::RejectWork { approval_id, feedback: "Please add more tests".to_string() };
    match exchange(&mut state, &mut ws_alice, reject) {
        ServerMessage::WorkRejected { feedback, .. } => {
            assert_eq!(feedback, "Please add more tests");
        }
        other => panic!("expected work_rejected, got {:?}", other),
    }
}
