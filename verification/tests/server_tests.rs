use outer::error::AppError;
use outer::opencode::{feed_events, OpenCodeClient, Session, SseParser, UpstreamReply};
use outer::websocket::{
    disconnect, error_frame, handle_message, room_of, rows_to_write, unreadable_frame,
    ClientMessage, ConnectionState, Row, ServerMessage, StreamJob, StreamRun,
};
use outer::AppState;

/// A stand-in for the upstream service: what it answers on each route, and
/// "not found" on every other.
struct MockServer {
    routes: Vec<(&'static str, String, u16, String)>,
}

impl MockServer {
    fn start() -> MockServer {
        MockServer { routes: Vec::new() }
    }

    fn uri(&self) -> String {
        "http://127.0.0.1:4096".to_string()
    }

    fn mount(&mut self, method: &'static str, path: &str, status: u16, body: &str) {
        self.routes.push((method, path.to_string(), status, body.to_string()));
    }

    fn answer(&self, method: &str, url: &str) -> UpstreamReply {
        let path = url.strip_prefix(self.uri().as_str()).expect("a request to this server");
        for (m, p, status, body) in &self.routes {
            if *m == method && p == path {
                return UpstreamReply {
                    status: *status,
                    status_text: status.to_string(),
                    body: body.clone(),
                };
            }
        }
        UpstreamReply { status: 404, status_text: "404 Not Found".to_string(), body: String::new() }
    }
}

fn read_session(body: &str) -> Result<Session, String> {
    let value: serde_json::Value = serde_json::from_str(body).map_err(|e| e.to_string())?;
    let text = |key: &str| value.get(key).and_then(|v| v.as_str()).map(|s| s.to_string());
    Ok(Session {
        id: text("id").ok_or("missing field `id`".to_string())?,
        version: text("version"),
        project_id: text("projectID"),
    })
}

/// Streams the response of a job as the server does, and returns the frames
/// that the client gets.
fn stream(state: &mut AppState, server: &MockServer, job: StreamJob) -> Vec<ServerMessage> {
    let client = OpenCodeClient::new(&server.uri());
    let mut sent = Vec::new();
    let session_id = match job.session_id.clone() {
        Some(id) => id,
        None => {
            let reply = server.answer("POST", &client.session_url());
            let parsed = read_session(&reply.body);
            match client.session_from(&reply, parsed) {
                Ok(session) => session.id,
                Err(e) => {
                    sent.push(error_frame(&e));
                    return sent;
                }
            }
        }
    };
    let (mut run, started) = StreamRun::start(&mut state.store, &job);
    sent.extend(started);
    let opened = server.answer("GET", &client.event_url());
    let posted: Result<(), AppError> = client
        .events_opened(&opened)
        .and_then(|_| client.prompt_sent(&server.answer("POST", &client.prompt_url(&session_id))));
    if let Err(e) = posted {
        sent.push(error_frame(&e));
        return sent;
    }
    let mut parser = SseParser::new();
    for event in feed_events(&mut parser, opened.body.as_bytes(), Some(&session_id)) {
        sent.extend(run.on_event(&mut state.store, event));
    }
    sent
}

/// One exchange over a connection: the frames that come back, those of the
/// streamed response included.
fn exchange(
    state: &mut AppState,
    conn: &mut ConnectionState,
    server: &MockServer,
    message: ClientMessage,
) -> Vec<ServerMessage> {
    let reply = handle_message(state, conn, message);
    let mut sent = reply.messages;
    if let Some(job) = reply.job {
        sent.extend(stream(state, server, job));
    }
    sent
}

fn kind(message: &ServerMessage) -> &'static str {
    match message {
        ServerMessage::JournalCreated { .. } => "journal_created",
        ServerMessage::Journal { .. } => "journal",
        ServerMessage::Journals { .. } => "journals",
        ServerMessage::BlockCreated { .. } => "block_created",
        ServerMessage::BlockContentDelta { .. } => "block_content_delta",
        ServerMessage::BlockStatusChanged { .. } => "block_status_changed",
        ServerMessage::Error { .. } => "error",
        _ => "other",
    }
}

fn created(messages: Vec<ServerMessage>) -> u128 {
    match messages.into_iter().next() {
        Some(ServerMessage::JournalCreated { journal_id, .. }) => journal_id,
        other => panic!("expected journal_created, got {:?}", other),
    }
}

#[test]
fn test_app_state_new() {
    let mut state = AppState::new();
    // A new state holds nothing.
    assert!(state.store.list_journals().unwrap().is_empty());
    assert_eq!(state.room_manager.room_count(), 0);
    assert!(state.delegation_manager.list_participants().is_empty());
    assert!(state.delegation_manager.take_events().is_empty());
}

#[test]
fn test_websocket_list_journals_empty() {
    let mut state = AppState::new();
    let mut conn = ConnectionState::new();
    let server = MockServer::start();

    let response = exchange(&mut state, &mut conn, &server, ClientMessage::ListJournals);
    assert_eq!(response.len(), 1);
    match &response[0] {
        ServerMessage::Journals { journals } => assert!(journals.is_empty()),
        other => panic!("expected journals, got {:?}", other),
    }
}

#[test]
fn test_websocket_create_journal() {
    let mut state = AppState::new();
    let mut conn = ConnectionState::new();
    let server = MockServer::start();

    let msg = ClientMessage::CreateJournal { title: Some("Test Journal".to_string()) };
    let response = exchange(&mut state, &mut conn, &server, msg);
    assert_eq!(response.len(), 1);
    match &response[0] {
        ServerMessage::JournalCreated { journal_id, title } => {
            assert_eq!(title, "Test Journal");
            assert!(state.store.get_journal(*journal_id).is_ok());
        }
        other => panic!("expected journal_created, got {:?}", other),
    }
}

#[test]
fn test_websocket_create_journal_no_title() {
    let mut state = AppState::new();
    let mut conn = ConnectionState::new();
    let server = MockServer::start();

    let msg = ClientMessage::CreateJournal { title: None };
    let response = exchange(&mut state, &mut conn, &server, msg);
    assert_eq!(response.len(), 1);
    match &response[0] {
        ServerMessage::JournalCreated { title, .. } => assert_eq!(title, "Untitled"),
        other => panic!("expected journal_created, got {:?}", other),
    }
}

#[test]
fn test_websocket_get_journal() {
    let mut state = AppState::new();
    let mut conn = ConnectionState::new();
    let server = MockServer::start();

    // First create a journal
    let msg = ClientMessage::CreateJournal { title: Some("Test".to_string()) };
    let journal_id = created(exchange(&mut state, &mut conn, &server, msg));

    // Now get the journal
    let msg = ClientMessage::GetJournal { journal_id };
    let response = exchange(&mut state, &mut conn, &server, msg);
    assert_eq!(response.len(), 1);
    match &response[0] {
        ServerMessage::Journal { journal, blocks } => {
            assert_eq!(journal.title, "Test");
            assert!(blocks.is_empty());
        }
        other => panic!("expected journal, got {:?}", other),
    }
}

#[test]
fn test_websocket_get_journal_not_found() {
    let mut state = AppState::new();
    let mut conn = ConnectionState::new();
    let server = MockServer::start();

    // Try to get a non-existent journal
    let msg = ClientMessage::GetJournal { journal_id: 0 };
    let response = exchange(&mut state, &mut conn, &server, msg);
    assert_eq!(response.len(), 1);
    match &response[0] {
        ServerMessage::Error { message } => {
            assert!(message.contains("not found"));
            assert_eq!(
                message,
                "Not found: Journal 00000000-0000-0000-0000-000000000000 not found"
            );
        }
        other => panic!("expected error, got {:?}", other),
    }
}

#[test]
fn test_websocket_list_journals_after_create() {
    let mut state = AppState::new();
    let mut conn = ConnectionState::new();
    let server = MockServer::start();

    let msg = ClientMessage::CreateJournal { title: Some("Journal 1".to_string()) };
    let _ = exchange(&mut state, &mut conn, &server, msg);
    let msg = ClientMessage::CreateJournal { title: Some("Journal 2".to_string()) };
    let _ = exchange(&mut state, &mut conn, &server, msg);

    let response = exchange(&mut state, &mut conn, &server, ClientMessage::ListJournals);
    assert_eq!(response.len(), 1);
    match &response[0] {
        ServerMessage::Journals { journals } => assert_eq!(journals.len(), 2),
        other => panic!("expected journals, got {:?}", other),
    }
}

#[test]
fn test_websocket_invalid_message() {
    // What the reader of frames says of a text that is no JSON.
    let detail = serde_json::from_str::<serde_json::Value>("not valid json").unwrap_err().to_string();
    match unreadable_frame(&detail) {
        ServerMessage::Error { message } => {
            assert!(message.contains("Invalid message"));
            assert_eq!(message, format!("Invalid message: {}", detail));
        }
        other => panic!("expected error, got {:?}", other),
    }
}

#[test]
fn test_websocket_close() {
    let mut state = AppState::new();
    let conn = ConnectionState::new();

    // A connection that closes at once leaves nothing behind.
    disconnect(&mut state, conn);
    assert_eq!(state.room_manager.room_count(), 0);
    assert!(state.delegation_manager.list_participants().is_empty());
}

#[test]
fn test_websocket_submit_with_new_session() {
    let mut mock_server = MockServer::start();
    mock_server.mount(
        "POST",
        "/sessions",
        200,
        "{\"id\":\"sess_123\",\"model\":\"large\",\"created_at\":\"2026-01-10T00:00:00Z\"}",
    );
    mock_server.mount(
        "POST",
        "/sessions/sess_123/messages",
        200,
        "event: content\ndata: {\"text\": \"Hello!\"}\n\nevent: done\ndata: \n\n",
    );

    let mut state = AppState::new();
    let mut conn = ConnectionState::new();
    let msg = ClientMessage::CreateJournal { title: Some("Test".to_string()) };
    let journal_id = created(exchange(&mut state, &mut conn, &mock_server, msg));

    // Submit a message
    let msg = ClientMessage::Submit { journal_id, content: "Hello".to_string(), session_id: None };
    let response = exchange(&mut state, &mut conn, &mock_server, msg);

    // We should receive at least one block_created message
    let has_block_created = response.iter().take(2).any(|m| kind(m) == "block_created");
    assert!(has_block_created, "Expected block_created message");
}

#[test]
fn test_websocket_submit_create_session_fails() {
    let mut mock_server = MockServer::start();
    mock_server.mount("POST", "/sessions", 500, "Internal Server Error");

    let mut state = AppState::new();
    let mut conn = ConnectionState::new();
    let msg = ClientMessage::CreateJournal { title: Some("Test".to_string()) };
    let journal_id = created(exchange(&mut state, &mut conn, &mock_server, msg));

    // Submit (should fail because session creation fails)
    let msg = ClientMessage::Submit { journal_id, content: "Hello".to_string(), session_id: None };
    let response = exchange(&mut state, &mut conn, &mock_server, msg);

    // Should get blocks created, then error
    let has_error_or_block =
        response.iter().take(10).any(|m| kind(m) == "error" || kind(m) == "block_created");
    assert!(has_error_or_block);
    let kinds: Vec<&str> = response.iter().map(kind).collect();
    assert_eq!(kinds, vec!["block_created", "block_created", "error"]);
}

#[test]
fn test_websocket_submit_full_flow() {
    let mut mock_server = MockServer::start();
    mock_server.mount(
        "POST",
        "/sessions",
        200,
        "{\"id\":\"sess_full\",\"model\":\"large\",\"created_at\":\"2026-01-10T00:00:00Z\"}",
    );
    mock_server.mount(
        "POST",
        "/sessions/sess_full/messages",
        200,
        "event: content\ndata: {\"text\": \"Hello \"}\n\nevent: content\ndata: {\"text\": \"World\"}\n\nevent: done\ndata: \n\n",
    );

    let mut state = AppState::new();
    let mut conn = ConnectionState::new();
    let msg = ClientMessage::CreateJournal { title: Some("Full Flow Test".to_string()) };
    let journal_id = created(exchange(&mut state, &mut conn, &mock_server, msg));

    // Submit a message
    let msg =
        ClientMessage::Submit { journal_id, content: "Test message".to_string(), session_id: None };
    let messages = exchange(&mut state, &mut conn, &mock_server, msg);

    // Verify we got various message types
    let types: Vec<&str> = messages.iter().take(10).map(kind).collect();
    assert!(types.contains(&"block_created"), "Missing block_created");
}

#[test]
fn test_websocket_submit_with_unknown_event() {
    let mut mock_server = MockServer::start();
    mock_server.mount(
        "POST",
        "/sessions",
        200,
        "{\"id\":\"sess_unk\",\"model\":\"large\",\"created_at\":\"2026-01-10T00:00:00Z\"}",
    );
    mock_server.mount(
        "POST",
        "/sessions/sess_unk/messages",
        200,
        "event: unknown_type\ndata: some_data\n\nevent: done\ndata: \n\n",
    );

    let mut state = AppState::new();
    let mut conn = ConnectionState::new();
    let msg = ClientMessage::CreateJournal { title: Some("Unknown Event Test".to_string()) };
    let journal_id = created(exchange(&mut state, &mut conn, &mock_server, msg));

    // Submit
    let msg = ClientMessage::Submit { journal_id, content: "Test".to_string(), session_id: None };
    let response = exchange(&mut state, &mut conn, &mock_server, msg);

    // Should get at least block_created messages
    let received = response.iter().take(5).any(|m| kind(m) == "block_created");
    assert!(received);
}

#[test]
fn a_submit_is_answered_from_the_stream_of_its_session() {
    let mut server = MockServer::start();
    server.mount("POST", "/session", 200, "{\"id\":\"ses_7\"}");
    server.mount("POST", "/session/ses_7/prompt_async", 204, "");
    server.mount(
        "GET",
        "/event",
        200,
        "data: {\"type\":\"message.part.updated\",\"properties\":{\"delta\":\"Hel\",\"part\":{\"sessionID\":\"ses_7\"}}}\n\n\
         data: {\"type\":\"message.part.updated\",\"properties\":{\"delta\":\"no\",\"part\":{\"sessionID\":\"ses_8\"}}}\n\n\
         data: {\"type\":\"message.part.updated\",\"properties\":{\"part\":{\"sessionID\":\"ses_7\",\"content\":\"lo\"}}}\n\n\
         data: {\"type\":\"session.idle\",\"properties\":{\"sessionID\":\"ses_7\"}}\n\n",
    );

    let mut state = AppState::new();
    let mut conn = ConnectionState::new();
    let msg = ClientMessage::CreateJournal { title: None };
    let journal_id = created(exchange(&mut state, &mut conn, &server, msg));
    let msg = ClientMessage::Submit { journal_id, content: "Hi".to_string(), session_id: None };
    let response = exchange(&mut state, &mut conn, &server, msg);
    let kinds: Vec<&str> = response.iter().map(kind).collect();
    assert_eq!(
        kinds,
        vec![
            "block_created",
            "block_created",
            "block_status_changed",
            "block_content_delta",
            "block_content_delta",
            "block_status_changed",
        ]
    );
    let blocks = state.store.get_blocks_for_journal(journal_id).unwrap();
    assert_eq!(blocks.len(), 2);
    assert_eq!(blocks[1].content, "Hello");
    assert_eq!(blocks[1].parent_id, None);
}

#[test]
fn the_rows_to_write_follow_the_frames() {
    let mut state = AppState::new();
    let mut conn = ConnectionState::new();
    let server = MockServer::start();
    let made = handle_message(
        &mut state,
        &mut conn,
        ClientMessage::CreateJournal { title: Some("T".to_string()) },
    );
    let rows = rows_to_write(&state.store, &made.messages);
    assert_eq!(rows.len(), 1);
    let journal_id = created(made.messages);
    match &rows[0][..] {
        [Row::Journal(row)] => {
            assert_eq!(row.id, uuid::Uuid::from_u128(journal_id).to_string());
            assert_eq!(row.title, "T");
        }
        other => panic!("expected the row of the journal, got {:?}", other),
    }

    let submit = ClientMessage::Submit { journal_id, content: "Hi".to_string(), session_id: None };
    let reply = handle_message(&mut state, &mut conn, submit);
    let rows = rows_to_write(&state.store, &reply.messages);
    assert_eq!(rows.len(), 2);
    for (frame, rows) in reply.messages.iter().zip(&rows) {
        let ServerMessage::BlockCreated { block } = frame else {
            panic!("expected block_created, got {:?}", frame);
        };
        match &rows[..] {
            [Row::Journal(journal), Row::Block(row)] => {
                assert_eq!(journal.id, uuid::Uuid::from_u128(journal_id).to_string());
                assert_eq!(journal.updated_at, state.store.get_journal(journal_id).unwrap().updated_at);
                assert_eq!(row.id, uuid::Uuid::from_u128(block.id).to_string());
                assert_eq!(row.block_type, block.block_type.as_str());
                assert_eq!(row.status, block.status.as_str());
            }
            other => panic!("expected the rows of journal and block, got {:?}", other),
        }
    }

    // A frame about what the store does not hold, or about nothing stored, writes nothing.
    let others = vec![
        ServerMessage::BlockCancelled { block_id: 99 },
        ServerMessage::Error { message: "x".to_string() },
        ServerMessage::Unsubscribed { journal_id },
    ];
    assert!(rows_to_write(&state.store, &others).iter().all(|rows| rows.is_empty()));
    let _ = exchange(&mut state, &mut conn, &server, ClientMessage::ListJournals);

    assert_eq!(room_of(&ClientMessage::Subscribe { journal_id: 4, name: "a".to_string(), kind: None }), Some(4));
    assert_eq!(room_of(&ClientMessage::CrdtUpdate { journal_id: 5, update: String::new() }), Some(5));
    assert_eq!(room_of(&ClientMessage::GetPresence { journal_id: 6 }), None);
    assert_eq!(room_of(&ClientMessage::ListJournals), None);
}
