use outer::clock::Timestamp;
use outer::error::AppError;
use outer::models::{Block, BlockStatus, BlockType, Journal};
use outer::store::{
    block_from_row, block_to_row, journal_from_row, journal_to_row, BlockRow, JournalRow, Store,
};

fn at(secs: i64) -> Timestamp {
    Timestamp { secs, nanos: 0 }
}

fn setup_test_db() -> Store {
    Store::new()
}

fn not_found(result: Result<Block, AppError>) -> String {
    match result {
        Err(AppError::NotFound(m)) => m,
        other => panic!("expected NotFound, got {:?}", other),
    }
}

#[test]
fn test_create_journal_with_title() {
    let mut store = setup_test_db();
    let journal = store.create_journal(Some("My Journal".to_string())).unwrap();
    assert_eq!(journal.title, "My Journal");
}

#[test]
fn test_create_journal_without_title() {
    let mut store = setup_test_db();
    let journal = store.create_journal(None).unwrap();
    assert_eq!(journal.title, "Untitled");
}

#[test]
fn test_get_journal() {
    let mut store = setup_test_db();
    let created = store.create_journal(Some("Test".to_string())).unwrap();
    let fetched = store.get_journal(created.id).unwrap();
    assert_eq!(fetched.id, created.id);
    assert_eq!(fetched.title, "Test");
}

#[test]
fn test_get_journal_not_found() {
    let store = setup_test_db();
    let result = store.get_journal(0x550e8400e29b41d4a716446655440000);
    assert!(result.is_err());
    match result.unwrap_err() {
        AppError::NotFound(m) => {
            assert_eq!(m, "Journal 550e8400-e29b-41d4-a716-446655440000 not found")
        }
        other => panic!("expected NotFound, got {:?}", other),
    }
}

#[test]
fn test_list_journals() {
    let mut store = setup_test_db();
    store.create_journal(Some("First".to_string())).unwrap();
    store.create_journal(Some("Second".to_string())).unwrap();
    let journals = store.list_journals().unwrap();
    assert_eq!(journals.len(), 2);
}

#[test]
fn test_list_journals_empty() {
    let store = setup_test_db();
    let journals = store.list_journals().unwrap();
    assert!(journals.is_empty());
}

#[test]
fn list_journals_puts_the_latest_update_first() {
    let mut store = setup_test_db();
    store.create_journal_with(1, at(10), Some("old".to_string())).unwrap();
    store.create_journal_with(2, at(20), Some("new".to_string())).unwrap();
    store.create_journal_with(3, at(15), Some("mid".to_string())).unwrap();
    let titles: Vec<String> = store.list_journals().unwrap().into_iter().map(|j| j.title).collect();
    assert_eq!(titles, vec!["new", "mid", "old"]);
    // A new block brings its journal to the front.
    store
        .create_block_with(9, at(30), 1, BlockType::User, "hi", None, None)
        .unwrap();
    let titles: Vec<String> = store.list_journals().unwrap().into_iter().map(|j| j.title).collect();
    assert_eq!(titles, vec!["old", "new", "mid"]);
    assert_eq!(store.get_journal(1).unwrap().updated_at, at(30));
    assert_eq!(store.get_journal(1).unwrap().created_at, at(10));
}

#[test]
fn test_create_block() {
    let mut store = setup_test_db();
    let journal = store.create_journal(None).unwrap();
    let block = store.create_block(journal.id, BlockType::User, "Hello").unwrap();
    assert_eq!(block.journal_id, journal.id);
    assert_eq!(block.block_type, BlockType::User);
    assert_eq!(block.content, "Hello");
    // User blocks are complete immediately
    assert_eq!(block.status, BlockStatus::Complete);
}

#[test]
fn test_create_assistant_block() {
    let mut store = setup_test_db();
    let journal = store.create_journal(None).unwrap();
    let block = store
        .create_block(journal.id, BlockType::Assistant, "Hi there")
        .unwrap();
    assert_eq!(block.block_type, BlockType::Assistant);
    assert_eq!(block.status, BlockStatus::Pending);
}

#[test]
fn test_get_block() {
    let mut store = setup_test_db();
    let journal = store.create_journal(None).unwrap();
    let created = store.create_block(journal.id, BlockType::User, "Test").unwrap();
    let fetched = store.get_block(created.id).unwrap();
    assert_eq!(fetched.id, created.id);
    assert_eq!(fetched.content, "Test");
}

#[test]
fn test_get_block_not_found() {
    let store = setup_test_db();
    let result = store.get_block(7);
    assert!(result.is_err());
    assert_eq!(
        not_found(result),
        "Block 00000000-0000-0000-0000-000000000007 not found"
    );
}

#[test]
fn test_get_blocks_for_journal() {
    let mut store = setup_test_db();
    let journal = store.create_journal(None).unwrap();
    store
        .create_block_with(1, at(1), journal.id, BlockType::User, "Message 1", None, None)
        .unwrap();
    store
        .create_block_with(2, at(2), journal.id, BlockType::Assistant, "Response 1", None, None)
        .unwrap();
    let blocks = store.get_blocks_for_journal(journal.id).unwrap();
    assert_eq!(blocks.len(), 2);
    assert_eq!(blocks[0].content, "Message 1");
    assert_eq!(blocks[1].content, "Response 1");
}

#[test]
fn test_get_blocks_for_journal_empty() {
    let mut store = setup_test_db();
    let journal = store.create_journal(None).unwrap();
    let blocks = store.get_blocks_for_journal(journal.id).unwrap();
    assert!(blocks.is_empty());
}

#[test]
fn get_blocks_for_journal_orders_by_creation_time() {
    let mut store = setup_test_db();
    store.create_journal_with(1, at(0), None).unwrap();
    store.create_journal_with(2, at(0), None).unwrap();
    store.create_block_with(10, at(30), 1, BlockType::User, "c", None, None).unwrap();
    store.create_block_with(11, at(10), 1, BlockType::User, "a", None, None).unwrap();
    store.create_block_with(12, at(20), 2, BlockType::User, "other", None, None).unwrap();
    store.create_block_with(13, at(20), 1, BlockType::User, "b", None, None).unwrap();
    store.create_block_with(14, at(20), 1, BlockType::User, "b2", None, None).unwrap();
    let contents: Vec<String> = store
        .get_blocks_for_journal(1)
        .unwrap()
        .into_iter()
        .map(|b| b.content)
        .collect();
    assert_eq!(contents, vec!["a", "b", "b2", "c"]);
}

#[test]
fn test_update_block_content() {
    let mut store = setup_test_db();
    let journal = store.create_journal(None).unwrap();
    let block = store.create_block(journal.id, BlockType::User, "Original").unwrap();
    store.update_block_content(block.id, "Updated").unwrap();
    let fetched = store.get_block(block.id).unwrap();
    assert_eq!(fetched.content, "Updated");
}

#[test]
fn test_update_block_status() {
    let mut store = setup_test_db();
    let journal = store.create_journal(None).unwrap();
    let block = store.create_block(journal.id, BlockType::Assistant, "").unwrap();
    assert_eq!(block.status, BlockStatus::Pending);
    store.update_block_status(block.id, BlockStatus::Streaming).unwrap();
    let fetched = store.get_block(block.id).unwrap();
    assert_eq!(fetched.status, BlockStatus::Streaming);
    store.update_block_status(block.id, BlockStatus::Complete).unwrap();
    let fetched = store.get_block(block.id).unwrap();
    assert_eq!(fetched.status, BlockStatus::Complete);
}

#[test]
fn test_update_block_status_to_error() {
    let mut store = setup_test_db();
    let journal = store.create_journal(None).unwrap();
    let block = store.create_block(journal.id, BlockType::Assistant, "").unwrap();
    store.update_block_status(block.id, BlockStatus::Error).unwrap();
    let fetched = store.get_block(block.id).unwrap();
    assert_eq!(fetched.status, BlockStatus::Error);
}

#[test]
fn updates_of_a_missing_block_change_nothing() {
    let mut store = setup_test_db();
    let journal = store.create_journal(None).unwrap();
    let block = store.create_block(journal.id, BlockType::User, "kept").unwrap();
    assert!(store.update_block_content(block.id + 1, "x").is_ok());
    assert!(store.update_block_status(block.id + 1, BlockStatus::Error).is_ok());
    let fetched = store.get_block(block.id).unwrap();
    assert_eq!(fetched.content, "kept");
    assert_eq!(fetched.status, BlockStatus::Complete);
}

#[test]
fn test_create_block_updates_journal_timestamp() {
    let mut store = setup_test_db();
    let journal = store.create_journal(None).unwrap();
    let original_updated_at = journal.updated_at;
    let block = store.create_block(journal.id, BlockType::User, "New message").unwrap();
    let updated_journal = store.get_journal(journal.id).unwrap();
    assert_eq!(updated_journal.updated_at, block.created_at);
    assert!(!updated_journal.updated_at.is_before(&original_updated_at));
}

#[test]
fn test_journal_row_try_from_invalid_uuid() {
    let row = JournalRow {
        id: "not-a-uuid".to_string(),
        title: "Test".to_string(),
        created_at: at(1),
        updated_at: at(1),
    };
    let result: Result<Journal, AppError> = journal_from_row(row);
    assert!(result.is_err());
    match result.unwrap_err() {
        AppError::Internal(m) => assert!(m.starts_with("Invalid UUID: ")),
        other => panic!("expected Internal, got {:?}", other),
    }
}

fn row() -> BlockRow {
    BlockRow {
        id: "550e8400-e29b-41d4-a716-446655440000".to_string(),
        journal_id: "550e8400-e29b-41d4-a716-446655440001".to_string(),
        block_type: "user".to_string(),
        content: "test".to_string(),
        status: "pending".to_string(),
        parent_id: None,
        forked_from_id: None,
        created_at: at(5),
        updated_at: at(6),
    }
}

fn internal(result: Result<Block, AppError>) -> String {
    match result {
        Err(AppError::Internal(m)) => m,
        other => panic!("expected Internal, got {:?}", other),
    }
}

#[test]
fn test_block_row_try_from_invalid_uuid() {
    let result = block_from_row(BlockRow { id: "not-a-uuid".to_string(), ..row() });
    assert!(internal(result).starts_with("Invalid UUID: "));
}

#[test]
fn test_block_row_try_from_invalid_journal_uuid() {
    let result = block_from_row(BlockRow { journal_id: "not-a-uuid".to_string(), ..row() });
    assert!(internal(result).starts_with("Invalid UUID: "));
}

#[test]
fn test_block_row_try_from_invalid_block_type() {
    let result = block_from_row(BlockRow { block_type: "invalid".to_string(), ..row() });
    assert_eq!(internal(result), "Invalid block type: Invalid block type: invalid");
}

#[test]
fn test_block_row_try_from_invalid_status() {
    let result = block_from_row(BlockRow { status: "invalid".to_string(), ..row() });
    assert_eq!(internal(result), "Invalid status: Invalid block status: invalid");
}

#[test]
fn test_block_row_try_from_invalid_parent_id() {
    let result = block_from_row(BlockRow { parent_id: Some("not-a-uuid".to_string()), ..row() });
    assert!(internal(result).starts_with("Invalid parent_id UUID: "));
}

#[test]
fn test_block_row_try_from_invalid_forked_from_id() {
    let result = block_from_row(BlockRow {
        forked_from_id: Some("not-a-uuid".to_string()),
        ..row()
    });
    assert!(internal(result).starts_with("Invalid forked_from_id UUID: "));
}

#[test]
fn block_row_is_read_field_by_field() {
    // The lineage ids are complained about before the block's own id.
    let result = block_from_row(BlockRow {
        id: "bad".to_string(),
        parent_id: Some("worse".to_string()),
        ..row()
    });
    assert!(internal(result).starts_with("Invalid parent_id UUID: "));
    let block = block_from_row(BlockRow {
        parent_id: Some("550E8400E29B41D4A716446655440002".to_string()),
        forked_from_id: Some("{550e8400-e29b-41d4-a716-446655440003}".to_string()),
        status: "streaming".to_string(),
        block_type: "assistant".to_string(),
        ..row()
    })
    .unwrap();
    assert_eq!(block.id, 0x550e8400e29b41d4a716446655440000);
    assert_eq!(block.journal_id, 0x550e8400e29b41d4a716446655440001);
    assert_eq!(block.parent_id, Some(0x550e8400e29b41d4a716446655440002));
    assert_eq!(block.forked_from_id, Some(0x550e8400e29b41d4a716446655440003));
    assert_eq!(block.block_type, BlockType::Assistant);
    assert_eq!(block.status, BlockStatus::Streaming);
    assert_eq!(block.content, "test");
    assert_eq!(block.created_at, at(5));
    assert_eq!(block.updated_at, at(6));
}

#[test]
fn rows_round_trip() {
    let block = Block {
        id: 0x0123456789abcdef0123456789abcdef,
        journal_id: 0xffffffffffffffffffffffffffffffff,
        block_type: BlockType::Assistant,
        content: "body".to_string(),
        status: BlockStatus::Error,
        parent_id: Some(1),
        forked_from_id: None,
        created_at: at(3),
        updated_at: at(4),
    };
    let row = block_to_row(&block);
    assert_eq!(row.id, "01234567-89ab-cdef-0123-456789abcdef");
    assert_eq!(row.journal_id, "ffffffff-ffff-ffff-ffff-ffffffffffff");
    assert_eq!(row.block_type, "assistant");
    assert_eq!(row.status, "error");
    assert_eq!(row.parent_id.as_deref(), Some("00000000-0000-0000-0000-000000000001"));
    assert_eq!(row.forked_from_id, None);
    let back = block_from_row(row).unwrap();
    assert_eq!(back.id, block.id);
    assert_eq!(back.journal_id, block.journal_id);
    assert_eq!(back.parent_id, block.parent_id);
    assert_eq!(back.status, block.status);
    let journal = Journal { id: 0xa0, title: "T".to_string(), created_at: at(1), updated_at: at(2) };
    let row = journal_to_row(&journal);
    assert_eq!(row.id, "00000000-0000-0000-0000-0000000000a0");
    let back = journal_from_row(row).unwrap();
    assert_eq!(back.id, 0xa0);
    assert_eq!(back.title, "T");
    assert_eq!(back.updated_at, at(2));
}

#[test]
fn test_store_new() {
    let store = Store::new();
    assert!(store.list_journals().unwrap().is_empty());
}

#[test]
fn test_create_block_with_lineage() {
    let mut store = setup_test_db();
    let journal = store.create_journal(None).unwrap();
    let parent_block = store.create_block(journal.id, BlockType::User, "Parent").unwrap();
    let source_block = store.create_block(journal.id, BlockType::User, "Source").unwrap();
    let block = store
        .create_block_with_lineage(
            journal.id,
            BlockType::User,
            "Test",
            Some(parent_block.id),
            Some(source_block.id),
        )
        .unwrap();
    assert_eq!(block.parent_id, Some(parent_block.id));
    assert_eq!(block.forked_from_id, Some(source_block.id));
    let fetched = store.get_block(block.id).unwrap();
    assert_eq!(fetched.parent_id, Some(parent_block.id));
    assert_eq!(fetched.forked_from_id, Some(source_block.id));
}

#[test]
fn creation_refuses_what_the_database_would() {
    let mut store = setup_test_db();
    store.create_journal_with(1, at(0), None).unwrap();
    store.create_block_with(10, at(1), 1, BlockType::User, "a", None, None).unwrap();
    let database = |r: Result<Block, AppError>| match r {
        Err(AppError::Database(m)) => m,
        other => panic!("expected Database, got {:?}", other),
    };
    assert_eq!(
        database(store.create_block_with(10, at(2), 1, BlockType::User, "b", None, None)),
        "UNIQUE constraint failed: blocks.id"
    );
    assert_eq!(
        database(store.create_block_with(11, at(2), 2, BlockType::User, "b", None, None)),
        "FOREIGN KEY constraint failed"
    );
    assert_eq!(
        database(store.create_block_with(11, at(2), 1, BlockType::User, "b", Some(99), None)),
        "FOREIGN KEY constraint failed"
    );
    assert_eq!(
        database(store.create_block_with(11, at(2), 1, BlockType::User, "b", None, Some(99))),
        "FOREIGN KEY constraint failed"
    );
    match store.create_journal_with(1, at(3), None) {
        Err(AppError::Database(m)) => assert_eq!(m, "UNIQUE constraint failed: journals.id"),
        other => panic!("expected Database, got {:?}", other),
    }
    // Nothing was added, and the journal was not touched.
    assert_eq!(store.get_blocks_for_journal(1).unwrap().len(), 1);
    assert_eq!(store.get_journal(1).unwrap().updated_at, at(1));
}

#[test]
fn test_fork_block() {
    let mut store = setup_test_db();
    let journal = store.create_journal(None).unwrap();
    let original = store
        .create_block(journal.id, BlockType::User, "Original message")
        .unwrap();
    let forked = store.fork_block(original.id).unwrap();
    assert_eq!(forked.content, "Original message");
    assert_eq!(forked.block_type, BlockType::User);
    assert_eq!(forked.parent_id, Some(original.id));
    assert_eq!(forked.forked_from_id, Some(original.id));
    assert_ne!(forked.id, original.id);
    // The fork lies in the journal of its origin, is complete, and is no older.
    assert_eq!(forked.journal_id, journal.id);
    assert_eq!(forked.status, BlockStatus::Complete);
    assert!(!forked.created_at.is_before(&original.created_at));
}

#[test]
fn fork_of_an_assistant_block_copies_its_content() {
    let mut store = setup_test_db();
    store.create_journal_with(1, at(0), None).unwrap();
    store.create_block_with(10, at(1), 1, BlockType::User, "prompt", None, None).unwrap();
    store.create_block_with(11, at(2), 1, BlockType::Assistant, "answer", None, None).unwrap();
    let forked = store.fork_block_with(12, at(3), 11).unwrap();
    assert_eq!(forked.content, "answer");
    assert_eq!(forked.block_type, BlockType::User);
    assert_eq!(forked.status, BlockStatus::Complete);
    assert_eq!(forked.parent_id, Some(11));
    assert_eq!(forked.forked_from_id, Some(11));
    assert_eq!(forked.id, 12);
    assert_eq!(forked.created_at, at(3));
}

#[test]
fn test_rerun_user_block() {
    let mut store = setup_test_db();
    let journal = store.create_journal(None).unwrap();
    let original = store.create_block(journal.id, BlockType::User, "User prompt").unwrap();
    let rerun = store.rerun_block(original.id).unwrap();
    assert_eq!(rerun.content, "User prompt");
    assert_eq!(rerun.block_type, BlockType::User);
    assert_eq!(rerun.parent_id, Some(original.id));
    assert_eq!(rerun.forked_from_id, Some(original.id));
}

#[test]
fn test_rerun_assistant_block() {
    let mut store = setup_test_db();
    let journal = store.create_journal(None).unwrap();
    let user_block = store
        .create_block_with(1, at(1), journal.id, BlockType::User, "User prompt", None, None)
        .unwrap();
    let assistant_block = store
        .create_block_with(2, at(2), journal.id, BlockType::Assistant, "Assistant response", None, None)
        .unwrap();
    let rerun = store.rerun_block(assistant_block.id).unwrap();
    assert_eq!(rerun.content, "User prompt");
    assert_eq!(rerun.block_type, BlockType::User);
    assert_eq!(rerun.parent_id, Some(assistant_block.id));
    assert_eq!(rerun.forked_from_id, Some(assistant_block.id));
    assert_ne!(rerun.id, user_block.id);
}

#[test]
fn rerun_repeats_the_nearest_preceding_prompt() {
    let mut store = setup_test_db();
    store.create_journal_with(1, at(0), None).unwrap();
    store.create_journal_with(2, at(0), None).unwrap();
    store.create_block_with(10, at(10), 1, BlockType::User, "first", None, None).unwrap();
    store.create_block_with(11, at(20), 1, BlockType::User, "second", None, None).unwrap();
    store.create_block_with(12, at(25), 2, BlockType::User, "elsewhere", None, None).unwrap();
    store.create_block_with(13, at(30), 1, BlockType::Assistant, "answer", None, None).unwrap();
    store.create_block_with(14, at(30), 1, BlockType::User, "same time", None, None).unwrap();
    store.create_block_with(15, at(40), 1, BlockType::User, "later", None, None).unwrap();
    let rerun = store.rerun_block_with(16, at(50), 13).unwrap();
    assert_eq!(rerun.content, "second");
    assert_eq!(rerun.journal_id, 1);
}

#[test]
fn test_rerun_assistant_block_no_preceding_user() {
    let mut store = setup_test_db();
    let journal = store.create_journal(None).unwrap();
    let assistant_block = store
        .create_block(journal.id, BlockType::Assistant, "Response")
        .unwrap();
    let result = store.rerun_block(assistant_block.id);
    assert!(result.is_err());
    assert_eq!(not_found(result), "No preceding user block found");
}

#[test]
fn test_get_forks() {
    let mut store = setup_test_db();
    let journal = store.create_journal(None).unwrap();
    let original = store.create_block(journal.id, BlockType::User, "Original").unwrap();
    let _fork1 = store.fork_block(original.id).unwrap();
    let _fork2 = store.fork_block(original.id).unwrap();
    let forks = store.get_forks(original.id).unwrap();
    assert_eq!(forks.len(), 2);
    assert!(forks.iter().all(|f| f.forked_from_id == Some(original.id)));
}

#[test]
fn test_get_children() {
    let mut store = setup_test_db();
    let journal = store.create_journal(None).unwrap();
    let parent = store.create_block(journal.id, BlockType::User, "Parent").unwrap();
    let _child1 = store
        .create_block_with_lineage(journal.id, BlockType::User, "Child 1", Some(parent.id), None)
        .unwrap();
    let _child2 = store
        .create_block_with_lineage(journal.id, BlockType::User, "Child 2", Some(parent.id), None)
        .unwrap();
    let children = store.get_children(parent.id).unwrap();
    assert_eq!(children.len(), 2);
    assert!(store.get_forks(parent.id).unwrap().is_empty());
}

#[test]
fn test_fork_nonexistent_block() {
    let mut store = setup_test_db();
    let result = store.fork_block(3);
    assert!(result.is_err());
    assert_eq!(not_found(result), "Block 00000000-0000-0000-0000-000000000003 not found");
}

#[test]
fn test_rerun_nonexistent_block() {
    let mut store = setup_test_db();
    let result = store.rerun_block(3);
    assert!(result.is_err());
    assert_eq!(not_found(result), "Block 00000000-0000-0000-0000-000000000003 not found");
}

#[test]
fn a_block_follows_its_origin() {
    let mut store = Store::new();
    let at = |secs: i64| outer::clock::Timestamp { secs, nanos: 0 };
    store.create_journal_with(1, at(10), None).unwrap();
    store.create_journal_with(2, at(10), None).unwrap();
    store.create_block_with(5, at(100), 1, BlockType::User, "a", None, None).unwrap();

    // An origin in another journal is no origin.
    let refused =
        store.create_block_with(6, at(200), 2, BlockType::User, "b", None, Some(5)).unwrap_err();
    assert_eq!(refused.to_string(), "Database error: FOREIGN KEY constraint failed");
    assert!(store.get_block(6).is_err());
    let refused = store
        .create_block_with_lineage(2, BlockType::User, "b", None, Some(5))
        .unwrap_err();
    assert_eq!(refused.to_string(), "Database error: FOREIGN KEY constraint failed");
    // A parent may lie anywhere.
    assert!(store.create_block_with(6, at(200), 2, BlockType::User, "b", Some(5), None).is_ok());

    // No block is older than its origin.
    let early =
        store.create_block_with(7, at(50), 1, BlockType::User, "c", None, Some(5)).unwrap();
    assert_eq!(early.created_at, at(100));
    assert_eq!(early.updated_at, at(100));
    let late =
        store.create_block_with(8, at(300), 1, BlockType::User, "d", Some(5), Some(5)).unwrap();
    assert_eq!(late.created_at, at(300));
    let made = store.create_block_with_lineage(1, BlockType::User, "e", None, Some(5)).unwrap();
    assert!(made.created_at.secs >= 100);
    assert_eq!(store.get_forks(5).unwrap().len(), 3);
}

#[test]
fn a_store_is_not_rebuilt_from_rows_that_break_its_rules() {
    let at = |secs: i64| outer::clock::Timestamp { secs, nanos: 0 };
    let mut store = Store::new();
    store.create_journal_with(1, at(10), None).unwrap();
    store.create_journal_with(2, at(10), None).unwrap();
    store.create_block_with(5, at(100), 1, BlockType::User, "a", None, None).unwrap();
    store.create_block_with(7, at(150), 1, BlockType::User, "c", None, Some(5)).unwrap();
    let journals = store.list_journals().unwrap();
    let blocks = store.get_blocks_for_journal(1).unwrap();
    assert!(Store::restore(journals.clone(), blocks.clone()).is_ok());

    let mut elsewhere = blocks.clone();
    elsewhere[1].journal_id = 2;
    let refused = Store::restore(journals.clone(), elsewhere).unwrap_err();
    assert_eq!(refused.to_string(), "Internal error: A stored block does not follow its origin");
    let mut too_old = blocks.clone();
    too_old[1].created_at = at(99);
    assert!(Store::restore(journals.clone(), too_old).is_err());
    let mut nowhere = blocks;
    nowhere[1].forked_from_id = Some(99);
    let refused = Store::restore(journals, nowhere).unwrap_err();
    assert_eq!(refused.to_string(), "Internal error: A stored block names what is not stored");
}
