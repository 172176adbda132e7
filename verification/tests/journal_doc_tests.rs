use outer::crdt::journal_doc::{JournalDoc, JournalDocManager};

#[test]
fn test_new_journal_doc() {
    let doc = JournalDoc::new(17);
    assert_eq!(doc.journal_id(), 17);
    assert!(doc.list_blocks().is_empty());
}

#[test]
fn test_set_and_get_block_content() {
    let mut doc = JournalDoc::new(1);
    doc.set_block_content(5, "Hello, world!");
    assert_eq!(doc.get_block_content(5), Some("Hello, world!".to_string()));
}

#[test]
fn test_append_block_content() {
    let mut doc = JournalDoc::new(1);
    doc.set_block_content(5, "Hello");
    doc.append_block_content(5, ", world!");
    assert_eq!(doc.get_block_content(5), Some("Hello, world!".to_string()));
}

#[test]
fn append_to_a_block_without_text_starts_one() {
    let mut doc = JournalDoc::new(1);
    doc.append_block_content(5, "h\u{e9}");
    doc.append_block_content(5, "llo \u{2605}");
    doc.append_block_content(5, "");
    assert_eq!(doc.get_block_content(5), Some("h\u{e9}llo \u{2605}".to_string()));
    doc.append_block_content(5, "!");
    assert_eq!(doc.get_block_content(5), Some("h\u{e9}llo \u{2605}!".to_string()));
}

#[test]
fn test_delete_block() {
    let mut doc = JournalDoc::new(1);
    doc.set_block_content(5, "Content");
    assert!(doc.get_block_content(5).is_some());
    doc.delete_block(5);
    assert!(doc.get_block_content(5).is_none());
    assert!(doc.list_blocks().is_empty());
}

#[test]
fn test_list_blocks() {
    let mut doc = JournalDoc::new(1);
    doc.set_block_content(0xaa, "Content 1");
    doc.set_block_content(0xbb, "Content 2");
    let blocks = doc.list_blocks();
    assert_eq!(blocks.len(), 2);
    assert!(blocks.contains(&0xaa));
    assert!(blocks.contains(&0xbb));
}

#[test]
fn test_encode_and_apply_update() {
    let mut doc1 = JournalDoc::new(1);
    doc1.set_block_content(5, "Hello from doc1");
    let update = doc1.encode_state();
    let doc2 = JournalDoc::from_update(doc1.journal_id(), &update).unwrap();
    assert_eq!(doc2.get_block_content(5), Some("Hello from doc1".to_string()));
    assert_eq!(doc2.journal_id(), 1);
}

#[test]
fn test_encode_diff() {
    let mut doc1 = JournalDoc::new(1);
    doc1.set_block_content(5, "Initial");
    // A remote doc with no state
    let empty_sv = JournalDoc::new(1).state_vector();
    let diff = doc1.encode_diff(&empty_sv).unwrap();
    let mut doc2 = JournalDoc::new(doc1.journal_id());
    doc2.apply_update(&diff).unwrap();
    assert_eq!(doc2.get_block_content(5), Some("Initial".to_string()));
}

#[test]
fn encode_diff_carries_what_the_remote_lacks() {
    let mut doc1 = JournalDoc::new(1);
    doc1.set_block_content(5, "one");
    let mut doc2 = JournalDoc::from_update(1, &doc1.encode_state()).unwrap();
    doc1.append_block_content(5, " two");
    doc1.set_block_content(6, "six");
    let diff = doc1.encode_diff(&doc2.state_vector()).unwrap();
    assert!(diff.len() < doc1.encode_state().len());
    doc2.apply_update(&diff).unwrap();
    assert_eq!(doc2.get_block_content(5), Some("one two".to_string()));
    assert_eq!(doc2.get_block_content(6), Some("six".to_string()));
    assert!(doc1.encode_diff(&[0xff, 0xff, 0xff]).is_err());
}

#[test]
fn test_concurrent_edits_merge() {
    let mut doc1 = JournalDoc::new(1);
    let mut doc2 = JournalDoc::new(1);
    doc1.set_block_content(5, "Hello");
    doc2.set_block_content(5, "World");
    let update1 = doc1.encode_state();
    let update2 = doc2.encode_state();
    let mut doc3 = JournalDoc::new(1);
    doc3.apply_update(&update1).unwrap();
    doc3.apply_update(&update2).unwrap();
    let content = doc3.get_block_content(5);
    assert!(content.is_some());
}

#[test]
fn replicas_converge_after_exchanging_states() {
    let mut a = JournalDoc::new(1);
    let mut b = JournalDoc::new(1);
    a.set_block_content(1, "from a");
    a.set_block_content(2, "shared?");
    a.append_block_content(1, ", more");
    b.set_block_content(3, "from b");
    b.set_block_content(2, "contested");
    b.delete_block(3);
    b.set_block_content(4, "kept");
    let state_a = a.encode_state();
    let state_b = b.encode_state();
    a.apply_update(&state_b).unwrap();
    b.apply_update(&state_a).unwrap();
    for block in 1..=4u128 {
        assert_eq!(a.get_block_content(block), b.get_block_content(block));
    }
    assert_eq!(a.get_block_content(1), Some("from a, more".to_string()));
    assert_eq!(a.get_block_content(4), Some("kept".to_string()));
    let mut in_a = a.list_blocks();
    let mut in_b = b.list_blocks();
    in_a.sort();
    in_b.sort();
    assert_eq!(in_a, in_b);
}

#[test]
fn an_update_applied_twice_counts_once() {
    let mut source = JournalDoc::new(1);
    source.set_block_content(1, "text");
    source.append_block_content(1, " and more");
    let update = source.encode_state();
    let mut once = JournalDoc::new(1);
    once.apply_update(&update).unwrap();
    let mut twice = JournalDoc::new(1);
    twice.apply_update(&update).unwrap();
    twice.apply_update(&update).unwrap();
    assert_eq!(once.get_block_content(1), Some("text and more".to_string()));
    assert_eq!(twice.get_block_content(1), once.get_block_content(1));
    assert_eq!(twice.list_blocks(), once.list_blocks());
    assert_eq!(twice.state_vector(), once.state_vector());
}

#[test]
fn an_unreadable_update_changes_nothing() {
    let mut doc = JournalDoc::new(1);
    doc.set_block_content(1, "text");
    assert!(doc.apply_update(&[0xff, 0xff, 0xff, 0xff]).is_err());
    assert_eq!(doc.get_block_content(1), Some("text".to_string()));
    assert_eq!(doc.list_blocks(), vec![1]);
    assert!(JournalDoc::from_update(1, &[0xff, 0xff, 0xff, 0xff]).is_err());
}

#[test]
fn test_journal_doc_manager_get_or_create() {
    let mut manager = JournalDocManager::new();
    assert!(manager.get_or_create(9));
    assert!(!manager.get_or_create(9));
    assert!(manager.contains(9));
}

#[test]
fn test_journal_doc_manager_remove() {
    let mut manager = JournalDocManager::new();
    manager.get_or_create(9);
    assert!(manager.contains(9));
    let doc = manager.remove(9).unwrap();
    assert_eq!(doc.journal_id(), 9);
    assert!(!manager.contains(9));
    assert!(manager.remove(9).is_none());
}

#[test]
fn test_journal_doc_manager_different_journals() {
    let mut manager = JournalDocManager::new();
    manager.get_or_create(1);
    manager.get_or_create(2);
    let mut doc1 = manager.remove(1).unwrap();
    doc1.set_block_content(5, "kept");
    manager.put(doc1);
    assert_eq!(manager.remove(2).unwrap().get_block_content(5), None);
    assert_eq!(manager.remove(1).unwrap().get_block_content(5), Some("kept".to_string()));
}

#[test]
fn test_get_block_content_nonexistent() {
    let doc = JournalDoc::new(1);
    assert!(doc.get_block_content(5).is_none());
}

#[test]
fn test_state_vector() {
    let doc = JournalDoc::new(1);
    let sv = doc.state_vector();
    assert!(!sv.is_empty());
}

#[test]
fn test_set_block_content_overwrites() {
    let mut doc = JournalDoc::new(1);
    doc.set_block_content(5, "First");
    doc.set_block_content(5, "Second");
    assert_eq!(doc.get_block_content(5), Some("Second".to_string()));
    doc.set_block_content(5, "");
    assert_eq!(doc.get_block_content(5), Some(String::new()));
}

#[test]
fn get_or_create_block_text_keeps_what_is_there() {
    let mut doc = JournalDoc::new(1);
    doc.get_or_create_block_text(5);
    assert_eq!(doc.get_block_content(5), Some(String::new()));
    doc.set_block_content(5, "text");
    doc.get_or_create_block_text(5);
    assert_eq!(doc.get_block_content(5), Some("text".to_string()));
    assert_eq!(doc.list_blocks(), vec![5]);
}

#[test]
fn what_a_document_writes_it_reads() {
    let mut doc = JournalDoc::new(1);
    doc.set_block_content(5, "Hello");
    doc.append_block_content(6, "World");
    doc.delete_block(6);

    // The whole state starts another document.
    let copy = JournalDoc::from_update(1, &doc.encode_state()).unwrap();
    assert_eq!(copy.get_block_content(5).as_deref(), Some("Hello"));
    assert_eq!(copy.get_block_content(6), None);

    // A state vector is read by `encode_diff`, and the difference by `apply_update`.
    let mut behind = JournalDoc::new(1);
    let diff = doc.encode_diff(&behind.state_vector()).unwrap();
    behind.apply_update(&diff).unwrap();
    assert_eq!(behind.get_block_content(5).as_deref(), Some("Hello"));

    // The same of an empty document.
    let empty = JournalDoc::new(2);
    assert!(JournalDoc::from_update(2, &empty.encode_state()).is_ok());
    assert!(doc.encode_diff(&empty.state_vector()).is_ok());
}
