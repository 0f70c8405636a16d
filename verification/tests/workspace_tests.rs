//! Tests of the workspace store, chunk indexing, and hybrid search.

use agent_core::document::{DocType, MemoryDocument};
use agent_core::search::rrf_fuse;
use agent_core::workspace::Workspace;

#[test]
fn test_memory_document_word_count() {
    let mut doc = MemoryDocument::new(0, "user1".to_string(), None, DocType::Memory, None, 0);
    assert_eq!(doc.word_count(), 0);

    doc.content = "Hello world, this is a test.".to_string();
    assert_eq!(doc.word_count(), 6);
}

#[test]
fn test_append_memory_on_empty_document() {
    let mut ws = Workspace::new("u".to_string());
    ws.append_memory("x").unwrap();
    let doc = ws.memory().unwrap();
    assert_eq!(doc.content, "x");
}

#[test]
fn test_append_memory_twice_separates_with_blank_line() {
    let mut ws = Workspace::new("u".to_string());
    ws.append_memory("x").unwrap();
    ws.append_memory("y").unwrap();
    let doc = ws.memory().unwrap();
    assert_eq!(doc.content, "x\n\ny");
}

#[test]
fn test_reindex_gives_contiguous_chunk_indexes() {
    let mut ws = Workspace::new("u".to_string());
    // Well over one chunk window of words.
    let mut content = String::new();
    for i in 0..1200 {
        content.push_str("word");
        content.push_str(&format!("{i} "));
    }
    ws.update_document(DocType::Memory, None, &content).unwrap();
    let doc = ws.memory().unwrap();
    let chunks = ws.chunks_for(doc.id);
    assert!(chunks.len() >= 2);
    for (j, c) in chunks.iter().enumerate() {
        assert_eq!(c.chunk_index, j);
        assert!(!c.content.is_empty());
    }

    // Rewriting replaces the chunk set; the indexes start from zero again.
    ws.update_document(DocType::Memory, None, "just a few words now").unwrap();
    let chunks = ws.chunks_for(doc.id);
    assert_eq!(chunks.len(), 1);
    assert_eq!(chunks[0].chunk_index, 0);
    assert_eq!(chunks[0].content, "just a few words now");
}

#[test]
fn test_daily_log_entries_are_stamped() {
    let mut ws = Workspace::new("u".to_string());
    ws.append_daily_log_at("2200-01-02", 9, 5, 7, "note one").unwrap();
    ws.append_daily_log_at("2200-01-02", 10, 30, 0, "note two").unwrap();
    let doc = ws.daily_log("2200-01-02").unwrap();
    assert_eq!(doc.content, "[09:05:07] note one\n[10:30:00] note two");
}

#[test]
fn test_append_daily_log_uses_clock() {
    let mut ws = Workspace::new("u".to_string());
    ws.append_daily_log("hello").unwrap();
    let doc = ws.today_log().unwrap();
    // The entry carries a stamp of the shape [HH:MM:SS].
    assert!(doc.content.starts_with('['));
    assert_eq!(doc.content.chars().nth(9), Some(']'));
    assert!(doc.content.ends_with("hello"));
}

#[test]
fn test_system_prompt_composition() {
    let mut ws = Workspace::new("u".to_string());
    ws.update_document(DocType::Agents, None, "be kind").unwrap();
    ws.update_document(DocType::Soul, None, "stay honest").unwrap();
    ws.update_document(DocType::Identity, None, "").unwrap();
    let prompt = ws.system_prompt_for("2200-01-02", "2200-01-01");
    assert_eq!(
        prompt,
        "## Agent Instructions\n\nbe kind\n\n---\n\n## Core Values\n\nstay honest"
    );
}

#[test]
fn test_heartbeat_checklist_roundtrip() {
    let mut ws = Workspace::new("u".to_string());
    assert!(ws.heartbeat_checklist().is_none());
    ws.update_document(DocType::Heartbeat, None, "- check inbox").unwrap();
    assert_eq!(ws.heartbeat_checklist().unwrap(), "- check inbox");
}

#[test]
fn test_hybrid_search_rrf_ranks() {
    // Chunk 1 ranks 1st lexically and 3rd by vector; chunk 2 ranks 4th
    // lexically and 1st by vector. With k = 60 the first fuses to
    // 1/61 + 1/63 and the second to 1/64 + 1/61, so the first wins and
    // both are hybrid matches.
    let lexical = vec![1u64, 3, 4, 2];
    let vector = vec![2u64, 5, 1];
    let hits = rrf_fuse(&lexical, &vector);
    assert_eq!(hits[0].chunk_id, 1);
    assert!(hits[0].is_hybrid());
    assert_eq!(hits[0].lex_rank, Some(1));
    assert_eq!(hits[0].vec_rank, Some(3));
    assert_eq!(hits[1].chunk_id, 2);
    assert!(hits[1].is_hybrid());
    assert!(!hits[2].is_hybrid());
}

#[test]
fn test_rrf_tie_breaks_by_chunk_id() {
    // Two chunks with the same single rank tie on score; the smaller id
    // comes first.
    let lexical = vec![9u64];
    let vector = vec![4u64];
    let hits = rrf_fuse(&lexical, &vector);
    assert_eq!(hits.len(), 2);
    assert_eq!(hits[0].chunk_id, 4);
    assert_eq!(hits[1].chunk_id, 9);
}

#[test]
fn test_store_search_finds_matching_chunks() {
    let mut ws = Workspace::new("u".to_string());
    ws.update_document(DocType::Memory, None, "the launch code review happened")
        .unwrap();
    ws.update_document(DocType::Soul, None, "unrelated words entirely").unwrap();
    let results = ws.search("launch", 5);
    assert_eq!(results.len(), 1);
    assert_eq!(results[0].content, "the launch code review happened");
    assert!(!results[0].is_hybrid());

    let nothing = ws.search("absent", 5);
    assert!(nothing.is_empty());
}

#[test]
fn test_document_not_found_error() {
    let ws = Workspace::new("u".to_string());
    assert!(ws.get_document(DocType::Memory, None).is_err());
}

#[test]
fn test_embedding_backfill() {
    let mut ws = Workspace::new("u".to_string()).with_embeddings();
    ws.update_document(DocType::Memory, None, "some indexed words").unwrap();
    let missing = ws.chunks_missing_embeddings(10);
    assert_eq!(missing.len(), 1);

    let assignments: Vec<(u64, u64)> = missing.iter().map(|id| (*id, 77)).collect();
    let updated = ws.backfill_embeddings(&assignments);
    assert_eq!(updated, 1);
    assert!(ws.chunks_missing_embeddings(10).is_empty());

    let none = ws.backfill_embeddings(&vec![(9999, 1)]);
    assert_eq!(none, 0);
}

#[test]
fn test_search_hybrid_marks_both_lists() {
    let mut ws = Workspace::new("u".to_string()).with_embeddings();
    ws.update_document(DocType::Memory, None, "the launch plan").unwrap();
    ws.update_document(DocType::Soul, None, "launch values").unwrap();
    let doc = ws.memory().unwrap();
    let chunk_id = ws.chunks_for(doc.id)[0].id;

    // The vector ranking puts the memory chunk first; it also matches
    // lexically, so the fused result marks it hybrid.
    let results = ws.search_hybrid("launch", &vec![chunk_id], 5);
    assert_eq!(results.len(), 2);
    let hybrid = results.iter().find(|r| r.chunk_id == chunk_id).unwrap();
    assert!(hybrid.is_hybrid());
    let other = results.iter().find(|r| r.chunk_id != chunk_id).unwrap();
    assert!(!other.is_hybrid());
}

#[test]
fn test_embedding_backfill_counts_each_assignment() {
    // A duplicate assignment for the same chunk counts twice and the
    // last handle wins.
    let mut ws = Workspace::new("u".to_string()).with_embeddings();
    ws.update_document(DocType::Memory, None, "one chunk of words").unwrap();
    let missing = ws.chunks_missing_embeddings(10);
    assert_eq!(missing.len(), 1);
    let id = missing[0];

    let updated = ws.backfill_embeddings(&vec![(id, 5), (id, 9)]);
    assert_eq!(updated, 2);
    assert!(ws.chunks_missing_embeddings(10).is_empty());
}

#[test]
fn test_search_limit_zero_yields_nothing() {
    let mut ws = Workspace::new("u".to_string());
    ws.update_document(DocType::Memory, None, "needle in the notes").unwrap();
    assert!(ws.search("needle", 0).is_empty());
    assert_eq!(ws.search("needle", 1).len(), 1);
}

#[test]
fn test_append_memory_leaves_other_documents_alone() {
    let mut ws = Workspace::new("u".to_string());
    ws.update_document(DocType::Soul, None, "soul text").unwrap();
    ws.append_memory("a note").unwrap();
    assert_eq!(ws.get_document(DocType::Soul, None).unwrap().content, "soul text");
    assert_eq!(ws.memory().unwrap().content, "a note");
}
