use notebook_rag::chat::Role;
use notebook_rag::embed::batch_texts;
use notebook_rag::embed::build_records;
use notebook_rag::errors::PipelineError;
use notebook_rag::extract::prepare_chunks;
use notebook_rag::ledger::AttachmentStatus;
use notebook_rag::pipeline::Pipeline;
use notebook_rag::vector::SIM_SCALE;

const UNIT: i64 = SIM_SCALE;

/// A stand-in embedding for tests: one fixed-point vector per chunk.
fn fake_vectors(n: usize, dim: usize) -> Vec<Vec<i64>> {
    (0..n)
        .map(|i| {
            let mut v = vec![0i64; dim];
            v[i % dim] = UNIT;
            v[(i + 1) % dim] = (i as i64 + 1) * 17;
            v
        })
        .collect()
}

#[test]
fn upload_of_unsupported_format_fails_before_any_ledger_row() {
    let mut p = Pipeline::new(3);
    let r = p.register_attachment(
        "nb1".to_string(),
        "malware.exe".to_string(),
        "/tmp/malware.exe".to_string(),
        1024,
        "exe".to_string(),
    );
    match r {
        Err(PipelineError::UnsupportedFormat(ext)) => assert_eq!(ext, "exe"),
        other => panic!("expected UnsupportedFormat, got {:?}", other),
    }
    assert!(p.attachments.is_empty());
    assert!(p.index.records.is_empty());
}

#[test]
fn successful_ingestion_reaches_ready_with_records() {
    let mut p = Pipeline::new(3);
    let a = p
        .register_attachment(
            "nb1".to_string(),
            "notes.txt".to_string(),
            "/docs/notes.txt".to_string(),
            64,
            "txt".to_string(),
        )
        .unwrap();
    assert_eq!(a.status, AttachmentStatus::Pending);
    assert_eq!(p.attachments.len(), 1);
    assert_eq!(p.attachments[0].status, AttachmentStatus::Pending);
    assert!(!p.index.has_attachment(a.id.as_str()));

    let chunks = prepare_chunks("alpha\n\nbeta\n\ngamma").unwrap();
    assert_eq!(chunks.len(), 3);
    let vectors = fake_vectors(chunks.len(), 3);
    let records = build_records(a.id.as_str(), "nb1", "/docs/notes.txt", &chunks, &vectors, 3);
    p.complete_ingestion(a.id.as_str(), records);

    assert_eq!(p.attachments[0].status, AttachmentStatus::Ready);
    assert!(p.index.has_attachment(a.id.as_str()));
    assert_eq!(p.index.records.len(), 3);

    let hits = p.index.search("nb1", &vectors[0], 5);
    assert_eq!(hits.len(), 3);
    assert_eq!(hits[0].text, "alpha");
    assert_eq!(hits[0].score, 0);
}

#[test]
fn pdf_without_text_ends_in_error_with_zero_records() {
    let mut p = Pipeline::new(3);
    let a = p
        .register_attachment(
            "nb1".to_string(),
            "empty.pdf".to_string(),
            "/docs/empty.pdf".to_string(),
            10,
            "pdf".to_string(),
        )
        .unwrap();
    assert_eq!(p.attachments[0].status, AttachmentStatus::Pending);

    // The background job: the reader got no usable text out of the PDF, so
    // there is nothing to chunk and the job ends in Error with no index
    // writes.
    assert!(matches!(
        prepare_chunks(""),
        Err(PipelineError::ExtractionFailure)
    ));
    p.fail_ingestion(a.id.as_str());

    assert_eq!(p.attachments.len(), 1, "the ledger row still exists");
    assert_eq!(p.attachments[0].status, AttachmentStatus::Error);
    assert!(!p.index.has_attachment(a.id.as_str()));
    assert!(p.index.records.is_empty());
}

#[test]
fn delete_attachment_is_idempotent_and_leaves_no_records() {
    let mut p = Pipeline::new(2);
    let a = p
        .register_attachment(
            "nb1".to_string(),
            "doc.md".to_string(),
            "/docs/doc.md".to_string(),
            8,
            "md".to_string(),
        )
        .unwrap();
    let chunks = prepare_chunks("one\n\ntwo").unwrap();
    let vectors = fake_vectors(chunks.len(), 2);
    let records = build_records(a.id.as_str(), "nb1", "/docs/doc.md", &chunks, &vectors, 2);
    p.complete_ingestion(a.id.as_str(), records);
    assert!(p.index.has_attachment(a.id.as_str()));

    p.delete_attachment(a.id.as_str());
    assert!(p.attachments.is_empty());
    assert!(!p.index.has_attachment(a.id.as_str()));
    assert!(p.index.search("nb1", &vectors[0], 5).is_empty());

    // Deleting again: same empty result, no error.
    p.delete_attachment(a.id.as_str());
    assert!(p.attachments.is_empty());
    assert!(p.index.search("nb1", &vectors[0], 5).is_empty());
}

#[test]
fn pending_attachment_never_has_records() {
    let mut p = Pipeline::new(2);
    let a = p
        .register_attachment(
            "nb1".to_string(),
            "slow.txt".to_string(),
            "/docs/slow.txt".to_string(),
            8,
            "txt".to_string(),
        )
        .unwrap();
    // While the job has not finished, the row is Pending and owns nothing.
    assert_eq!(p.attachments[0].status, AttachmentStatus::Pending);
    assert!(!p.index.has_attachment(a.id.as_str()));
}

#[test]
fn notebooks_are_created_listed_and_deleted() {
    let mut p = Pipeline::new(2);
    let n1 = p.create_notebook("First".to_string());
    let n2 = p.create_notebook("Second".to_string());
    assert_eq!(n1.id.len(), 36);
    assert_eq!(n1.created_at, n1.last_accessed);

    let all = p.list_notebooks();
    assert_eq!(all.len(), 2);
    assert_eq!(all[0].title, "First");
    assert_eq!(all[1].title, "Second");

    let got = p.get_notebook(n2.id.as_str()).unwrap();
    assert_eq!(got.title, "Second");
    assert!(p.get_notebook("no-such-id").is_none());

    p.delete_notebook(n1.id.as_str());
    let rest = p.list_notebooks();
    assert_eq!(rest.len(), 1);
    assert_eq!(rest[0].title, "Second");
}

#[test]
fn marking_a_notebook_accessed_updates_only_its_stamp() {
    let mut p = Pipeline::new(2);
    let n1 = p.create_notebook("One".to_string());
    let n2 = p.create_notebook("Two".to_string());
    let ts = p.mark_notebook_accessed(n1.id.as_str());
    let all = p.list_notebooks();
    assert_eq!(all[0].last_accessed, ts);
    assert!(all[0].last_accessed >= n1.created_at);
    assert_eq!(all[1].last_accessed, n2.last_accessed);
}

#[test]
fn chat_history_is_scoped_and_ascending_for_display() {
    let mut p = Pipeline::new(2);
    let e1 = p.record_chat_message("nb1".to_string(), Role::User, "hi".to_string());
    let _other = p.record_chat_message("nb2".to_string(), Role::User, "elsewhere".to_string());
    let e2 = p.record_chat_message("nb1".to_string(), Role::Assistant, "hello".to_string());
    assert_eq!(e1.id.len(), 36);

    let history = p.chat_history("nb1");
    assert_eq!(history.len(), 2);
    for e in &history {
        assert_eq!(e.notebook_id, "nb1");
    }
    // Oldest first: display order is timestamp ascending.
    assert!(history[0].timestamp <= history[1].timestamp);
    let texts: Vec<&str> = history.iter().map(|e| e.message.as_str()).collect();
    assert!(texts.contains(&"hi") && texts.contains(&"hello"));
    let _ = e2;
}

#[test]
fn attachments_listing_is_scoped_and_newest_first() {
    let mut p = Pipeline::new(2);
    let a1 = p
        .register_attachment(
            "nb1".to_string(),
            "a.txt".to_string(),
            "/a.txt".to_string(),
            1,
            "txt".to_string(),
        )
        .unwrap();
    let _b = p
        .register_attachment(
            "nb2".to_string(),
            "b.txt".to_string(),
            "/b.txt".to_string(),
            1,
            "txt".to_string(),
        )
        .unwrap();
    let a2 = p
        .register_attachment(
            "nb1".to_string(),
            "c.txt".to_string(),
            "/c.txt".to_string(),
            1,
            "txt".to_string(),
        )
        .unwrap();

    let listed = p.attachments_for_notebook("nb1");
    assert_eq!(listed.len(), 2);
    for a in &listed {
        assert_eq!(a.notebook_id, "nb1");
    }
    assert!(listed[0].created_at >= listed[1].created_at);
    let ids: Vec<&str> = listed.iter().map(|a| a.id.as_str()).collect();
    assert!(ids.contains(&a1.id.as_str()) && ids.contains(&a2.id.as_str()));
}

#[test]
fn batch_texts_packs_in_order() {
    let texts: Vec<String> = (0..65).map(|i| format!("chunk {}", i)).collect();
    let batches = batch_texts(&texts);
    assert_eq!(batches.len(), 3);
    assert_eq!(batches[0].len(), 32);
    assert_eq!(batches[1].len(), 32);
    assert_eq!(batches[2].len(), 1);
    let flat: Vec<String> = batches.into_iter().flatten().collect();
    assert_eq!(flat, texts);

    assert!(batch_texts(&Vec::new()).is_empty());
    let one = batch_texts(&vec!["only".to_string()]);
    assert_eq!(one, vec![vec!["only".to_string()]]);
    let exact: Vec<String> = (0..32).map(|i| i.to_string()).collect();
    assert_eq!(batch_texts(&exact).len(), 1);
}
