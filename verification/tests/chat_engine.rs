use notebook_rag::chat::ChatEntry;
use notebook_rag::chat::ChatTurnPlan;
use notebook_rag::chat::Role;
use notebook_rag::chat::build_prompt;
use notebook_rag::chat::new_chat_entry;
use notebook_rag::chat::plan_chat_turn;
use notebook_rag::chat::refusal_message;
use notebook_rag::chat::sort_entries_asc;
use notebook_rag::chat::system_instruction;
use notebook_rag::errors::CommandError;
use notebook_rag::errors::PipelineError;
use notebook_rag::index::VectorSearchResult;
use notebook_rag::ledger::AttachmentStatus;
use notebook_rag::ledger::new_attachment;
use notebook_rag::notebook::new_notebook;
use notebook_rag::pipeline::Pipeline;
use notebook_rag::vector::SIM_SCALE;

fn hit(text: &str, attachment: &str, path: &str, score: i64) -> VectorSearchResult {
    VectorSearchResult {
        text: text.to_string(),
        attachment_id: attachment.to_string(),
        file_path: path.to_string(),
        score,
    }
}

#[test]
fn question_in_an_empty_notebook_gets_the_fixed_refusal() {
    let p = Pipeline::new(3);
    let results = p.index.search("nb1", &vec![SIM_SCALE, 0, 0], 5);
    assert!(results.is_empty());
    let plan = plan_chat_turn("What is in my files?", &results);
    assert!(matches!(plan, ChatTurnPlan::Refuse));
    assert_eq!(
        refusal_message(),
        "I don't have enough information in the uploaded files to answer that."
    );
}

#[test]
fn grounding_prompt_is_built_exactly() {
    let results = vec![hit("cats purr", "a1", "/docs/cats.txt", 0)];
    let prompt = build_prompt("Why do cats purr?", &results);
    assert_eq!(
        prompt,
        "Question: Why do cats purr?\n\nContext:\n\n----\nFILE_PATH: /docs/cats.txt\nCONTENT: cats purr\n\n"
    );
}

#[test]
fn grounding_prompt_lists_chunks_in_retrieval_order() {
    let results = vec![
        hit("first", "a1", "/p1", 0),
        hit("second", "a2", "/p2", 10),
    ];
    let prompt = build_prompt("q", &results);
    assert_eq!(
        prompt,
        "Question: q\n\nContext:\n\n----\nFILE_PATH: /p1\nCONTENT: first\n\n----\nFILE_PATH: /p2\nCONTENT: second\n\n"
    );
}

#[test]
fn a_turn_with_context_asks_the_model() {
    let results = vec![hit("something", "a1", "/p", 3)];
    match plan_chat_turn("q", &results) {
        ChatTurnPlan::Ask(p) => assert!(p.starts_with("Question: q")),
        ChatTurnPlan::Refuse => panic!("should ask with context present"),
    }
}

#[test]
fn role_labels_round_trip() {
    assert_eq!(Role::User.label(), "user");
    assert_eq!(Role::Assistant.label(), "assistant");
    assert_eq!(Role::System.label(), "system");
    assert_eq!(Role::Tool.label(), "tool");
    assert_eq!(Role::from_label("user"), Role::User);
    assert_eq!(Role::from_label("assistant"), Role::Assistant);
    assert_eq!(Role::from_label("system"), Role::System);
    assert_eq!(Role::from_label("tool"), Role::Tool);
    // An unknown label falls back to the user role.
    assert_eq!(Role::from_label("gibberish"), Role::User);
}

#[test]
fn system_instruction_pins_the_refusal_sentence() {
    let s = system_instruction();
    assert!(s.contains("ONLY the provided context"));
    assert!(s.contains("I don't have enough information in the uploaded files to answer that."));
    assert!(s.contains("SAME language"));
}

#[test]
fn entries_sort_oldest_first() {
    let entry = |ts: i64, msg: &str| ChatEntry {
        id: format!("id-{}", ts),
        notebook_id: "nb".to_string(),
        role: Role::User,
        message: msg.to_string(),
        timestamp: ts,
    };
    let sorted = sort_entries_asc(vec![entry(5, "b"), entry(9, "c"), entry(1, "a")]);
    let stamps: Vec<i64> = sorted.iter().map(|e| e.timestamp).collect();
    assert_eq!(stamps, vec![1, 5, 9]);
    let msgs: Vec<&str> = sorted.iter().map(|e| e.message.as_str()).collect();
    assert_eq!(msgs, vec!["a", "b", "c"]);
}

#[test]
fn fresh_entries_and_rows_carry_generated_ids() {
    let e = new_chat_entry("nb1".to_string(), Role::User, "hello".to_string());
    assert_eq!(e.id.len(), 36);
    assert_eq!(e.notebook_id, "nb1");
    assert_eq!(e.role, Role::User);
    assert_eq!(e.message, "hello");

    let a = new_attachment(
        "nb1".to_string(),
        "f.txt".to_string(),
        "/f.txt".to_string(),
        7,
        "txt".to_string(),
    );
    assert_eq!(a.id.len(), 36);
    assert_eq!(a.status, AttachmentStatus::Pending);
    assert_eq!(a.file_size, 7);

    let n = new_notebook("My notebook".to_string());
    assert_eq!(n.id.len(), 36);
    assert_ne!(n.id, a.id);
}

#[test]
fn status_labels_match_the_store() {
    assert_eq!(AttachmentStatus::Pending.label(), "pending");
    assert_eq!(AttachmentStatus::Ready.label(), "ready");
    assert_eq!(AttachmentStatus::Error.label(), "error");
}

#[test]
fn every_error_has_an_opaque_reason() {
    assert_eq!(
        CommandError::from(PipelineError::UnsupportedFormat("exe".to_string())).reason,
        "unsupported file format: .exe"
    );
    assert_eq!(
        CommandError::from(PipelineError::ExtractionFailure).reason,
        "could not extract text from the file"
    );
    assert_eq!(
        CommandError::from(PipelineError::EmbeddingFailure).reason,
        "could not generate embeddings"
    );
    assert_eq!(
        CommandError::from(PipelineError::IndexWriteFailure).reason,
        "could not write to the vector index"
    );
    assert_eq!(
        CommandError::from(PipelineError::IndexSearchFailure).reason,
        "could not search the vector index"
    );
    assert_eq!(
        CommandError::from(PipelineError::LedgerFailure).reason,
        "could not update the attachment ledger"
    );
    assert_eq!(
        CommandError::from(PipelineError::LanguageModelFailure).reason,
        "the language model did not answer"
    );
}
