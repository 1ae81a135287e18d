use notebook_rag::index::EmbeddingRecord;
use notebook_rag::index::VectorIndex;
use notebook_rag::vector::SIM_SCALE;
use notebook_rag::vector::distance;

const UNIT: i64 = SIM_SCALE;

fn record(attachment: &str, notebook: &str, text: &str, vector: Vec<i64>) -> EmbeddingRecord {
    EmbeddingRecord {
        attachment_id: attachment.to_string(),
        notebook_id: notebook.to_string(),
        path: format!("/files/{}", attachment),
        text: text.to_string(),
        vector,
    }
}

#[test]
fn add_appends_the_whole_batch_in_order() {
    let mut index = VectorIndex::new(3);
    index.add(vec![
        record("a1", "nb1", "one", vec![UNIT, 0, 0]),
        record("a1", "nb1", "two", vec![0, UNIT, 0]),
    ]);
    assert_eq!(index.records.len(), 2);
    assert_eq!(index.records[0].text, "one");
    assert_eq!(index.records[1].text, "two");
}

#[test]
fn search_returns_at_most_k_from_the_notebook() {
    let mut index = VectorIndex::new(3);
    index.add(vec![
        record("a1", "nb1", "c1", vec![UNIT, 0, 0]),
        record("a1", "nb1", "c2", vec![0, UNIT, 0]),
        record("a2", "nb1", "c3", vec![0, 0, UNIT]),
        record("b1", "nb2", "d1", vec![UNIT, 0, 0]),
    ]);
    let hits = index.search("nb1", &vec![UNIT, 0, 0], 2);
    assert_eq!(hits.len(), 2);
    for h in &hits {
        assert_ne!(h.attachment_id, "b1");
    }
    let all = index.search("nb1", &vec![UNIT, 0, 0], 10);
    assert_eq!(all.len(), 3);
}

#[test]
fn search_never_crosses_notebooks() {
    // Near-identical content in two notebooks: the other notebook's chunk is
    // closer to the query than anything in the queried notebook, and still
    // never surfaces.
    let mut index = VectorIndex::new(3);
    index.add(vec![
        record("a1", "nb_a", "about cats", vec![UNIT, 100, 0]),
        record("b1", "nb_b", "about cats too", vec![UNIT, 0, 0]),
    ]);
    let hits = index.search("nb_a", &vec![UNIT, 0, 0], 5);
    assert_eq!(hits.len(), 1);
    assert_eq!(hits[0].attachment_id, "a1");

    let empty = index.search("nb_missing", &vec![UNIT, 0, 0], 5);
    assert!(empty.is_empty());
}

#[test]
fn round_trip_returns_the_record_first_at_distance_zero() {
    let mut index = VectorIndex::new(3);
    index.add(vec![
        record("a1", "nb1", "other", vec![0, UNIT, 0]),
        record("a2", "nb1", "target", vec![300, -400, 1200]),
    ]);
    let hits = index.search("nb1", &vec![300, -400, 1200], 2);
    assert_eq!(hits.len(), 2);
    assert_eq!(hits[0].text, "target");
    assert_eq!(hits[0].score, 0);
    assert!(hits[0].score <= hits[1].score);
}

#[test]
fn search_orders_by_distance_ascending() {
    let mut index = VectorIndex::new(2);
    index.add(vec![
        record("a1", "nb1", "opposite", vec![-UNIT, 0]),
        record("a2", "nb1", "orthogonal", vec![0, UNIT]),
        record("a3", "nb1", "same", vec![UNIT, 0]),
    ]);
    let hits = index.search("nb1", &vec![UNIT, 0], 3);
    let texts: Vec<&str> = hits.iter().map(|h| h.text.as_str()).collect();
    assert_eq!(texts, vec!["same", "orthogonal", "opposite"]);
    assert_eq!(hits[0].score, 0);
    assert_eq!(hits[1].score, SIM_SCALE);
    assert_eq!(hits[2].score, 2 * SIM_SCALE);
}

#[test]
fn distance_exact_values() {
    assert_eq!(distance(&vec![UNIT, 0], &vec![UNIT, 0]), 0);
    assert_eq!(distance(&vec![UNIT, 0], &vec![0, UNIT]), SIM_SCALE);
    assert_eq!(distance(&vec![UNIT, 0], &vec![-UNIT, 0]), 2 * SIM_SCALE);
    // A zero vector has no direction: neutral distance.
    assert_eq!(distance(&vec![0, 0], &vec![UNIT, 0]), SIM_SCALE);
}

#[test]
fn delete_by_attachment_is_idempotent() {
    let mut index = VectorIndex::new(2);
    index.add(vec![
        record("a1", "nb1", "one", vec![UNIT, 0]),
        record("a1", "nb1", "two", vec![0, UNIT]),
        record("a2", "nb1", "keep", vec![UNIT, UNIT]),
    ]);
    assert!(index.has_attachment("a1"));

    index.delete_by_attachment("a1");
    assert!(!index.has_attachment("a1"));
    assert!(index.has_attachment("a2"));
    assert_eq!(index.records.len(), 1);

    // The second delete finds nothing, changes nothing, raises nothing.
    index.delete_by_attachment("a1");
    assert!(!index.has_attachment("a1"));
    assert_eq!(index.records.len(), 1);

    let hits = index.search("nb1", &vec![UNIT, 0], 10);
    assert_eq!(hits.len(), 1);
    assert_eq!(hits[0].attachment_id, "a2");
}
