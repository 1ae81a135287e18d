//! Around the embedding engine: batching of chunk texts and assembly of the
//! records the vector index stores.
//!
//! The engine itself (one loaded model instance, serialized access) lives
//! outside the library; what is verified here is that batches are packed in
//! source order and that the assembled records carry each chunk with its own
//! vector and provenance.

use vstd::prelude::*;
use vstd::string::StrSliceExecFns;

use crate::index::EmbeddingRecord;
use crate::index::EmbeddingRecordView;
use crate::vector::DIM_MAX;
use crate::vector::valid_vector;

verus! {

/// How many texts are handed to the embedding engine in one batch, to bound
/// peak memory.
pub const EMBED_BATCH_SIZE: usize = 32;

/// The views of a sequence of owned texts.
pub open spec fn texts_view(s: Seq<String>) -> Seq<Seq<char>> {
    s.map_values(|t: String| t@)
}

/// Packs the texts into batches of at most `EMBED_BATCH_SIZE`, in source
/// order: concatenating the batches gives back the input, every batch is
/// non-empty, and every batch but the last is full.
pub fn batch_texts(texts: &Vec<String>) -> (batches: Vec<Vec<String>>)
    ensures
        batches@.map_values(|b: Vec<String>| texts_view(b@)).flatten() == texts_view(texts@),
        forall|b: int|
            0 <= b < batches@.len() ==> 1 <= (#[trigger] batches@[b])@.len() <= EMBED_BATCH_SIZE,
        forall|b: int|
            0 <= b < batches@.len() - 1 ==> (#[trigger] batches@[b])@.len() == EMBED_BATCH_SIZE,
{
    broadcast use Seq::lemma_flatten_push;

    let mut batches: Vec<Vec<String>> = Vec::new();
    let mut cur: Vec<String> = Vec::new();
    let mut i: usize = 0;
    proof {
        assert(batches@.map_values(|b: Vec<String>| texts_view(b@)).flatten() + texts_view(cur@)
            =~= texts_view(texts@.take(0)));
    }
    while i < texts.len()
        invariant
            0 <= i <= texts@.len(),
            cur@.len() < EMBED_BATCH_SIZE,
            batches@.map_values(|b: Vec<String>| texts_view(b@)).flatten() + texts_view(cur@)
                == texts_view(texts@.take(i as int)),
            forall|b: int|
                0 <= b < batches@.len() ==> (#[trigger] batches@[b])@.len() == EMBED_BATCH_SIZE,
        decreases texts@.len() - i,
    {
        let ghost flat_before = batches@.map_values(|b: Vec<String>| texts_view(b@)).flatten();
        let ghost cur_before = cur@;
        cur.push(texts[i].clone());
        proof {
            assert(texts_view(cur@) =~= texts_view(cur_before).push(texts@[i as int]@));
            assert(texts_view(texts@.take(i + 1)) =~= texts_view(texts@.take(i as int)).push(
                texts@[i as int]@,
            ));
            assert(flat_before + texts_view(cur@) =~= texts_view(texts@.take(i + 1)));
        }
        i += 1;
        if cur.len() == EMBED_BATCH_SIZE {
            let full = cur;
            cur = Vec::new();
            let ghost bs_before = batches@;
            batches.push(full);
            proof {
                assert(batches@.map_values(|b: Vec<String>| texts_view(b@)) =~= bs_before
                    .map_values(|b: Vec<String>| texts_view(b@)).push(texts_view(full@)));
                bs_before.map_values(|b: Vec<String>| texts_view(b@)).lemma_flatten_push(
                    texts_view(full@),
                );
                assert(texts_view(cur@) =~= Seq::<Seq<char>>::empty());
                assert(batches@.map_values(|b: Vec<String>| texts_view(b@)).flatten()
                    + texts_view(cur@) =~= texts_view(texts@.take(i as int)));
            }
        }
    }
    proof {
        assert(texts@.take(texts@.len() as int) =~= texts@);
    }
    if cur.len() > 0 {
        let ghost bs_before = batches@;
        let ghost tail = cur@;
        batches.push(cur);
        proof {
            assert(batches@.map_values(|b: Vec<String>| texts_view(b@)) =~= bs_before.map_values(
                |b: Vec<String>| texts_view(b@),
            ).push(texts_view(tail)));
            bs_before.map_values(|b: Vec<String>| texts_view(b@)).lemma_flatten_push(
                texts_view(tail),
            );
            assert(batches@.map_values(|b: Vec<String>| texts_view(b@)).flatten() =~= texts_view(
                texts@,
            ));
        }
        return batches;
    }
    proof {
        assert(texts_view(cur@) =~= Seq::<Seq<char>>::empty());
        assert(batches@.map_values(|b: Vec<String>| texts_view(b@)).flatten() =~= texts_view(
            texts@,
        ));
    }
    batches
}

/// Assembles the index rows for one document: one record per chunk, each
/// carrying the owning attachment, its notebook, the source path, the
/// chunk's text and the chunk's own vector, in chunk order.
pub fn build_records(
    attachment_id: &str,
    notebook_id: &str,
    path: &str,
    chunks: &Vec<String>,
    vectors: &Vec<Vec<i64>>,
    dim: usize,
) -> (rs: Vec<EmbeddingRecord>)
    requires
        chunks@.len() == vectors@.len(),
        1 <= dim <= DIM_MAX,
        forall|i: int| 0 <= i < vectors@.len() ==> valid_vector((#[trigger] vectors@[i])@, dim as nat),
    ensures
        rs@.len() == chunks@.len(),
        forall|i: int|
            0 <= i < rs@.len() ==> (#[trigger] rs@[i])@ == (EmbeddingRecordView {
                attachment_id: attachment_id@,
                notebook_id: notebook_id@,
                path: path@,
                text: chunks@[i]@,
                vector: vectors@[i]@,
            }),
{
    let mut rs: Vec<EmbeddingRecord> = Vec::new();
    let mut i: usize = 0;
    while i < chunks.len()
        invariant
            0 <= i <= chunks@.len(),
            chunks@.len() == vectors@.len(),
            1 <= dim <= DIM_MAX,
            forall|j: int| 0 <= j < vectors@.len() ==> valid_vector(
                (#[trigger] vectors@[j])@,
                dim as nat,
            ),
            rs@.len() == i,
            forall|j: int|
                0 <= j < rs@.len() ==> (#[trigger] rs@[j])@ == (EmbeddingRecordView {
                    attachment_id: attachment_id@,
                    notebook_id: notebook_id@,
                    path: path@,
                    text: chunks@[j]@,
                    vector: vectors@[j]@,
                }),
        decreases chunks@.len() - i,
    {
        let r = EmbeddingRecord {
            attachment_id: attachment_id.to_owned(),
            notebook_id: notebook_id.to_owned(),
            path: path.to_owned(),
            text: chunks[i].clone(),
            vector: crate::index::clone_vec_i64(&vectors[i]),
        };
        rs.push(r);
        i += 1;
    }
    rs
}

} // verus!
