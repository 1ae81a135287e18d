//! The vector index: an append-only columnar store of embedding records,
//! with scoped nearest-neighbor search and bulk delete by attachment.
//!
//! Search first restricts to the rows of one notebook by an exact scalar
//! match and only then ranks by distance, so a chunk of another notebook is
//! never surfaced however close its vector is.

use vstd::prelude::*;
use vstd::string::StrSliceExecFns;

use crate::text::str_eq;
use crate::vector::DIM_MAX;
use crate::vector::SIM_SCALE;
use crate::vector::distance;
use crate::vector::distance_spec;
use crate::vector::valid_vector;

verus! {

broadcast use vstd::seq_lib::group_filter_ensures, vstd::seq_lib::group_to_multiset_ensures;

/// The mathematical value of one row of the index.
pub ghost struct EmbeddingRecordView {
    pub attachment_id: Seq<char>,
    pub notebook_id: Seq<char>,
    pub path: Seq<char>,
    pub text: Seq<char>,
    pub vector: Seq<i64>,
}

/// One row of the index: one chunk of one attachment, with its fixed-point
/// embedding vector.
pub struct EmbeddingRecord {
    pub attachment_id: String,
    pub notebook_id: String,
    pub path: String,
    pub text: String,
    pub vector: Vec<i64>,
}

impl View for EmbeddingRecord {
    type V = EmbeddingRecordView;

    open spec fn view(&self) -> EmbeddingRecordView {
        EmbeddingRecordView {
            attachment_id: self.attachment_id@,
            notebook_id: self.notebook_id@,
            path: self.path@,
            text: self.text@,
            vector: self.vector@,
        }
    }
}

/// The mathematical value of one search hit.
pub ghost struct VectorSearchResultView {
    pub text: Seq<char>,
    pub attachment_id: Seq<char>,
    pub file_path: Seq<char>,
    pub score: int,
}

/// One search hit: the chunk's text, its provenance, and its distance from
/// the query (smaller is closer).
pub struct VectorSearchResult {
    pub text: String,
    pub attachment_id: String,
    pub file_path: String,
    pub score: i64,
}

impl View for VectorSearchResult {
    type V = VectorSearchResultView;

    open spec fn view(&self) -> VectorSearchResultView {
        VectorSearchResultView {
            text: self.text@,
            attachment_id: self.attachment_id@,
            file_path: self.file_path@,
            score: self.score as int,
        }
    }
}

/// The views of a sequence of records.
pub open spec fn records_view(s: Seq<EmbeddingRecord>) -> Seq<EmbeddingRecordView> {
    s.map_values(|r: EmbeddingRecord| r@)
}

/// The views of a sequence of search results.
pub open spec fn results_view(s: Seq<VectorSearchResult>) -> Seq<VectorSearchResultView> {
    s.map_values(|r: VectorSearchResult| r@)
}

/// The rows of `records` that belong to notebook `nb`, in store order.
pub open spec fn scoped(records: Seq<EmbeddingRecordView>, nb: Seq<char>) -> Seq<
    EmbeddingRecordView,
> {
    records.filter(|r: EmbeddingRecordView| r.notebook_id == nb)
}

/// The rows of `records` that belong to one attachment, in store order.
pub open spec fn records_of(records: Seq<EmbeddingRecordView>, id: Seq<char>) -> Seq<
    EmbeddingRecordView,
> {
    records.filter(|r: EmbeddingRecordView| r.attachment_id == id)
}

/// The search hit a record yields for query `q`.
pub open spec fn result_of(r: EmbeddingRecordView, q: Seq<i64>) -> VectorSearchResultView {
    VectorSearchResultView {
        text: r.text,
        attachment_id: r.attachment_id,
        file_path: r.path,
        score: distance_spec(q, r.vector),
    }
}

/// The append-only columnar store. `dim` is fixed at construction and every
/// stored vector has exactly that dimension: that is the store's
/// well-formedness invariant.
pub struct VectorIndex {
    pub dim: usize,
    pub records: Vec<EmbeddingRecord>,
}

impl View for VectorIndex {
    type V = Seq<EmbeddingRecordView>;

    open spec fn view(&self) -> Seq<EmbeddingRecordView> {
        records_view(self.records@)
    }
}

impl VectorIndex {
    /// Uniform dimension across all records, for the lifetime of the index.
    pub open spec fn wf(self) -> bool {
        &&& 1 <= self.dim <= DIM_MAX
        &&& forall|i: int| 0 <= i < self@.len() ==> valid_vector(
            #[trigger] self@[i].vector,
            self.dim as nat,
        )
    }

    /// Creates an empty index whose vectors will all have dimension `dim`.
    pub fn new(dim: usize) -> (s: Self)
        requires
            1 <= dim <= DIM_MAX,
        ensures
            s.wf(),
            s.dim == dim,
            s@ == Seq::<EmbeddingRecordView>::empty(),
    {
        let s = VectorIndex { dim, records: Vec::new() };
        proof {
            assert(s@ =~= Seq::<EmbeddingRecordView>::empty());
        }
        s
    }

    /// Bulk-appends a batch of records. The whole batch lands at once: the
    /// new contents are exactly the old contents followed by the batch, in
    /// batch order.
    pub fn add(&mut self, batch: Vec<EmbeddingRecord>)
        requires
            old(self).wf(),
            forall|i: int| 0 <= i < batch@.len() ==> valid_vector(
                (#[trigger] batch@[i])@.vector,
                old(self).dim as nat,
            ),
        ensures
            final(self).wf(),
            final(self).dim == old(self).dim,
            final(self)@ == old(self)@ + records_view(batch@),
    {
        let ghost orig = batch@;
        let ghost before = self@;
        let mut batch = batch;
        while batch.len() > 0
            invariant
                self.dim == old(self).dim,
                self.wf(),
                batch@.len() <= orig.len(),
                batch@ =~= orig.skip(orig.len() - batch@.len()),
                self@ =~= before + records_view(orig.take(orig.len() - batch@.len())),
                forall|i: int| 0 <= i < orig.len() ==> valid_vector(
                    (#[trigger] orig[i])@.vector,
                    self.dim as nat,
                ),
            decreases batch@.len(),
        {
            let ghost done = orig.len() - batch@.len();
            let r = batch.remove(0);
            proof {
                assert(r == orig[done]);
                assert(batch@ =~= orig.skip(done + 1));
            }
            let ghost prev = self@;
            self.records.push(r);
            proof {
                assert(self@ =~= prev.push(r@));
                assert(records_view(orig.take(done + 1)) =~= records_view(orig.take(done)).push(
                    orig[done]@,
                ));
                assert((before + records_view(orig.take(done))).push(orig[done]@) =~= before
                    + records_view(orig.take(done + 1)));
                assert(valid_vector(r@.vector, self.dim as nat));
            }
        }
        proof {
            assert(orig.take(orig.len() as int) =~= orig);
            assert(final(self)@ =~= before + records_view(orig));
        }
    }

    /// Removes every record of the given attachment and nothing else; a
    /// no-op when none exist, so deleting twice is the same as deleting
    /// once.
    pub fn delete_by_attachment(&mut self, attachment_id: &str)
        requires
            old(self).wf(),
        ensures
            final(self).wf(),
            final(self).dim == old(self).dim,
            final(self)@ == old(self)@.filter(
                |r: EmbeddingRecordView| r.attachment_id != attachment_id@,
            ),
            forall|i: int|
                0 <= i < final(self)@.len() ==> (#[trigger] final(self)@[i]).attachment_id
                    != attachment_id@,
    {
        let ghost pred = |r: EmbeddingRecordView| r.attachment_id != attachment_id@;
        let ghost before = self@;
        let mut kept: Vec<EmbeddingRecord> = Vec::new();
        let mut i: usize = 0;
        proof {
            assert(before.take(0) =~= Seq::<EmbeddingRecordView>::empty());
            assert(records_view(kept@) =~= before.take(0).filter(pred));
        }
        while i < self.records.len()
            invariant
                self@ == before,
                self.wf(),
                self.dim == old(self).dim,
                0 <= i <= self@.len(),
                records_view(kept@) == before.take(i as int).filter(pred),
                forall|t: int| 0 <= t < kept@.len() ==> valid_vector(
                    (#[trigger] kept@[t])@.vector,
                    self.dim as nat,
                ),
                pred == (|r: EmbeddingRecordView| r.attachment_id != attachment_id@),
            decreases self@.len() - i,
        {
            let keep = !str_eq(self.records[i].attachment_id.as_str(), attachment_id);
            proof {
                crate::seqs::lemma_filter_push(before.take(i as int), pred, before[i as int]);
                assert(before.take(i + 1) =~= before.take(i as int).push(before[i as int]));
            }
            if keep {
                let r = clone_record(&self.records[i]);
                kept.push(r);
                proof {
                    assert(records_view(kept@) =~= before.take(i as int).filter(pred).push(
                        before[i as int],
                    ));
                }
            }
            i += 1;
        }
        proof {
            assert(before.take(before.len() as int) =~= before);
        }
        self.records = kept;
    }

    /// Whether any record of the given attachment is stored.
    pub fn has_attachment(&self, attachment_id: &str) -> (r: bool)
        ensures
            r <==> records_of(self@, attachment_id@).len() > 0,
    {
        let mut i: usize = 0;
        while i < self.records.len()
            invariant
                0 <= i <= self@.len(),
                forall|j: int| 0 <= j < i ==> (#[trigger] self@[j]).attachment_id
                    != attachment_id@,
            decreases self@.len() - i,
        {
            if str_eq(self.records[i].attachment_id.as_str(), attachment_id) {
                proof {
                    assert(records_of(self@, attachment_id@).contains(self@[i as int]));
                }
                return true;
            }
            i += 1;
        }
        proof {
            crate::seqs::lemma_filter_all_false(
                self@,
                |r: EmbeddingRecordView| r.attachment_id == attachment_id@,
            );
        }
        false
    }

    /// Scoped nearest-neighbor search: restricts to the rows whose notebook
    /// id matches exactly, then returns the `k` nearest by the scaled cosine
    /// distance, closest first (fewer than `k` when the scope is smaller).
    ///
    /// The contract pins the result down: exactly `min(k, scope)` hits,
    /// sorted by distance ascending, drawn without duplication from the
    /// scoped rows with their true distances, every hit from the queried
    /// notebook, and nothing skipped that is closer than a returned hit.
    pub fn search(&self, notebook_id: &str, query: &Vec<i64>, k: usize) -> (res: Vec<
        VectorSearchResult,
    >)
        requires
            self.wf(),
            valid_vector(query@, self.dim as nat),
        ensures
            ({
                let sc = scoped(self@, notebook_id@);
                let mapped = sc.map_values(|r: EmbeddingRecordView| result_of(r, query@));
                let rsv = results_view(res@);
                &&& rsv.len() == if k as int <= sc.len() {
                    k as int
                } else {
                    sc.len() as int
                }
                &&& forall|a: int, b: int|
                    0 <= a <= b < rsv.len() ==> #[trigger] rsv[a].score <= #[trigger] rsv[b].score
                &&& forall|a: int|
                    #![trigger rsv[a]]
                    0 <= a < rsv.len() ==> exists|j: int|
                        0 <= j < self@.len() && (#[trigger] self@[j]).notebook_id == notebook_id@
                            && rsv[a] == result_of(self@[j], query@)
                &&& forall|v: VectorSearchResultView|
                    #[trigger] rsv.to_multiset().count(v) <= mapped.to_multiset().count(v)
                &&& forall|v: VectorSearchResultView|
                    #[trigger] rsv.to_multiset().count(v) < mapped.to_multiset().count(v)
                        ==> rsv.len() == k && (forall|a: int|
                        0 <= a < rsv.len() ==> (#[trigger] rsv[a]).score <= v.score)
                &&& forall|a: int|
                    0 <= a < rsv.len() ==> 0 <= (#[trigger] rsv[a]).score <= 2 * SIM_SCALE
                &&& rsv.len() > 0 ==> forall|j: int|
                    0 <= j < sc.len() ==> rsv[0].score <= result_of(
                        #[trigger] sc[j],
                        query@,
                    ).score
            }),
    {
        let ghost nb = notebook_id@;
        let ghost q = query@;
        let ghost sc = scoped(self@, nb);
        let ghost mapped = sc.map_values(|r: EmbeddingRecordView| result_of(r, q));
        let ghost pred = |r: EmbeddingRecordView| r.notebook_id == nb;

        // Collect the indices of the scoped rows, in store order.
        let mut idxs: Vec<usize> = Vec::new();
        let mut i: usize = 0;
        proof {
            assert(self@.take(0) =~= Seq::<EmbeddingRecordView>::empty());
            assert(idxs@.map_values(|t: usize| self@[t as int]) =~= self@.take(0).filter(pred));
        }
        while i < self.records.len()
            invariant
                self.wf(),
                valid_vector(q, self.dim as nat),
                q == query@,
                nb == notebook_id@,
                0 <= i <= self@.len(),
                forall|t: int| 0 <= t < idxs@.len() ==> (#[trigger] idxs@[t]) < i,
                idxs@.map_values(|t: usize| self@[t as int]) == self@.take(i as int).filter(pred),
                pred == (|r: EmbeddingRecordView| r.notebook_id == nb),
            decreases self@.len() - i,
        {
            let hit = str_eq(self.records[i].notebook_id.as_str(), notebook_id);
            proof {
                crate::seqs::lemma_filter_push(self@.take(i as int), pred, self@[i as int]);
                assert(self@.take(i + 1) =~= self@.take(i as int).push(self@[i as int]));
            }
            if hit {
                idxs.push(i);
                proof {
                    assert(idxs@.map_values(|t: usize| self@[t as int]) =~= self@.take(
                        i as int,
                    ).filter(pred).push(self@[i as int]));
                }
            } else {
                proof {
                    assert(idxs@.map_values(|t: usize| self@[t as int]) =~= self@.take(
                        i as int,
                    ).filter(pred));
                }
            }
            i += 1;
        }
        proof {
            assert(self@.take(self@.len() as int) =~= self@);
        }

        // Score every candidate.
        let mut scores: Vec<i64> = Vec::new();
        let mut t: usize = 0;
        while t < idxs.len()
            invariant
                self.wf(),
                valid_vector(q, self.dim as nat),
                q == query@,
                scores@.len() == t,
                0 <= t <= idxs@.len(),
                forall|u: int| 0 <= u < idxs@.len() ==> (#[trigger] idxs@[u]) < self@.len(),
                idxs@.map_values(|u: usize| self@[u as int]) == sc,
                forall|u: int| 0 <= u < t ==> (#[trigger] scores@[u]) as int == distance_spec(
                    q,
                    self@[idxs@[u] as int].vector,
                ),
                forall|u: int| 0 <= u < t ==> 0 <= (#[trigger] scores@[u]) <= 2 * SIM_SCALE,
            decreases idxs@.len() - t,
        {
            proof {
                assert(idxs@.map_values(|u: usize| self@[u as int])[t as int] == sc[t as int]);
                assert(valid_vector(self@[idxs@[t as int] as int].vector, self.dim as nat));
            }
            let j = idxs[t];
            let d = distance(query, &self.records[j].vector);
            scores.push(d);
            t += 1;
        }

        // Repeatedly extract the closest remaining candidate.
        let ghost mut rem: Seq<VectorSearchResultView> = mapped;
        let mut idxs = idxs;
        let mut scores = scores;
        let mut out: Vec<VectorSearchResult> = Vec::new();
        proof {
            assert(rem =~= idxs@.map_values(
                |u: usize| result_of(self@[u as int], q),
            )) by {
                assert forall|u: int| 0 <= u < idxs@.len() implies mapped[u] == result_of(
                    self@[idxs@[u] as int],
                    q,
                ) by {
                    assert(sc[u] == idxs@.map_values(|w: usize| self@[w as int])[u]);
                }
            }
            assert(results_view(out@).to_multiset().add(rem.to_multiset())
                =~= mapped.to_multiset()) by {
                assert(results_view(out@) =~= Seq::<VectorSearchResultView>::empty());
            }
            assert forall|u: int|
                0 <= u < idxs@.len() implies (#[trigger] self@[idxs@[u] as int]).notebook_id
                == nb by {
                assert(idxs@.map_values(|w: usize| self@[w as int])[u] == self@[idxs@[u] as int]);
                assert(sc[u] == scoped(self@, nb)[u]);
            }
            assert forall|u: int|
                0 <= u < rem.len() implies 0 <= (#[trigger] rem[u]).score <= 2 * SIM_SCALE by {
                assert(rem[u].score == (scores@[u]) as int);
                assert(0 <= scores@[u] <= 2 * SIM_SCALE);
            }
        }
        while out.len() < k && idxs.len() > 0
            invariant
                self.wf(),
                q == query@,
                nb == notebook_id@,
                idxs@.len() == scores@.len(),
                rem.len() == idxs@.len(),
                out@.len() <= k,
                mapped == sc.map_values(|r: EmbeddingRecordView| result_of(r, q)),
                out@.len() + rem.len() == mapped.len(),
                forall|u: int| 0 <= u < idxs@.len() ==> (#[trigger] idxs@[u]) < self@.len(),
                forall|u: int| 0 <= u < idxs@.len() ==> (#[trigger] rem[u]) == result_of(
                    self@[idxs@[u] as int],
                    q,
                ),
                forall|u: int| 0 <= u < idxs@.len() ==> (#[trigger] self@[idxs@[u] as int]).notebook_id
                    == nb,
                forall|u: int| 0 <= u < scores@.len() ==> (#[trigger] scores@[u]) as int
                    == rem[u].score,
                forall|u: int| 0 <= u < rem.len() ==> 0 <= (#[trigger] rem[u]).score <= 2
                    * SIM_SCALE,
                forall|a: int|
                    0 <= a < out@.len() ==> 0 <= (#[trigger] results_view(out@)[a]).score <= 2
                        * SIM_SCALE,
                results_view(out@).to_multiset().add(rem.to_multiset()) == mapped.to_multiset(),
                forall|a: int, b: int|
                    0 <= a <= b < out@.len() ==> #[trigger] results_view(out@)[a].score
                        <= #[trigger] results_view(out@)[b].score,
                forall|a: int, u: int|
                    0 <= a < out@.len() && 0 <= u < rem.len()
                        ==> #[trigger] results_view(out@)[a].score <= #[trigger] rem[u].score,
                forall|a: int|
                    #![trigger results_view(out@)[a]]
                    0 <= a < out@.len() ==> exists|j: int|
                        0 <= j < self@.len() && (#[trigger] self@[j]).notebook_id == nb
                            && results_view(out@)[a] == result_of(self@[j], q),
            decreases k - out@.len(),
        {
            // Position of the smallest remaining score.
            let mut p: usize = 0;
            let mut u: usize = 1;
            while u < scores.len()
                invariant
                    0 <= p < scores@.len(),
                    1 <= u <= scores@.len(),
                    forall|w: int| 0 <= w < u ==> (#[trigger] scores@[w]) >= scores@[p as int],
                decreases scores@.len() - u,
            {
                if scores[u] < scores[p] {
                    p = u;
                }
                u += 1;
            }
            let j = idxs[p];
            let score = scores[p];
            let hit = VectorSearchResult {
                text: self.records[j].text.clone(),
                attachment_id: self.records[j].attachment_id.clone(),
                file_path: self.records[j].path.clone(),
                score,
            };
            proof {
                assert(hit@ == rem[p as int]);
            }
            let ghost out_before = results_view(out@);
            let ghost rem_before = rem;
            let ghost idxs_before = idxs@;
            let ghost scores_before = scores@;
            out.push(hit);
            idxs.remove(p);
            scores.remove(p);
            proof {
                let key = |v: VectorSearchResultView| v.score;
                rem = rem_before.remove(p as int);
                rem_before.remove_ensures(p as int);
                idxs_before.remove_ensures(p as int);
                scores_before.remove_ensures(p as int);
                assert(results_view(out@) =~= out_before.push(rem_before[p as int]));
                assert forall|u: int| 0 <= u < rem_before.len() implies key(rem_before[p as int])
                    <= key(#[trigger] rem_before[u]) by {
                    assert((scores_before[u]) as int == rem_before[u].score);
                    assert(scores_before[p as int] <= scores_before[u]);
                }
                crate::seqs::lemma_select_min_step(out_before, rem_before, p as int, key);
                assert forall|a: int, b: int|
                    0 <= a <= b < out@.len() implies #[trigger] results_view(out@)[a].score
                    <= #[trigger] results_view(out@)[b].score by {
                    assert(key(out_before.push(rem_before[p as int])[a]) <= key(
                        out_before.push(rem_before[p as int])[b],
                    ));
                }
                assert forall|a: int, u: int|
                    0 <= a < out@.len() && 0 <= u < rem.len() implies #[trigger] results_view(
                    out@,
                )[a].score <= #[trigger] rem[u].score by {
                    assert(key(out_before.push(rem_before[p as int])[a]) <= key(
                        rem_before.remove(p as int)[u],
                    ));
                }
                assert forall|a: int|
                    #![trigger results_view(out@)[a]]
                    0 <= a < out@.len() implies exists|j2: int|
                    0 <= j2 < self@.len() && (#[trigger] self@[j2]).notebook_id == nb
                        && results_view(out@)[a] == result_of(self@[j2], q) by {
                    if a < out_before.len() {
                        assert(results_view(out@)[a] == out_before[a]);
                    } else {
                        assert(results_view(out@)[a] == rem_before[p as int]);
                        assert(rem_before[p as int] == result_of(
                            self@[idxs_before[p as int] as int],
                            q,
                        ));
                        assert(0 <= idxs_before[p as int] < self@.len()
                            && self@[idxs_before[p as int] as int].notebook_id == nb
                            && results_view(out@)[a] == result_of(
                            self@[idxs_before[p as int] as int],
                            q,
                        ));
                    }
                }
            }
        }
        proof {
            let rsv = results_view(out@);
            assert forall|v: VectorSearchResultView| #[trigger] rsv.to_multiset().count(v)
                <= mapped.to_multiset().count(v) by {
                assert(mapped.to_multiset().count(v) == rsv.to_multiset().count(v)
                    + rem.to_multiset().count(v));
            }
            assert forall|v: VectorSearchResultView| #[trigger] rsv.to_multiset().count(v)
                < mapped.to_multiset().count(v) implies rsv.len() == k && (forall|a: int|
                0 <= a < rsv.len() ==> (#[trigger] rsv[a]).score <= v.score) by {
                assert(rem.to_multiset().count(v) > 0);
                assert(rem.contains(v));
                let u = choose|u: int| 0 <= u < rem.len() && rem[u] == v;
                assert forall|a: int| 0 <= a < rsv.len() implies (#[trigger] rsv[a]).score
                    <= v.score by {
                    assert(rsv[a].score <= rem[u].score);
                }
            }
            if rsv.len() > 0 {
                assert forall|j: int| 0 <= j < sc.len() implies rsv[0].score <= result_of(
                    #[trigger] sc[j],
                    q,
                ).score by {
                    let v = result_of(sc[j], q);
                    assert(mapped[j] == v);
                    assert(mapped.to_multiset().count(v) > 0) by {
                        assert(mapped.contains(v));
                    }
                    if rsv.to_multiset().count(v) > 0 {
                        assert(rsv.contains(v));
                        let a = choose|a: int| 0 <= a < rsv.len() && rsv[a] == v;
                        assert(rsv[0].score <= rsv[a].score);
                    } else {
                        assert(rsv.to_multiset().count(v) < mapped.to_multiset().count(v));
                    }
                }
            }
        }
        out
    }
}

/// Deleting an attachment's records is idempotent: a second delete of the
/// same attachment finds nothing left, changes nothing and raises no error.
pub proof fn lemma_delete_idempotent(records: Seq<EmbeddingRecordView>, id: Seq<char>)
    ensures
        records.filter(|r: EmbeddingRecordView| r.attachment_id != id).filter(
            |r: EmbeddingRecordView| r.attachment_id != id,
        ) == records.filter(|r: EmbeddingRecordView| r.attachment_id != id),
{
    crate::seqs::lemma_filter_idempotent(records, |r: EmbeddingRecordView| r.attachment_id != id);
}

/// A deleted attachment stays deleted for every search: once no stored row
/// carries its id, no notebook's scope holds a row of it either, so no
/// search result can come from it.
pub proof fn lemma_deleted_not_searchable(
    records: Seq<EmbeddingRecordView>,
    id: Seq<char>,
    nb: Seq<char>,
)
    requires
        forall|j: int| 0 <= j < records.len() ==> (#[trigger] records[j]).attachment_id != id,
    ensures
        forall|j: int|
            0 <= j < scoped(records, nb).len() ==> (#[trigger] scoped(records, nb)[j]).attachment_id
                != id,
{
    broadcast use Seq::lemma_filter_contains_rev;

    assert forall|j: int|
        0 <= j < scoped(records, nb).len() implies (#[trigger] scoped(
        records,
        nb,
    )[j]).attachment_id != id by {
        let x = scoped(records, nb)[j];
        assert(scoped(records, nb).contains(x));
        assert(records.contains(x));
        let w = choose|w: int| 0 <= w < records.len() && records[w] == x;
        assert(records[w].attachment_id != id);
    }
}

/// The scope of a notebook holds rows of that notebook alone: however close
/// another notebook's chunk is in vector space, it is not in the scoped set
/// a search ranks.
pub proof fn lemma_scope_excludes_other_notebooks(records: Seq<EmbeddingRecordView>, nb: Seq<char>)
    ensures
        forall|j: int|
            0 <= j < scoped(records, nb).len() ==> (#[trigger] scoped(records, nb)[j]).notebook_id
                == nb,
{
}

/// Round trip: once a record `r` with a nonzero vector is appended, the
/// scope of `r`'s notebook holds a row at distance zero from `r`'s own
/// vector — so by `search`'s contract, a search scoped to `r.notebook_id`
/// with `r.vector` as the query returns a first result with score zero.
/// When `r` joins a notebook that held nothing before, its scope is exactly
/// `r` alone, so that search returns exactly `r`'s hit. (A nonzero vector
/// is needed: an undirected vector sits at the neutral distance, and an
/// exact vector tie from another record could legitimately rank first.)
pub proof fn lemma_round_trip(before: Seq<EmbeddingRecordView>, r: EmbeddingRecordView)
    requires
        crate::vector::dot(r.vector, r.vector) > 0,
    ensures
        scoped(before + seq![r], r.notebook_id).len() > 0,
        exists|j: int|
            0 <= j < scoped(before + seq![r], r.notebook_id).len() && result_of(
                #[trigger] scoped(before + seq![r], r.notebook_id)[j],
                r.vector,
            ).score == 0,
        scoped(before, r.notebook_id).len() == 0 ==> scoped(before + seq![r], r.notebook_id)
            == seq![r],
{
    broadcast use Seq::filter_distributes_over_add;

    let s = before + seq![r];
    let sc = scoped(s, r.notebook_id);
    let last = s.len() - 1;
    assert(s[last] == r);
    assert(sc.contains(s[last]));
    let j = choose|j: int| 0 <= j < sc.len() && sc[j] == r;
    crate::vector::lemma_distance_self_zero(r.vector);
    assert(result_of(sc[j], r.vector).score == 0);
    if scoped(before, r.notebook_id).len() == 0 {
        let pred = |x: EmbeddingRecordView| x.notebook_id == r.notebook_id;
        assert(sc == scoped(before, r.notebook_id) + seq![r].filter(pred));
        crate::seqs::lemma_filter_all_true(seq![r], pred);
        assert(scoped(before, r.notebook_id) + seq![r] =~= seq![r]);
    }
}

/// An exact copy of a record, field by field.
fn clone_record(r: &EmbeddingRecord) -> (out: EmbeddingRecord)
    ensures
        out@ == r@,
{
    EmbeddingRecord {
        attachment_id: r.attachment_id.clone(),
        notebook_id: r.notebook_id.clone(),
        path: r.path.clone(),
        text: r.text.clone(),
        vector: clone_vec_i64(&r.vector),
    }
}

/// An exact copy of a vector of components.
pub(crate) fn clone_vec_i64(v: &Vec<i64>) -> (out: Vec<i64>)
    ensures
        out@ == v@,
{
    let mut out: Vec<i64> = Vec::new();
    let mut i: usize = 0;
    while i < v.len()
        invariant
            0 <= i <= v@.len(),
            out@ =~= v@.take(i as int),
        decreases v@.len() - i,
    {
        out.push(v[i]);
        proof {
            assert(out@ =~= v@.take(i + 1));
        }
        i += 1;
    }
    proof {
        assert(out@ =~= v@);
    }
    out
}

} // verus!
