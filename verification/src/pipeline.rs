//! The pipeline's two persisted stores held coherent: the attachment ledger
//! and the vector index, with the notebooks and chat history beside them.
//!
//! The well-formedness invariant ties the stores together: an attachment in
//! `Ready` has at least one vector record, one in `Pending` or `Error` has
//! none, and every record belongs to a live attachment. Every operation
//! preserves it; deletes remove vector rows and the ledger row in the safe
//! order, in one step, so no orphaned record survives an attachment.

use vstd::prelude::*;
use vstd::string::StrSliceExecFns;

use crate::chat::ChatEntry;
use crate::chat::ChatEntryView;
use crate::chat::Role;
use crate::chat::entries_view;
use crate::chat::new_chat_entry;
use crate::chat::sort_entries_asc;
use crate::errors::PipelineError;
use crate::extract::classify_extension;
use crate::extract::extension_of;
use crate::extract::extension_spec;
use crate::extract::supported_extension;
use crate::index::EmbeddingRecord;
use crate::index::EmbeddingRecordView;
use crate::index::VectorIndex;
use crate::index::records_of;
use crate::index::records_view;
use crate::ledger::Attachment;
use crate::ledger::AttachmentStatus;
use crate::ledger::AttachmentView;
use crate::ledger::attachments_view;
use crate::ledger::clone_attachment;
use crate::ledger::new_attachment;
use crate::ledger::sort_attachments_desc;
use crate::notebook::Notebook;
use crate::notebook::NotebookView;
use crate::notebook::clone_notebook;
use crate::notebook::new_notebook;
use crate::notebook::notebooks_view;
use crate::seqs::lemma_filter_all_false;
use crate::seqs::lemma_filter_all_true;
use crate::seqs::lemma_filter_narrower;
use crate::seqs::lemma_filter_push;
use crate::text::str_eq;
use crate::vector::DIM_MAX;
use crate::vector::valid_vector;

verus! {

broadcast use
    vstd::seq_lib::group_filter_ensures,
    Seq::filter_distributes_over_add,
    Seq::lemma_filter_contains_rev;

/// Some ledger row carries this attachment id.
pub open spec fn has_attachment(atts: Seq<AttachmentView>, id: Seq<char>) -> bool {
    exists|i: int| 0 <= i < atts.len() && (#[trigger] atts[i]).id == id
}

/// Some notebook row carries this id.
pub open spec fn has_notebook(nbs: Seq<NotebookView>, id: Seq<char>) -> bool {
    exists|i: int| 0 <= i < nbs.len() && (#[trigger] nbs[i]).id == id
}

/// `b` is `a` with its status replaced.
pub open spec fn same_but_status(a: AttachmentView, b: AttachmentView, st: AttachmentStatus) -> bool {
    &&& b.id == a.id
    &&& b.notebook_id == a.notebook_id
    &&& b.file_name == a.file_name
    &&& b.file_path == a.file_path
    &&& b.file_size == a.file_size
    &&& b.file_type == a.file_type
    &&& b.created_at == a.created_at
    &&& b.status == st
}

/// The whole pipeline state: notebooks, the attachment ledger, the chat
/// history and the vector index.
pub struct Pipeline {
    pub notebooks: Vec<Notebook>,
    pub attachments: Vec<Attachment>,
    pub history: Vec<ChatEntry>,
    pub index: VectorIndex,
}

impl Pipeline {
    /// The ledger rows as mathematical values.
    pub open spec fn atts(self) -> Seq<AttachmentView> {
        attachments_view(self.attachments@)
    }

    /// The cross-store invariant for one ledger row: `Ready` rows own at
    /// least one vector record, `Pending` and `Error` rows own none.
    pub open spec fn row_ok(self, i: int) -> bool {
        let a = self.atts()[i];
        &&& (a.status is Ready ==> records_of(self.index@, a.id).len() > 0)
        &&& (!(a.status is Ready) ==> records_of(self.index@, a.id).len() == 0)
    }

    /// Well-formedness of the whole state: a well-formed index, the
    /// status/record invariant for every ledger row, and no orphaned
    /// record — every vector record references a live ledger row.
    pub open spec fn wf(self) -> bool {
        &&& self.index.wf()
        &&& forall|i: int| 0 <= i < self.atts().len() ==> #[trigger] self.row_ok(i)
        &&& forall|j: int|
            0 <= j < self.index@.len() ==> has_attachment(
                self.atts(),
                (#[trigger] self.index@[j]).attachment_id,
            )
    }

    /// An empty pipeline whose index stores vectors of dimension `dim`.
    pub fn new(dim: usize) -> (p: Pipeline)
        requires
            1 <= dim <= DIM_MAX,
        ensures
            p.wf(),
            p.notebooks@.len() == 0,
            p.attachments@.len() == 0,
            p.history@.len() == 0,
            p.index@ == Seq::<EmbeddingRecordView>::empty(),
            p.index.dim == dim,
    {
        let p = Pipeline {
            notebooks: Vec::new(),
            attachments: Vec::new(),
            history: Vec::new(),
            index: VectorIndex::new(dim),
        };
        proof {
            assert(p.atts() =~= Seq::<AttachmentView>::empty());
        }
        p
    }

    /// The synchronous part of an upload: checks the file's extension —
    /// an unsupported format fails here, before any ledger row exists —
    /// and then commits a fresh `Pending` row, which the UI sees
    /// immediately; all remaining work runs in the background job.
    ///
    /// The fresh id is random: in the (vanishingly rare) case that it
    /// collides with a live row or record, nothing is changed and
    /// `LedgerFailure` comes back.
    pub fn register_attachment(
        &mut self,
        notebook_id: String,
        file_name: String,
        file_path: String,
        file_size: i64,
        file_type: String,
    ) -> (r: Result<Attachment, PipelineError>)
        requires
            old(self).wf(),
        ensures
            final(self).wf(),
            final(self).notebooks == old(self).notebooks,
            final(self).history == old(self).history,
            final(self).index == old(self).index,
            match r {
                Ok(a) => {
                    &&& supported_extension(extension_spec(file_name@))
                    &&& a@.id.len() == 36
                    &&& a@.notebook_id == notebook_id@
                    &&& a@.file_name == file_name@
                    &&& a@.file_path == file_path@
                    &&& a@.file_size == file_size as int
                    &&& a@.file_type == file_type@
                    &&& a@.status is Pending
                    &&& final(self).atts() == old(self).atts().push(a@)
                },
                Err(e) => {
                    &&& final(self).attachments == old(self).attachments
                    &&& (e matches PipelineError::UnsupportedFormat(x) ==> !supported_extension(
                        extension_spec(file_name@),
                    ) && x@ == extension_spec(file_name@))
                    &&& (e is UnsupportedFormat || e is LedgerFailure)
                    &&& (e is LedgerFailure ==> supported_extension(extension_spec(file_name@))
                        && (exists|id: Seq<char>|
                        #![trigger has_attachment(old(self).atts(), id)]
                        id.len() == 36 && (has_attachment(old(self).atts(), id) || records_of(
                            old(self).index@,
                            id,
                        ).len() > 0)))
                },
            },
            !supported_extension(extension_spec(file_name@)) ==> r is Err,
    {
        let ext = extension_of(file_name.as_str());
        match classify_extension(ext.as_str()) {
            Err(e) => {
                return Err(e);
            },
            Ok(_) => {},
        }
        let a = new_attachment(notebook_id, file_name, file_path, file_size, file_type);
        if ledger_has(&self.attachments, a.id.as_str()) || self.index.has_attachment(
            a.id.as_str(),
        ) {
            proof {
                assert(a@.id.len() == 36 && (has_attachment(old(self).atts(), a@.id)
                    || records_of(old(self).index@, a@.id).len() > 0));
            }
            return Err(PipelineError::LedgerFailure);
        }
        let ghost before = self.atts();
        let row = clone_attachment(&a);
        self.attachments.push(row);
        proof {
            assert(self.atts() =~= before.push(a@));
            assert forall|i: int| 0 <= i < self.atts().len() implies #[trigger] self.row_ok(
                i,
            ) by {
                if i < before.len() {
                    assert(old(self).row_ok(i));
                    assert(self.atts()[i] == before[i]);
                } else {
                    assert(self.atts()[i] == a@);
                    assert(records_of(self.index@, a@.id).len() == 0);
                }
            }
            assert forall|j: int| 0 <= j < self.index@.len() implies has_attachment(
                self.atts(),
                (#[trigger] self.index@[j]).attachment_id,
            ) by {
                assert(has_attachment(before, self.index@[j].attachment_id));
                let w = choose|w: int|
                    0 <= w < before.len() && (#[trigger] before[w]).id
                        == self.index@[j].attachment_id;
                assert(self.atts()[w].id == self.index@[j].attachment_id);
            }
        }
        Ok(a)
    }

    /// Finishes a successful ingestion job in one step: the whole batch of
    /// records lands in the index and every ledger row of the attachment
    /// moves from `Pending` to `Ready`. A job that indexed nothing cannot
    /// succeed: the batch must be non-empty.
    pub fn complete_ingestion(&mut self, attachment_id: &str, records: Vec<EmbeddingRecord>)
        requires
            old(self).wf(),
            has_attachment(old(self).atts(), attachment_id@),
            forall|i: int|
                0 <= i < old(self).atts().len() ==> ((#[trigger] old(self).atts()[i]).id
                    == attachment_id@ ==> old(self).atts()[i].status is Pending),
            records@.len() > 0,
            forall|i: int|
                0 <= i < records@.len() ==> (#[trigger] records@[i])@.attachment_id
                    == attachment_id@,
            forall|i: int|
                0 <= i < records@.len() ==> valid_vector(
                    (#[trigger] records@[i])@.vector,
                    old(self).index.dim as nat,
                ),
        ensures
            final(self).wf(),
            final(self).notebooks == old(self).notebooks,
            final(self).history == old(self).history,
            final(self).index.dim == old(self).index.dim,
            final(self).index@ == old(self).index@ + records_view(records@),
            final(self).atts().len() == old(self).atts().len(),
            forall|i: int|
                0 <= i < old(self).atts().len() ==> {
                    let a = #[trigger] old(self).atts()[i];
                    if a.id == attachment_id@ {
                        &&& same_but_status(a, final(self).atts()[i], AttachmentStatus::Ready)
                        &&& a.status.can_step_to(final(self).atts()[i].status)
                    } else {
                        final(self).atts()[i] == a
                    }
                },
    {
        let ghost batch = records_view(records@);
        let ghost old_index = self.index@;
        let ghost old_atts = self.atts();
        self.index.add(records);
        set_status_all(&mut self.attachments, attachment_id, AttachmentStatus::Ready);
        proof {
            assert forall|i: int| 0 <= i < self.atts().len() implies #[trigger] self.row_ok(
                i,
            ) by {
                let a_old = old_atts[i];
                let a = self.atts()[i];
                assert(self.index@ == old_index + batch);
                if a_old.id == attachment_id@ {
                    lemma_filter_all_true(batch, |r: EmbeddingRecordView| r.attachment_id == a.id);
                    assert(records_of(old_index + batch, a.id) == records_of(old_index, a.id)
                        + records_of(batch, a.id));
                    assert(records_of(batch, a.id) == batch);
                } else {
                    assert(a == a_old);
                    lemma_filter_all_false(batch, |r: EmbeddingRecordView| r.attachment_id == a.id);
                    assert(records_of(old_index + batch, a.id) == records_of(old_index, a.id)
                        + records_of(batch, a.id));
                    assert(records_of(self.index@, a.id) =~= records_of(old_index, a.id));
                    assert(old(self).row_ok(i));
                }
            }
            assert forall|j: int| 0 <= j < self.index@.len() implies has_attachment(
                self.atts(),
                (#[trigger] self.index@[j]).attachment_id,
            ) by {
                let rec_id = self.index@[j].attachment_id;
                if j < old_index.len() {
                    assert(self.index@[j] == old_index[j]);
                    assert(has_attachment(old_atts, rec_id));
                    let w = choose|w: int|
                        0 <= w < old_atts.len() && (#[trigger] old_atts[w]).id == rec_id;
                    assert(self.atts()[w].id == rec_id);
                } else {
                    assert(self.index@[j] == batch[j - old_index.len()]);
                    assert(rec_id == attachment_id@);
                    let w = choose|w: int|
                        0 <= w < old_atts.len() && (#[trigger] old_atts[w]).id == attachment_id@;
                    assert(self.atts()[w].id == rec_id);
                }
            }
        }
    }

    /// Ends a failed ingestion job: any partially written records of the
    /// attachment are removed — when none were ever written, the index is
    /// left exactly as it was — and every ledger row of the attachment
    /// moves from `Pending` to `Error`. The internal failure is logged by
    /// the caller, never stored.
    pub fn fail_ingestion(&mut self, attachment_id: &str)
        requires
            old(self).wf(),
            forall|i: int|
                0 <= i < old(self).atts().len() ==> ((#[trigger] old(self).atts()[i]).id
                    == attachment_id@ ==> old(self).atts()[i].status is Pending),
        ensures
            final(self).wf(),
            final(self).notebooks == old(self).notebooks,
            final(self).history == old(self).history,
            final(self).index.dim == old(self).index.dim,
            final(self).index@ == old(self).index@.filter(
                |r: EmbeddingRecordView| r.attachment_id != attachment_id@,
            ),
            records_of(old(self).index@, attachment_id@).len() == 0 ==> final(self).index@
                == old(self).index@,
            final(self).atts().len() == old(self).atts().len(),
            forall|i: int|
                0 <= i < old(self).atts().len() ==> {
                    let a = #[trigger] old(self).atts()[i];
                    if a.id == attachment_id@ {
                        &&& same_but_status(a, final(self).atts()[i], AttachmentStatus::Error)
                        &&& a.status.can_step_to(final(self).atts()[i].status)
                    } else {
                        final(self).atts()[i] == a
                    }
                },
    {
        let ghost old_index = self.index@;
        let ghost old_atts = self.atts();
        self.index.delete_by_attachment(attachment_id);
        set_status_all(&mut self.attachments, attachment_id, AttachmentStatus::Error);
        proof {
            self.lemma_after_purge(*old(self), old_index, old_atts, attachment_id@);
            if records_of(old_index, attachment_id@).len() == 0 {
                assert forall|j: int|
                    0 <= j < old_index.len() implies (#[trigger] old_index[j]).attachment_id
                    != attachment_id@ by {
                    if old_index[j].attachment_id == attachment_id@ {
                        assert(records_of(old_index, attachment_id@).contains(old_index[j]));
                    }
                }
                lemma_filter_all_true(
                    old_index,
                    |r: EmbeddingRecordView| r.attachment_id != attachment_id@,
                );
            }
        }
    }

    /// Removes an attachment entirely: its vector records first, then its
    /// ledger rows, in one step — the order that can never leave an
    /// orphaned record. Deleting an attachment that does not exist changes
    /// nothing and is no error: the operation is idempotent.
    pub fn delete_attachment(&mut self, attachment_id: &str)
        requires
            old(self).wf(),
        ensures
            final(self).wf(),
            final(self).notebooks == old(self).notebooks,
            final(self).history == old(self).history,
            final(self).index.dim == old(self).index.dim,
            final(self).index@ == old(self).index@.filter(
                |r: EmbeddingRecordView| r.attachment_id != attachment_id@,
            ),
            final(self).atts() == old(self).atts().filter(
                |a: AttachmentView| a.id != attachment_id@,
            ),
    {
        let ghost old_index = self.index@;
        let ghost old_atts = self.atts();
        let ghost keep = |a: AttachmentView| a.id != attachment_id@;
        self.index.delete_by_attachment(attachment_id);
        let mut kept: Vec<Attachment> = Vec::new();
        let mut i: usize = 0;
        proof {
            assert(old_atts.take(0) =~= Seq::<AttachmentView>::empty());
            assert(attachments_view(kept@) =~= old_atts.take(0).filter(keep));
        }
        while i < self.attachments.len()
            invariant
                0 <= i <= self.attachments@.len(),
                attachments_view(self.attachments@) == old_atts,
                attachments_view(kept@) == old_atts.take(i as int).filter(keep),
                keep == (|a: AttachmentView| a.id != attachment_id@),
            decreases self.attachments@.len() - i,
        {
            let hit = str_eq(self.attachments[i].id.as_str(), attachment_id);
            proof {
                lemma_filter_push(old_atts.take(i as int), keep, old_atts[i as int]);
                assert(old_atts.take(i + 1) =~= old_atts.take(i as int).push(old_atts[i as int]));
            }
            if !hit {
                let row = clone_attachment(&self.attachments[i]);
                kept.push(row);
                proof {
                    assert(attachments_view(kept@) =~= old_atts.take(i as int).filter(keep).push(
                        old_atts[i as int],
                    ));
                }
            }
            i += 1;
        }
        proof {
            assert(old_atts.take(old_atts.len() as int) =~= old_atts);
        }
        self.attachments = kept;
        proof {
            let atts_new = self.atts();
            assert forall|i2: int| 0 <= i2 < atts_new.len() implies #[trigger] self.row_ok(
                i2,
            ) by {
                let a = atts_new[i2];
                assert(atts_new.contains(a));
                assert(old_atts.contains(a));
                let w = choose|w: int| 0 <= w < old_atts.len() && old_atts[w] == a;
                assert(old(self).row_ok(w));
                assert(a.id != attachment_id@);
                lemma_filter_narrower(
                    old_index,
                    |r: EmbeddingRecordView| r.attachment_id != attachment_id@,
                    |r: EmbeddingRecordView| r.attachment_id == a.id,
                );
                assert(records_of(self.index@, a.id) == records_of(old_index, a.id));
            }
            assert forall|j: int| 0 <= j < self.index@.len() implies has_attachment(
                self.atts(),
                (#[trigger] self.index@[j]).attachment_id,
            ) by {
                let rec = self.index@[j];
                assert(self.index@.contains(rec));
                assert(old_index.contains(rec));
                let j2 = choose|j2: int| 0 <= j2 < old_index.len() && old_index[j2] == rec;
                assert(has_attachment(old_atts, rec.attachment_id));
                let w = choose|w: int|
                    0 <= w < old_atts.len() && (#[trigger] old_atts[w]).id == rec.attachment_id;
                assert(rec.attachment_id != attachment_id@);
                assert(keep(old_atts[w]));
                assert(self.atts().contains(old_atts[w]));
                let w2 = choose|w2: int|
                    0 <= w2 < self.atts().len() && self.atts()[w2] == old_atts[w];
                assert(self.atts()[w2].id == rec.attachment_id);
            }
        }
    }

    /// Well-formedness reads the ledger and the index alone: states that
    /// agree on both are equally well formed.
    proof fn lemma_wf_same_stores(a: Pipeline, b: Pipeline)
        requires
            a.wf(),
            b.attachments == a.attachments,
            b.index == a.index,
        ensures
            b.wf(),
    {
        assert forall|i: int| 0 <= i < b.atts().len() implies #[trigger] b.row_ok(i) by {
            assert(a.row_ok(i));
        }
        assert forall|j: int| 0 <= j < b.index@.len() implies has_attachment(
            b.atts(),
            (#[trigger] b.index@[j]).attachment_id,
        ) by {
            assert(has_attachment(a.atts(), a.index@[j].attachment_id));
        }
    }

    /// Creates a notebook from the title the UI provides and returns it.
    pub fn create_notebook(&mut self, title: String) -> (n: Notebook)
        requires
            old(self).wf(),
        ensures
            final(self).wf(),
            final(self).attachments == old(self).attachments,
            final(self).history == old(self).history,
            final(self).index == old(self).index,
            notebooks_view(final(self).notebooks@) == notebooks_view(old(self).notebooks@).push(
                n@,
            ),
            n@.title == title@,
            n@.id.len() == 36,
            n@.created_at == n@.last_accessed,
    {
        let n = new_notebook(title);
        let row = clone_notebook(&n);
        let ghost before = notebooks_view(self.notebooks@);
        self.notebooks.push(row);
        proof {
            assert(notebooks_view(self.notebooks@) =~= before.push(n@));
            Self::lemma_wf_same_stores(*old(self), *self);
        }
        n
    }

    /// Removes the notebook rows with the given id and nothing else. The
    /// cascade to the notebook's attachments and chat history is the
    /// caller's responsibility, not enforced atomically here.
    pub fn delete_notebook(&mut self, id: &str)
        requires
            old(self).wf(),
        ensures
            final(self).wf(),
            final(self).attachments == old(self).attachments,
            final(self).history == old(self).history,
            final(self).index == old(self).index,
            notebooks_view(final(self).notebooks@) == notebooks_view(old(self).notebooks@).filter(
                |n: NotebookView| n.id != id@,
            ),
    {
        let ghost keep = |n: NotebookView| n.id != id@;
        let ghost before = notebooks_view(self.notebooks@);
        let mut kept: Vec<Notebook> = Vec::new();
        let mut i: usize = 0;
        proof {
            assert(before.take(0) =~= Seq::<NotebookView>::empty());
            assert(notebooks_view(kept@) =~= before.take(0).filter(keep));
        }
        while i < self.notebooks.len()
            invariant
                0 <= i <= self.notebooks@.len(),
                notebooks_view(self.notebooks@) == before,
                notebooks_view(kept@) == before.take(i as int).filter(keep),
                keep == (|n: NotebookView| n.id != id@),
            decreases self.notebooks@.len() - i,
        {
            let hit = str_eq(self.notebooks[i].id.as_str(), id);
            proof {
                lemma_filter_push(before.take(i as int), keep, before[i as int]);
                assert(before.take(i + 1) =~= before.take(i as int).push(before[i as int]));
            }
            if !hit {
                let row = clone_notebook(&self.notebooks[i]);
                kept.push(row);
                proof {
                    assert(notebooks_view(kept@) =~= before.take(i as int).filter(keep).push(
                        before[i as int],
                    ));
                }
            }
            i += 1;
        }
        proof {
            assert(before.take(before.len() as int) =~= before);
        }
        self.notebooks = kept;
        proof {
            Self::lemma_wf_same_stores(*old(self), *self);
        }
    }

    /// Every notebook, in creation order.
    pub fn list_notebooks(&self) -> (r: Vec<Notebook>)
        ensures
            notebooks_view(r@) == notebooks_view(self.notebooks@),
    {
        let mut out: Vec<Notebook> = Vec::new();
        let mut i: usize = 0;
        let ghost all = notebooks_view(self.notebooks@);
        while i < self.notebooks.len()
            invariant
                0 <= i <= self.notebooks@.len(),
                all == notebooks_view(self.notebooks@),
                notebooks_view(out@) == all.take(i as int),
            decreases self.notebooks@.len() - i,
        {
            let ghost ob = notebooks_view(out@);
            let row = clone_notebook(&self.notebooks[i]);
            out.push(row);
            proof {
                assert(notebooks_view(out@) =~= ob.push(all[i as int]));
                assert(all.take(i + 1) =~= all.take(i as int).push(all[i as int]));
            }
            i += 1;
        }
        proof {
            assert(all.take(all.len() as int) =~= all);
        }
        out
    }

    /// Looks a notebook up by id; `None` exactly when no row carries it.
    pub fn get_notebook(&self, id: &str) -> (r: Option<Notebook>)
        ensures
            r is Some <==> has_notebook(notebooks_view(self.notebooks@), id@),
            r matches Some(n) ==> n@.id == id@ && exists|i: int|
                0 <= i < notebooks_view(self.notebooks@).len() && notebooks_view(
                    self.notebooks@,
                )[i] == n@,
    {
        let mut i: usize = 0;
        while i < self.notebooks.len()
            invariant
                0 <= i <= self.notebooks@.len(),
                forall|j: int|
                    0 <= j < i ==> (#[trigger] notebooks_view(self.notebooks@)[j]).id != id@,
            decreases self.notebooks@.len() - i,
        {
            if str_eq(self.notebooks[i].id.as_str(), id) {
                let n = clone_notebook(&self.notebooks[i]);
                proof {
                    assert(notebooks_view(self.notebooks@)[i as int] == n@);
                }
                return Some(n);
            }
            i += 1;
        }
        None
    }

    /// Stamps the notebook's last-accessed time with the clock's current
    /// value, touching nothing else: called whenever the user opens it. The
    /// stamp written is returned.
    pub fn mark_notebook_accessed(&mut self, id: &str) -> (ts: i64)
        requires
            old(self).wf(),
        ensures
            final(self).wf(),
            final(self).attachments == old(self).attachments,
            final(self).history == old(self).history,
            final(self).index == old(self).index,
            notebooks_view(final(self).notebooks@).len() == notebooks_view(
                old(self).notebooks@,
            ).len(),
            forall|i: int|
                0 <= i < notebooks_view(old(self).notebooks@).len() ==> {
                    let a = #[trigger] notebooks_view(old(self).notebooks@)[i];
                    let b = notebooks_view(final(self).notebooks@)[i];
                    if a.id == id@ {
                        b == (NotebookView { last_accessed: ts as int, ..a })
                    } else {
                        b == a
                    }
                },
    {
        let now = crate::ids::now_timestamp();
        let ghost before = notebooks_view(self.notebooks@);
        let mut out: Vec<Notebook> = Vec::new();
        let mut i: usize = 0;
        while i < self.notebooks.len()
            invariant
                0 <= i <= self.notebooks@.len(),
                notebooks_view(self.notebooks@) == before,
                out@.len() == i,
                forall|j: int|
                    0 <= j < i ==> {
                        let a = #[trigger] before[j];
                        let b = notebooks_view(out@)[j];
                        if a.id == id@ {
                            b == (NotebookView { last_accessed: now as int, ..a })
                        } else {
                            b == a
                        }
                    },
            decreases self.notebooks@.len() - i,
        {
            let mut row = clone_notebook(&self.notebooks[i]);
            if str_eq(row.id.as_str(), id) {
                row.last_accessed = now;
            }
            out.push(row);
            i += 1;
        }
        self.notebooks = out;
        proof {
            Self::lemma_wf_same_stores(*old(self), *self);
        }
        now
    }

    /// Appends one entry to the notebook's chat history — entries are never
    /// mutated or deleted individually — and returns it.
    pub fn record_chat_message(&mut self, notebook_id: String, role: Role, message: String) -> (e:
        ChatEntry)
        requires
            old(self).wf(),
        ensures
            final(self).wf(),
            final(self).attachments == old(self).attachments,
            final(self).notebooks == old(self).notebooks,
            final(self).index == old(self).index,
            entries_view(final(self).history@) == entries_view(old(self).history@).push(e@),
            e@.notebook_id == notebook_id@,
            e@.role == role,
            e@.message == message@,
            e@.id.len() == 36,
    {
        let e = new_chat_entry(notebook_id, role, message);
        let row = crate::chat::clone_entry(&e);
        let ghost before = entries_view(self.history@);
        self.history.push(row);
        proof {
            assert(entries_view(self.history@) =~= before.push(e@));
            Self::lemma_wf_same_stores(*old(self), *self);
        }
        e
    }

    /// The notebook's chat history, ordered by timestamp ascending for
    /// display: oldest first.
    pub fn chat_history(&self, notebook_id: &str) -> (r: Vec<ChatEntry>)
        ensures
            ({
                let mine = entries_view(self.history@).filter(
                    |e: ChatEntryView| e.notebook_id == notebook_id@,
                );
                &&& entries_view(r@).to_multiset() == mine.to_multiset()
                &&& r@.len() == mine.len()
                &&& forall|a: int, b: int|
                    0 <= a <= b < r@.len() ==> #[trigger] entries_view(r@)[a].timestamp
                        <= #[trigger] entries_view(r@)[b].timestamp
            }),
    {
        let ghost keep = |e: ChatEntryView| e.notebook_id == notebook_id@;
        let ghost all = entries_view(self.history@);
        let mut mine: Vec<ChatEntry> = Vec::new();
        let mut i: usize = 0;
        proof {
            assert(all.take(0) =~= Seq::<ChatEntryView>::empty());
            assert(entries_view(mine@) =~= all.take(0).filter(keep));
        }
        while i < self.history.len()
            invariant
                0 <= i <= self.history@.len(),
                all == entries_view(self.history@),
                entries_view(mine@) == all.take(i as int).filter(keep),
                keep == (|e: ChatEntryView| e.notebook_id == notebook_id@),
            decreases self.history@.len() - i,
        {
            let hit = str_eq(self.history[i].notebook_id.as_str(), notebook_id);
            proof {
                lemma_filter_push(all.take(i as int), keep, all[i as int]);
                assert(all.take(i + 1) =~= all.take(i as int).push(all[i as int]));
            }
            if hit {
                let row = crate::chat::clone_entry(&self.history[i]);
                mine.push(row);
                proof {
                    assert(entries_view(mine@) =~= all.take(i as int).filter(keep).push(
                        all[i as int],
                    ));
                }
            }
            i += 1;
        }
        proof {
            assert(all.take(all.len() as int) =~= all);
        }
        sort_entries_asc(mine)
    }

    /// The notebook's attachments, newest first, as they are listed to the
    /// user.
    pub fn attachments_for_notebook(&self, notebook_id: &str) -> (r: Vec<Attachment>)
        ensures
            ({
                let mine = attachments_view(self.attachments@).filter(
                    |a: AttachmentView| a.notebook_id == notebook_id@,
                );
                &&& attachments_view(r@).to_multiset() == mine.to_multiset()
                &&& r@.len() == mine.len()
                &&& forall|a: int, b: int|
                    0 <= a <= b < r@.len() ==> #[trigger] attachments_view(r@)[a].created_at
                        >= #[trigger] attachments_view(r@)[b].created_at
            }),
    {
        let ghost keep = |a: AttachmentView| a.notebook_id == notebook_id@;
        let ghost all = attachments_view(self.attachments@);
        let mut mine: Vec<Attachment> = Vec::new();
        let mut i: usize = 0;
        proof {
            assert(all.take(0) =~= Seq::<AttachmentView>::empty());
            assert(attachments_view(mine@) =~= all.take(0).filter(keep));
        }
        while i < self.attachments.len()
            invariant
                0 <= i <= self.attachments@.len(),
                all == attachments_view(self.attachments@),
                attachments_view(mine@) == all.take(i as int).filter(keep),
                keep == (|a: AttachmentView| a.notebook_id == notebook_id@),
            decreases self.attachments@.len() - i,
        {
            let hit = str_eq(self.attachments[i].notebook_id.as_str(), notebook_id);
            proof {
                lemma_filter_push(all.take(i as int), keep, all[i as int]);
                assert(all.take(i + 1) =~= all.take(i as int).push(all[i as int]));
            }
            if hit {
                let row = clone_attachment(&self.attachments[i]);
                mine.push(row);
                proof {
                    assert(attachments_view(mine@) =~= all.take(i as int).filter(keep).push(
                        all[i as int],
                    ));
                }
            }
            i += 1;
        }
        proof {
            assert(all.take(all.len() as int) =~= all);
        }
        sort_attachments_desc(mine)
    }

    /// The invariant after purging one attachment's records and marking its
    /// rows: shared by the failure and deletion paths that keep the ledger
    /// rows.
    proof fn lemma_after_purge(
        &self,
        prev: Self,
        old_index: Seq<EmbeddingRecordView>,
        old_atts: Seq<AttachmentView>,
        id: Seq<char>,
    )
        requires
            prev.wf(),
            old_index == prev.index@,
            old_atts == prev.atts(),
            self.index.wf(),
            self.index@ == old_index.filter(|r: EmbeddingRecordView| r.attachment_id != id),
            forall|j: int|
                0 <= j < self.index@.len() ==> (#[trigger] self.index@[j]).attachment_id != id,
            self.atts().len() == old_atts.len(),
            forall|i: int|
                0 <= i < old_atts.len() ==> ((#[trigger] self.atts()[i]).id == old_atts[i].id
                    && (old_atts[i].id != id ==> self.atts()[i] == old_atts[i]) && (old_atts[i].id
                    == id ==> !(self.atts()[i].status is Ready))),
        ensures
            self.wf(),
    {
        assert forall|i: int| 0 <= i < self.atts().len() implies #[trigger] self.row_ok(i) by {
            let a = self.atts()[i];
            let a_old = old_atts[i];
            if a_old.id == id {
                lemma_filter_all_false(
                    self.index@,
                    |r: EmbeddingRecordView| r.attachment_id == a.id,
                );
                assert(records_of(self.index@, a.id).len() == 0);
            } else {
                assert(prev.row_ok(i));
                lemma_filter_narrower(
                    old_index,
                    |r: EmbeddingRecordView| r.attachment_id != id,
                    |r: EmbeddingRecordView| r.attachment_id == a.id,
                );
                assert(records_of(self.index@, a.id) == records_of(old_index, a.id));
            }
        }
        assert forall|j: int| 0 <= j < self.index@.len() implies has_attachment(
            self.atts(),
            (#[trigger] self.index@[j]).attachment_id,
        ) by {
            let rec = self.index@[j];
            assert(self.index@.contains(rec));
            assert(old_index.contains(rec));
            let j2 = choose|j2: int| 0 <= j2 < old_index.len() && old_index[j2] == rec;
            assert(has_attachment(old_atts, rec.attachment_id));
            let w = choose|w: int|
                0 <= w < old_atts.len() && (#[trigger] old_atts[w]).id == rec.attachment_id;
            assert(self.atts()[w].id == rec.attachment_id);
        }
    }
}

/// An attachment never stands in `Ready` with zero vector records, and
/// never owns vector records while `Pending` or `Error`: in a well-formed
/// pipeline a ledger row is `Ready` exactly when the index holds records of
/// it.
pub proof fn lemma_ready_iff_records(p: Pipeline, i: int)
    requires
        p.wf(),
        0 <= i < attachments_view(p.attachments@).len(),
    ensures
        attachments_view(p.attachments@)[i].status is Ready <==> records_of(
            p.index@,
            attachments_view(p.attachments@)[i].id,
        ).len() > 0,
{
    assert(p.row_ok(i));
}

/// Whether some ledger row carries this id.
fn ledger_has(rows: &Vec<Attachment>, id: &str) -> (r: bool)
    ensures
        r <==> has_attachment(attachments_view(rows@), id@),
{
    let mut i: usize = 0;
    while i < rows.len()
        invariant
            0 <= i <= rows@.len(),
            forall|j: int|
                0 <= j < i ==> (#[trigger] attachments_view(rows@)[j]).id != id@,
        decreases rows@.len() - i,
    {
        if str_eq(rows[i].id.as_str(), id) {
            proof {
                assert(attachments_view(rows@)[i as int].id == id@);
            }
            return true;
        }
        i += 1;
    }
    false
}

/// Rewrites the status of every ledger row with the given id, touching
/// nothing else.
fn set_status_all(rows: &mut Vec<Attachment>, id: &str, status: AttachmentStatus)
    ensures
        final(rows)@.len() == old(rows)@.len(),
        forall|i: int|
            0 <= i < old(rows)@.len() ==> {
                let a = #[trigger] attachments_view(old(rows)@)[i];
                if a.id == id@ {
                    same_but_status(a, attachments_view(final(rows)@)[i], status)
                } else {
                    attachments_view(final(rows)@)[i] == a
                }
            },
{
    let ghost before = attachments_view(rows@);
    let mut out: Vec<Attachment> = Vec::new();
    let mut i: usize = 0;
    while i < rows.len()
        invariant
            0 <= i <= rows@.len(),
            attachments_view(rows@) == before,
            out@.len() == i,
            forall|j: int|
                0 <= j < i ==> {
                    let a = #[trigger] before[j];
                    if a.id == id@ {
                        same_but_status(a, attachments_view(out@)[j], status)
                    } else {
                        attachments_view(out@)[j] == a
                    }
                },
        decreases rows@.len() - i,
    {
        let mut row = clone_attachment(&rows[i]);
        if str_eq(row.id.as_str(), id) {
            row.status = status;
        }
        out.push(row);
        i += 1;
    }
    *rows = out;
}

} // verus!
