//! The attachment ledger: the relational record of each uploaded file and
//! its lifecycle status.

use vstd::prelude::*;
use vstd::string::StrSliceExecFns;

use crate::ids::fresh_id;
use crate::ids::now_timestamp;

verus! {

broadcast use vstd::seq_lib::group_to_multiset_ensures;

/// Lifecycle state of an attachment.
///
/// An attachment is created `Pending`, moves to `Ready` once all of its
/// chunks are durably written to the vector index, and to `Error` when any
/// ingestion step fails. A failed attachment stays in `Error` until the user
/// re-uploads or deletes it: no retry is automatic.
#[derive(Clone, Copy, Debug, PartialEq, Eq, Structural)]
pub enum AttachmentStatus {
    Pending,
    Ready,
    Error,
}

/// The label each status carries in the relational store.
pub open spec fn status_label_spec(s: AttachmentStatus) -> Seq<char> {
    match s {
        AttachmentStatus::Pending => "pending"@,
        AttachmentStatus::Ready => "ready"@,
        AttachmentStatus::Error => "error"@,
    }
}

impl AttachmentStatus {
    /// The only transitions the orchestrator performs: a job that starts in
    /// `Pending` ends in `Ready` (success) or `Error` (failure).
    pub open spec fn can_step_to(self, next: Self) -> bool {
        self is Pending && (next is Ready || next is Error)
    }

    /// The text label stored in the relational row for this status.
    pub fn label(&self) -> (r: String)
        ensures
            r@ == status_label_spec(*self),
    {
        match self {
            AttachmentStatus::Pending => "pending".to_owned(),
            AttachmentStatus::Ready => "ready".to_owned(),
            AttachmentStatus::Error => "error".to_owned(),
        }
    }
}

/// The mathematical value of an attachment row.
pub ghost struct AttachmentView {
    pub id: Seq<char>,
    pub notebook_id: Seq<char>,
    pub file_name: Seq<char>,
    pub file_path: Seq<char>,
    pub file_size: int,
    pub file_type: Seq<char>,
    pub status: AttachmentStatus,
    pub created_at: int,
}

/// One row of the attachment ledger.
#[derive(Clone, Debug)]
pub struct Attachment {
    pub id: String,
    pub notebook_id: String,
    pub file_name: String,
    pub file_path: String,
    pub file_size: i64,
    pub file_type: String,
    pub status: AttachmentStatus,
    pub created_at: i64,
}

impl View for Attachment {
    type V = AttachmentView;

    open spec fn view(&self) -> AttachmentView {
        AttachmentView {
            id: self.id@,
            notebook_id: self.notebook_id@,
            file_name: self.file_name@,
            file_path: self.file_path@,
            file_size: self.file_size as int,
            file_type: self.file_type@,
            status: self.status,
            created_at: self.created_at as int,
        }
    }
}

/// The views of a sequence of attachments.
pub open spec fn attachments_view(s: Seq<Attachment>) -> Seq<AttachmentView> {
    s.map_values(|a: Attachment| a@)
}

/// An exact copy of a ledger row.
pub(crate) fn clone_attachment(a: &Attachment) -> (out: Attachment)
    ensures
        out@ == a@,
{
    Attachment {
        id: a.id.clone(),
        notebook_id: a.notebook_id.clone(),
        file_name: a.file_name.clone(),
        file_path: a.file_path.clone(),
        file_size: a.file_size,
        file_type: a.file_type.clone(),
        status: a.status,
        created_at: a.created_at,
    }
}

/// Orders attachments newest first (descending creation time), keeping
/// exactly the given rows: how a notebook's attachments are listed.
pub fn sort_attachments_desc(rows: Vec<Attachment>) -> (out: Vec<Attachment>)
    ensures
        out@.len() == rows@.len(),
        forall|a: int, b: int|
            0 <= a <= b < out@.len() ==> #[trigger] attachments_view(out@)[a].created_at
                >= #[trigger] attachments_view(out@)[b].created_at,
        attachments_view(out@).to_multiset() == attachments_view(rows@).to_multiset(),
{
    let ghost orig = attachments_view(rows@);
    let mut remaining = rows;
    let mut out: Vec<Attachment> = Vec::new();
    proof {
        assert(attachments_view(out@) =~= Seq::<AttachmentView>::empty());
        assert(attachments_view(out@).to_multiset().add(attachments_view(remaining@).to_multiset())
            =~= orig.to_multiset());
    }
    while remaining.len() > 0
        invariant
            out@.len() + remaining@.len() == orig.len(),
            attachments_view(out@).to_multiset().add(attachments_view(remaining@).to_multiset())
                == orig.to_multiset(),
            forall|a: int, b: int|
                0 <= a <= b < out@.len() ==> #[trigger] attachments_view(out@)[a].created_at
                    >= #[trigger] attachments_view(out@)[b].created_at,
            forall|a: int, u: int|
                0 <= a < out@.len() && 0 <= u < remaining@.len() ==> #[trigger] attachments_view(
                    out@,
                )[a].created_at >= #[trigger] attachments_view(remaining@)[u].created_at,
        decreases remaining@.len(),
    {
        let mut p: usize = 0;
        let mut u: usize = 1;
        while u < remaining.len()
            invariant
                0 <= p < remaining@.len(),
                1 <= u <= remaining@.len(),
                forall|w: int|
                    0 <= w < u ==> (#[trigger] attachments_view(remaining@)[w]).created_at
                        <= attachments_view(remaining@)[p as int].created_at,
            decreases remaining@.len() - u,
        {
            if remaining[u].created_at > remaining[p].created_at {
                p = u;
            }
            u += 1;
        }
        let ghost out_before = attachments_view(out@);
        let ghost rem_before = attachments_view(remaining@);
        let a = remaining.remove(p);
        out.push(a);
        proof {
            let key = |x: AttachmentView| -x.created_at;
            assert(a@ == rem_before[p as int]);
            assert(attachments_view(out@) =~= out_before.push(rem_before[p as int]));
            assert(attachments_view(remaining@) =~= rem_before.remove(p as int));
            crate::seqs::lemma_select_min_step(out_before, rem_before, p as int, key);
            assert forall|x: int, y: int|
                0 <= x <= y < out@.len() implies #[trigger] attachments_view(out@)[x].created_at
                >= #[trigger] attachments_view(out@)[y].created_at by {
                assert(key(out_before.push(rem_before[p as int])[x]) <= key(
                    out_before.push(rem_before[p as int])[y],
                ));
            }
            assert forall|x: int, u2: int|
                0 <= x < out@.len() && 0 <= u2 < remaining@.len() implies #[trigger] attachments_view(
                out@,
            )[x].created_at >= #[trigger] attachments_view(remaining@)[u2].created_at by {
                assert(key(out_before.push(rem_before[p as int])[x]) <= key(
                    rem_before.remove(p as int)[u2],
                ));
            }
        }
    }
    proof {
        assert(attachments_view(remaining@) =~= Seq::<AttachmentView>::empty());
    }
    out
}

/// Builds the ledger row for a fresh upload: a new random id, the metadata
/// the caller extracted from the file, status `Pending`, and the current
/// time. The row is built before any background work starts, so the UI sees
/// the attachment immediately in `Pending`.
pub fn new_attachment(
    notebook_id: String,
    file_name: String,
    file_path: String,
    file_size: i64,
    file_type: String,
) -> (a: Attachment)
    ensures
        a@.id.len() == 36,
        a@.notebook_id == notebook_id@,
        a@.file_name == file_name@,
        a@.file_path == file_path@,
        a@.file_size == file_size as int,
        a@.file_type == file_type@,
        a@.status is Pending,
{
    Attachment {
        id: fresh_id(),
        notebook_id,
        file_name,
        file_path,
        file_size,
        file_type,
        status: AttachmentStatus::Pending,
        created_at: now_timestamp(),
    }
}

} // verus!
