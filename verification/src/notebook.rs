//! Notebooks: the user-visible scope grouping attachments and chat history,
//! and the unit of search isolation.

use vstd::prelude::*;

use crate::ids::fresh_id;
use crate::ids::now_timestamp;

verus! {

/// The mathematical value of a notebook row.
pub ghost struct NotebookView {
    pub id: Seq<char>,
    pub title: Seq<char>,
    pub created_at: int,
    pub last_accessed: int,
}

/// One notebook.
#[derive(Clone, Debug)]
pub struct Notebook {
    pub id: String,
    pub title: String,
    pub created_at: i64,
    pub last_accessed: i64,
}

impl View for Notebook {
    type V = NotebookView;

    open spec fn view(&self) -> NotebookView {
        NotebookView {
            id: self.id@,
            title: self.title@,
            created_at: self.created_at as int,
            last_accessed: self.last_accessed as int,
        }
    }
}

/// The views of a sequence of notebooks.
pub open spec fn notebooks_view(s: Seq<Notebook>) -> Seq<NotebookView> {
    s.map_values(|n: Notebook| n@)
}

/// Builds a fresh notebook from the title the UI provides: a new random id,
/// created and last-accessed both set to now.
pub fn new_notebook(title: String) -> (n: Notebook)
    ensures
        n@.id.len() == 36,
        n@.title == title@,
        n@.created_at == n@.last_accessed,
{
    let now = now_timestamp();
    Notebook { id: fresh_id(), title, created_at: now, last_accessed: now }
}

/// An exact copy of a notebook row.
pub(crate) fn clone_notebook(n: &Notebook) -> (out: Notebook)
    ensures
        out@ == n@,
{
    Notebook {
        id: n.id.clone(),
        title: n.title.clone(),
        created_at: n.created_at,
        last_accessed: n.last_accessed,
    }
}

} // verus!
