//! The retrieval-augmented chat engine's verified core: chat history
//! entries, the grounding prompt built from retrieved chunks, and the fixed
//! refusal for a question with no grounding context.
//!
//! The external language model itself is a black box; what is verified is
//! what the engine hands it and what it persists.

use vstd::prelude::*;
use vstd::string::StrSliceExecFns;
use vstd::string::StringExecFns;

use crate::ids::fresh_id;
use crate::ids::now_timestamp;
use crate::index::VectorSearchResult;
use crate::index::VectorSearchResultView;
use crate::index::results_view;

verus! {

broadcast use vstd::seq_lib::group_to_multiset_ensures;

/// Who wrote a chat entry.
#[derive(Clone, Copy, Debug, PartialEq, Eq, Structural)]
pub enum Role {
    User,
    Assistant,
    System,
    Tool,
}

/// The label each role carries in the chat history store.
pub open spec fn role_label_spec(r: Role) -> Seq<char> {
    match r {
        Role::User => "user"@,
        Role::Assistant => "assistant"@,
        Role::System => "system"@,
        Role::Tool => "tool"@,
    }
}

/// The role a stored label is read back as: each of the four role labels
/// maps back to its own role, so the store round-trip is lossless; an
/// unknown label falls back to the user role.
pub open spec fn role_of_label_spec(l: Seq<char>) -> Role {
    if l == "assistant"@ {
        Role::Assistant
    } else if l == "system"@ {
        Role::System
    } else if l == "tool"@ {
        Role::Tool
    } else {
        Role::User
    }
}

impl Role {
    /// The text label stored for this role.
    pub fn label(&self) -> (r: String)
        ensures
            r@ == role_label_spec(*self),
    {
        match self {
            Role::User => "user".to_owned(),
            Role::Assistant => "assistant".to_owned(),
            Role::System => "system".to_owned(),
            Role::Tool => "tool".to_owned(),
        }
    }

    /// Reads a stored label back; anything unknown falls back to the user
    /// role, and every label a role writes comes back as that role.
    pub fn from_label(l: &str) -> (r: Role)
        ensures
            r == role_of_label_spec(l@),
    {
        if crate::text::str_eq(l, "assistant") {
            Role::Assistant
        } else if crate::text::str_eq(l, "system") {
            Role::System
        } else if crate::text::str_eq(l, "tool") {
            Role::Tool
        } else {
            Role::User
        }
    }
}

/// The mathematical value of one chat history entry.
pub ghost struct ChatEntryView {
    pub id: Seq<char>,
    pub notebook_id: Seq<char>,
    pub role: Role,
    pub message: Seq<char>,
    pub timestamp: int,
}

/// One entry of a notebook's chat history. Append-only: entries are never
/// mutated or deleted individually.
#[derive(Clone, Debug)]
pub struct ChatEntry {
    pub id: String,
    pub notebook_id: String,
    pub role: Role,
    pub message: String,
    pub timestamp: i64,
}

impl View for ChatEntry {
    type V = ChatEntryView;

    open spec fn view(&self) -> ChatEntryView {
        ChatEntryView {
            id: self.id@,
            notebook_id: self.notebook_id@,
            role: self.role,
            message: self.message@,
            timestamp: self.timestamp as int,
        }
    }
}

/// The views of a sequence of chat entries.
pub open spec fn entries_view(s: Seq<ChatEntry>) -> Seq<ChatEntryView> {
    s.map_values(|e: ChatEntry| e@)
}

/// Builds a fresh history entry: a new random id, the caller's notebook,
/// role and message, stamped with the current time.
pub fn new_chat_entry(notebook_id: String, role: Role, message: String) -> (e: ChatEntry)
    ensures
        e@.id.len() == 36,
        e@.notebook_id == notebook_id@,
        e@.role == role,
        e@.message == message@,
{
    ChatEntry { id: fresh_id(), notebook_id, role, message, timestamp: now_timestamp() }
}

/// An exact copy of a history entry.
pub(crate) fn clone_entry(e: &ChatEntry) -> (out: ChatEntry)
    ensures
        out@ == e@,
{
    ChatEntry {
        id: e.id.clone(),
        notebook_id: e.notebook_id.clone(),
        role: e.role,
        message: e.message.clone(),
        timestamp: e.timestamp,
    }
}

/// Orders chat entries by timestamp ascending — oldest first, the display
/// order of a history — keeping exactly the given entries.
pub fn sort_entries_asc(entries: Vec<ChatEntry>) -> (out: Vec<ChatEntry>)
    ensures
        out@.len() == entries@.len(),
        forall|a: int, b: int|
            0 <= a <= b < out@.len() ==> #[trigger] entries_view(out@)[a].timestamp
                <= #[trigger] entries_view(out@)[b].timestamp,
        entries_view(out@).to_multiset() == entries_view(entries@).to_multiset(),
{
    let ghost orig = entries_view(entries@);
    let mut remaining = entries;
    let mut out: Vec<ChatEntry> = Vec::new();
    proof {
        assert(entries_view(out@) =~= Seq::<ChatEntryView>::empty());
        assert(entries_view(out@).to_multiset().add(entries_view(remaining@).to_multiset())
            =~= orig.to_multiset());
    }
    while remaining.len() > 0
        invariant
            out@.len() + remaining@.len() == orig.len(),
            entries_view(out@).to_multiset().add(entries_view(remaining@).to_multiset())
                == orig.to_multiset(),
            forall|a: int, b: int|
                0 <= a <= b < out@.len() ==> #[trigger] entries_view(out@)[a].timestamp
                    <= #[trigger] entries_view(out@)[b].timestamp,
            forall|a: int, u: int|
                0 <= a < out@.len() && 0 <= u < remaining@.len() ==> #[trigger] entries_view(
                    out@,
                )[a].timestamp <= #[trigger] entries_view(remaining@)[u].timestamp,
        decreases remaining@.len(),
    {
        let mut p: usize = 0;
        let mut u: usize = 1;
        while u < remaining.len()
            invariant
                0 <= p < remaining@.len(),
                1 <= u <= remaining@.len(),
                forall|w: int|
                    0 <= w < u ==> (#[trigger] entries_view(remaining@)[w]).timestamp
                        >= entries_view(remaining@)[p as int].timestamp,
            decreases remaining@.len() - u,
        {
            if remaining[u].timestamp < remaining[p].timestamp {
                p = u;
            }
            u += 1;
        }
        let ghost out_before = entries_view(out@);
        let ghost rem_before = entries_view(remaining@);
        let e = remaining.remove(p);
        out.push(e);
        proof {
            let key = |x: ChatEntryView| x.timestamp;
            assert(e@ == rem_before[p as int]);
            assert(entries_view(out@) =~= out_before.push(rem_before[p as int]));
            assert(entries_view(remaining@) =~= rem_before.remove(p as int));
            crate::seqs::lemma_select_min_step(out_before, rem_before, p as int, key);
            assert forall|a: int, b: int|
                0 <= a <= b < out@.len() implies #[trigger] entries_view(out@)[a].timestamp
                <= #[trigger] entries_view(out@)[b].timestamp by {
                assert(key(out_before.push(rem_before[p as int])[a]) <= key(
                    out_before.push(rem_before[p as int])[b],
                ));
            }
            assert forall|a: int, u2: int|
                0 <= a < out@.len() && 0 <= u2 < remaining@.len() implies #[trigger] entries_view(
                out@,
            )[a].timestamp <= #[trigger] entries_view(remaining@)[u2].timestamp by {
                assert(key(out_before.push(rem_before[p as int])[a]) <= key(
                    rem_before.remove(p as int)[u2],
                ));
            }
        }
    }
    proof {
        assert(entries_view(remaining@) =~= Seq::<ChatEntryView>::empty());
    }
    out
}

/// One retrieved chunk's block in the grounding prompt: its source path and
/// text, delimited and attributed.
pub open spec fn chunk_block_spec(r: VectorSearchResultView) -> Seq<char> {
    "----\nFILE_PATH: "@ + r.file_path + "\nCONTENT: "@ + r.text + "\n\n"@
}

/// The concatenated blocks of all retrieved chunks, in retrieval order.
pub open spec fn context_blocks_spec(rs: Seq<VectorSearchResultView>) -> Seq<char>
    decreases rs.len(),
{
    if rs.len() == 0 {
        Seq::empty()
    } else {
        context_blocks_spec(rs.drop_last()) + chunk_block_spec(rs.last())
    }
}

/// The grounding prompt: the literal question, then every retrieved chunk
/// with its provenance.
pub open spec fn prompt_spec(message: Seq<char>, rs: Seq<VectorSearchResultView>) -> Seq<char> {
    "Question: "@ + message + "\n\nContext:\n\n"@ + context_blocks_spec(rs)
}

/// Assembles the grounding prompt for the language model.
pub fn build_prompt(message: &str, results: &Vec<VectorSearchResult>) -> (p: String)
    ensures
        p@ == prompt_spec(message@, results_view(results@)),
{
    let mut p = "Question: ".to_owned();
    p.append(message);
    p.append("\n\nContext:\n\n");
    let mut i: usize = 0;
    proof {
        assert(results_view(results@).take(0) =~= Seq::<VectorSearchResultView>::empty());
    }
    while i < results.len()
        invariant
            0 <= i <= results@.len(),
            p@ == "Question: "@ + message@ + "\n\nContext:\n\n"@ + context_blocks_spec(
                results_view(results@).take(i as int),
            ),
        decreases results@.len() - i,
    {
        p.append("----\nFILE_PATH: ");
        p.append(results[i].file_path.as_str());
        p.append("\nCONTENT: ");
        p.append(results[i].text.as_str());
        p.append("\n\n");
        proof {
            let rv = results_view(results@);
            assert(rv.take(i + 1).drop_last() =~= rv.take(i as int));
            assert(rv.take(i + 1).last() == rv[i as int]);
        }
        i += 1;
    }
    proof {
        assert(results_view(results@).take(results@.len() as int) =~= results_view(results@));
    }
    p
}

/// The fixed sentence returned verbatim when the grounding context cannot
/// answer the question.
pub open spec fn refusal_spec() -> Seq<char> {
    "I don't have enough information in the uploaded files to answer that."@
}

/// The refusal sentence, exactly as the system instruction demands it.
pub fn refusal_message() -> (r: String)
    ensures
        r@ == refusal_spec(),
{
    "I don't have enough information in the uploaded files to answer that.".to_owned()
}

/// What a chat turn does after retrieval: with no grounding context at all
/// the engine refuses outright — zero retrieved chunks can answer nothing —
/// and otherwise it asks the language model with the grounding prompt.
pub enum ChatTurnPlan {
    Refuse,
    Ask(String),
}

/// Decides a chat turn from the retrieved chunks: refuse when the scoped
/// search returned nothing, otherwise ask with the assembled prompt.
pub fn plan_chat_turn(message: &str, results: &Vec<VectorSearchResult>) -> (plan: ChatTurnPlan)
    ensures
        results@.len() == 0 <==> plan is Refuse,
        plan matches ChatTurnPlan::Ask(p) ==> p@ == prompt_spec(message@, results_view(results@)),
{
    if results.len() == 0 {
        ChatTurnPlan::Refuse
    } else {
        ChatTurnPlan::Ask(build_prompt(message, results))
    }
}

/// The fixed system instruction the language model is primed with: answer
/// only from the supplied context, refuse with the fixed sentence when the
/// context is insufficient, and answer in the question's language — the
/// language rule outranking every stylistic preference.
pub fn system_instruction() -> (r: String)
    ensures
        r@ == system_instruction_spec(),
{
    "You are a helpful assistant.\n\n                    IMPORTANT RULES:\n                    1. You MUST answer using ONLY the provided context.\n                    2. If the context does not contain the answer, respond EXACTLY with:\n                       'I don't have enough information in the uploaded files to answer that.'\n                    3. Do NOT make up information.\n                    4. You MUST answer in the SAME language as the user's question.\n                    5. The language rule has priority over all stylistic preferences.".to_owned()
}

/// The system instruction's text.
pub open spec fn system_instruction_spec() -> Seq<char> {
    "You are a helpful assistant.\n\n                    IMPORTANT RULES:\n                    1. You MUST answer using ONLY the provided context.\n                    2. If the context does not contain the answer, respond EXACTLY with:\n                       'I don't have enough information in the uploaded files to answer that.'\n                    3. Do NOT make up information.\n                    4. You MUST answer in the SAME language as the user's question.\n                    5. The language rule has priority over all stylistic preferences.".view()
}

} // verus!
