//! The content extractor's decisions: dispatch on the file extension,
//! failing closed on unsupported types, and the chunking of whatever text
//! the reader produced.
//!
//! The extension check is a fast, synchronous pre-check: an unsupported
//! extension is rejected before any ledger row is created or any embedding
//! work starts. The readers themselves — the verbatim file read and the PDF
//! text extraction — run outside the library (the PDF extractor can panic
//! on malformed bytes, which no verified function may do) and hand in plain
//! text, or the fact that extraction failed.

use vstd::prelude::*;
use vstd::string::StrSliceExecFns;

use crate::errors::PipelineError;
use crate::text::chunk;
use crate::text::chunks_spec;

verus! {

/// How a file's content is turned into text: which reader the caller must
/// run.
#[derive(Clone, Copy, Debug, PartialEq, Eq, Structural)]
pub enum FileKind {
    /// PDF text extraction.
    Pdf,
    /// A verbatim read of the file as text (`md`, `txt`).
    PlainText,
}

/// Position of the dot that starts the extension: the last `.` of the final
/// path segment, found scanning from the end and stopping at a `/`; `-1`
/// when the segment has no dot.
pub open spec fn last_dot_scan(s: Seq<char>) -> int
    decreases s.len(),
{
    if s.len() == 0 {
        -1
    } else if s.last() == '/' {
        -1
    } else if s.last() == '.' {
        s.len() - 1
    } else {
        last_dot_scan(s.drop_last())
    }
}

/// The extension of a path: what follows the final dot of the last path
/// segment. A segment without a dot, or whose only dot leads it (a hidden
/// file), has no extension.
pub open spec fn extension_spec(s: Seq<char>) -> Seq<char> {
    let d = last_dot_scan(s);
    if d <= 0 {
        Seq::empty()
    } else if s[d - 1] == '/' {
        Seq::empty()
    } else {
        s.subrange(d + 1, s.len() as int)
    }
}

/// Case-insensitive match of `e` against a pattern of lowercase ASCII
/// letters.
pub open spec fn lower_matches(e: Seq<char>, pat: Seq<char>) -> bool {
    &&& e.len() == pat.len()
    &&& forall|i: int|
        0 <= i < e.len() ==> ((#[trigger] e[i]) == pat[i] || (e[i] as int) + 32 == pat[i] as int)
}

/// The dispatch table: `pdf` goes to PDF extraction, `md` and `txt` to a
/// verbatim text read, anything else is unsupported. The comparison ignores
/// ASCII case.
pub open spec fn kind_of_extension(e: Seq<char>) -> Option<FileKind> {
    if lower_matches(e, "pdf"@) {
        Some(FileKind::Pdf)
    } else if lower_matches(e, "md"@) || lower_matches(e, "txt"@) {
        Some(FileKind::PlainText)
    } else {
        None
    }
}

/// Whether files with extension `e` can be ingested at all.
pub open spec fn supported_extension(e: Seq<char>) -> bool {
    kind_of_extension(e) is Some
}

/// The extension of `file_name`, exactly as written (no case folding).
pub fn extension_of(file_name: &str) -> (ext: String)
    ensures
        ext@ == extension_spec(file_name@),
{
    let cs = crate::text::chars_vec(file_name);
    let n = cs.len();
    let mut i: usize = n;
    let mut found = false;
    let mut dot: usize = 0;
    proof {
        assert(cs@.take(n as int) =~= cs@);
    }
    while i > 0
        invariant_except_break
            !found,
        invariant
            0 <= i <= n,
            n == cs@.len(),
            cs@ == file_name@,
            !found ==> last_dot_scan(cs@) == last_dot_scan(cs@.take(i as int)),
            found ==> dot < n && last_dot_scan(cs@) == dot as int,
        ensures
            found ==> dot < n && last_dot_scan(cs@) == dot as int,
            !found ==> last_dot_scan(cs@) == -1,
        decreases i,
    {
        let c = cs[i - 1];
        proof {
            assert(cs@.take(i as int).last() == cs@[i - 1]);
            assert(cs@.take(i as int).drop_last() =~= cs@.take(i - 1));
        }
        if c == '/' {
            proof {
                assert(last_dot_scan(cs@.take(i as int)) == -1);
            }
            break;
        }
        if c == '.' {
            proof {
                assert(last_dot_scan(cs@.take(i as int)) == i - 1);
            }
            found = true;
            dot = i - 1;
            break;
        }
        i -= 1;
    }
    proof {
        if !found {
            assert(cs@.take(0).len() == 0);
        }
    }
    if !found || dot == 0 {
        return String::new();
    }
    if cs[dot - 1] == '/' {
        return String::new();
    }
    let piece = file_name.substring_char(dot + 1, n);
    piece.to_owned()
}

/// Decides how a file with the given extension is extracted; an unsupported
/// extension fails immediately, carrying the extension for the user-visible
/// reason.
pub fn classify_extension(ext: &str) -> (r: Result<FileKind, PipelineError>)
    ensures
        match r {
            Ok(k) => kind_of_extension(ext@) == Some(k),
            Err(e) => !supported_extension(ext@) && (e matches PipelineError::UnsupportedFormat(x)
                && x@ == ext@),
        },
{
    proof {
        reveal_strlit("pdf");
        reveal_strlit("md");
        reveal_strlit("txt");
    }
    let cs = crate::text::chars_vec(ext);
    if cs.len() == 3 {
        let c0 = cs[0];
        let c1 = cs[1];
        let c2 = cs[2];
        if (c0 == 'p' || c0 == 'P') && (c1 == 'd' || c1 == 'D') && (c2 == 'f' || c2 == 'F') {
            return Ok(FileKind::Pdf);
        }
        if (c0 == 't' || c0 == 'T') && (c1 == 'x' || c1 == 'X') && (c2 == 't' || c2 == 'T') {
            return Ok(FileKind::PlainText);
        }
    }
    if cs.len() == 2 {
        let c0 = cs[0];
        let c1 = cs[1];
        if (c0 == 'm' || c0 == 'M') && (c1 == 'd' || c1 == 'D') {
            return Ok(FileKind::PlainText);
        }
    }
    Err(PipelineError::UnsupportedFormat(ext.to_owned()))
}

/// Chunks extracted text for embedding; a document whose text has no
/// non-blank paragraph (for instance a PDF with no extractable text) yields
/// nothing to index and fails the job.
pub fn prepare_chunks(text: &str) -> (r: Result<Vec<String>, PipelineError>)
    ensures
        match r {
            Ok(cs) => chunks_spec(text@).len() > 0 && cs@.map_values(|c: String| c@)
                == chunks_spec(text@),
            Err(e) => chunks_spec(text@).len() == 0 && e is ExtractionFailure,
        },
{
    let cs = chunk(text);
    if cs.len() == 0 {
        Err(PipelineError::ExtractionFailure)
    } else {
        Ok(cs)
    }
}

} // verus!
