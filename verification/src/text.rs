//! The chunker: splits raw extracted text into retrieval-sized units.
//!
//! A chunk boundary is a paragraph boundary — two consecutive newline
//! characters — and spans that are empty or whitespace-only are discarded.
//! Source order is preserved, there is no size cap, no overlap and no
//! re-merging: a single long paragraph stays one chunk.

use vstd::prelude::*;
use vstd::string::StrSliceExecFns;

use crate::seqs::lemma_filter_push;

verus! {

/// A paragraph separator starts at position `i` of `s`: two consecutive
/// newline characters.
pub open spec fn is_sep_at(s: Seq<char>, i: int) -> bool {
    &&& 0 <= i
    &&& i + 1 < s.len()
    &&& s[i] == '\n'
    &&& s[i + 1] == '\n'
}

/// Position of the leftmost paragraph separator of `s`, or `-1` if there is
/// none.
pub open spec fn find_sep(s: Seq<char>) -> int
    decreases s.len(),
{
    if s.len() < 2 {
        -1
    } else if s[0] == '\n' && s[1] == '\n' {
        0
    } else {
        let r = find_sep(s.drop_first());
        if r < 0 {
            -1
        } else {
            r + 1
        }
    }
}

/// The spans of `s` between paragraph separators, in source order, blank
/// spans included. Separators are consumed left to right, so a run of
/// newlines yields the empty spans the raw split produces; they are dropped
/// only by the blank filter below.
pub open spec fn split_paragraphs(s: Seq<char>) -> Seq<Seq<char>>
    decreases s.len(),
{
    let i = find_sep(s);
    if 0 <= i && i + 1 < s.len() {
        seq![s.take(i)] + split_paragraphs(s.skip(i + 2))
    } else {
        seq![s]
    }
}

/// The characters a span may consist of and still be discarded: the
/// characters with the Unicode `White_Space` property.
pub open spec fn is_space_char(c: char) -> bool {
    ||| ('\u{9}' <= c && c <= '\u{d}')
    ||| c == ' '
    ||| c == '\u{85}'
    ||| c == '\u{a0}'
    ||| c == '\u{1680}'
    ||| ('\u{2000}' <= c && c <= '\u{200a}')
    ||| c == '\u{2028}'
    ||| c == '\u{2029}'
    ||| c == '\u{202f}'
    ||| c == '\u{205f}'
    ||| c == '\u{3000}'
}

/// A span is blank when every character in it is whitespace; the empty span
/// is blank.
pub open spec fn is_blank(p: Seq<char>) -> bool {
    forall|i: int| 0 <= i < p.len() ==> is_space_char(#[trigger] p[i])
}

/// What `chunk` returns: the non-blank spans of `s`, in source order.
pub open spec fn chunks_spec(s: Seq<char>) -> Seq<Seq<char>> {
    split_paragraphs(s).filter(|p: Seq<char>| !is_blank(p))
}

/// Every chunk is a non-empty span: a span that is empty or whitespace-only
/// never survives the blank filter.
pub proof fn lemma_chunks_non_blank(s: Seq<char>)
    ensures
        forall|i: int|
            0 <= i < chunks_spec(s).len() ==> !is_blank(#[trigger] chunks_spec(s)[i])
                && chunks_spec(s)[i].len() > 0,
{
    broadcast use vstd::seq_lib::group_filter_ensures;

    assert forall|i: int|
        0 <= i < chunks_spec(s).len() implies !is_blank(#[trigger] chunks_spec(s)[i])
        && chunks_spec(s)[i].len() > 0 by {
        let pred = |p: Seq<char>| !is_blank(p);
        assert(pred(split_paragraphs(s).filter(pred)[i]));
    }
}

/// `find_sep` finds a separator exactly when one exists, and then the
/// leftmost one.
proof fn lemma_find_sep_spec(s: Seq<char>)
    ensures
        find_sep(s) == -1 ==> forall|j: int| !is_sep_at(s, j),
        find_sep(s) >= 0 ==> is_sep_at(s, find_sep(s)) && forall|j: int|
            0 <= j < find_sep(s) ==> !is_sep_at(s, j),
    decreases s.len(),
{
    if s.len() < 2 {
        assert(forall|j: int| !is_sep_at(s, j));
    } else if s[0] == '\n' && s[1] == '\n' {
    } else {
        let t = s.drop_first();
        lemma_find_sep_spec(t);
        assert forall|j: int| is_sep_at(t, j) == is_sep_at(s, j + 1) by {
            if 0 <= j && j + 1 < t.len() {
                assert(t[j] == s[j + 1]);
                assert(t[j + 1] == s[j + 2]);
            }
        }
        if find_sep(t) == -1 {
            assert forall|j: int| !is_sep_at(s, j) by {
                if j == 0 {
                } else {
                    assert(!is_sep_at(t, j - 1));
                }
            }
        } else {
            let r = find_sep(t);
            assert(is_sep_at(s, r + 1));
            assert forall|j: int| 0 <= j < r + 1 implies !is_sep_at(s, j) by {
                if j > 0 {
                    assert(!is_sep_at(t, j - 1));
                }
            }
        }
    }
}

/// If a separator stands at `i` and none stands before it, the leftmost
/// separator is at `i`.
proof fn lemma_find_sep_at(s: Seq<char>, i: int)
    requires
        is_sep_at(s, i),
        forall|j: int| 0 <= j < i ==> !is_sep_at(s, j),
    ensures
        find_sep(s) == i,
{
    lemma_find_sep_spec(s);
}

/// If `s` has no separator at all, `find_sep` reports none.
proof fn lemma_find_sep_none(s: Seq<char>)
    requires
        forall|j: int| !is_sep_at(s, j),
    ensures
        find_sep(s) == -1,
{
    lemma_find_sep_spec(s);
}

/// Collects the characters of `s` into a vector, so spans can be addressed
/// by character position.
pub(crate) fn chars_vec(s: &str) -> (v: Vec<char>)
    ensures
        v@ == s@,
{
    let mut v: Vec<char> = Vec::new();
    for c in it: s.chars()
        invariant
            v@ =~= it.seq().subrange(0, it.index() as int),
    {
        v.push(c);
    }
    proof {
        assert(v@ =~= s@);
    }
    v
}

/// Whether the characters of `cs` from `from` (inclusive) to `to`
/// (exclusive) are all whitespace.
fn span_is_blank(cs: &Vec<char>, from: usize, to: usize) -> (r: bool)
    requires
        from <= to <= cs@.len(),
    ensures
        r == is_blank(cs@.subrange(from as int, to as int)),
{
    let ghost p = cs@.subrange(from as int, to as int);
    let mut j = from;
    while j < to
        invariant
            from <= j <= to <= cs@.len(),
            p == cs@.subrange(from as int, to as int),
            forall|m: int| 0 <= m < j - from ==> is_space_char(#[trigger] p[m]),
        decreases to - j,
    {
        let c = cs[j];
        let sp = ('\u{9}' <= c && c <= '\u{d}') || c == ' ' || c == '\u{85}' || c == '\u{a0}'
            || c == '\u{1680}' || ('\u{2000}' <= c && c <= '\u{200a}') || c == '\u{2028}'
            || c == '\u{2029}' || c == '\u{202f}' || c == '\u{205f}' || c == '\u{3000}';
        if !sp {
            assert(p[j - from] == cs@[j as int]);
            return false;
        }
        assert(p[j - from] == cs@[j as int]);
        j += 1;
    }
    true
}

/// Character-for-character string equality, decided on the character
/// sequences themselves.
pub fn str_eq(a: &str, b: &str) -> (r: bool)
    ensures
        r <==> a@ == b@,
{
    let av = chars_vec(a);
    let bv = chars_vec(b);
    if av.len() != bv.len() {
        return false;
    }
    let mut i: usize = 0;
    while i < av.len()
        invariant
            av@ == a@,
            bv@ == b@,
            av@.len() == bv@.len(),
            0 <= i <= av@.len(),
            forall|j: int| 0 <= j < i ==> av@[j] == bv@[j],
        decreases av@.len() - i,
    {
        if av[i] != bv[i] {
            return false;
        }
        i += 1;
    }
    proof {
        assert(a@ =~= b@);
    }
    true
}

/// Splits raw text on paragraph boundaries (two consecutive newlines) and
/// discards spans that are empty or whitespace-only. Source order is
/// preserved and one chunk never spans a paragraph boundary.
pub fn chunk(text: &str) -> (chunks: Vec<String>)
    ensures
        chunks@.map_values(|c: String| c@) == chunks_spec(text@),
{
    let cs = chars_vec(text);
    let ghost pred = |p: Seq<char>| !is_blank(p);
    let mut out: Vec<String> = Vec::new();
    let ghost mut spans_done: Seq<Seq<char>> = Seq::empty();
    let mut start: usize = 0;
    let mut i: usize = 0;
    proof {
        assert(cs@.skip(0) =~= cs@);
        assert(out@.map_values(|c: String| c@) =~= spans_done.filter(pred));
    }
    while i < cs.len()
        invariant
            cs@ == text@,
            start <= i <= cs@.len(),
            forall|j: int| start <= j < i ==> !is_sep_at(cs@, j),
            split_paragraphs(cs@) == spans_done + split_paragraphs(cs@.skip(start as int)),
            out@.map_values(|c: String| c@) == spans_done.filter(pred),
            pred == (|p: Seq<char>| !is_blank(p)),
        decreases cs@.len() - i,
    {
        if i + 1 < cs.len() && cs[i] == '\n' && cs[i + 1] == '\n' {
            let ghost span = cs@.subrange(start as int, i as int);
            let ghost suf = cs@.skip(start as int);
            proof {
                assert(is_sep_at(suf, i - start)) by {
                    assert(suf[i - start] == cs@[i as int]);
                    assert(suf[i - start + 1] == cs@[i as int + 1]);
                }
                assert forall|j: int| 0 <= j < i - start implies !is_sep_at(suf, j) by {
                    assert(!is_sep_at(cs@, start + j));
                    if 0 <= j && j + 1 < suf.len() {
                        assert(suf[j] == cs@[start + j]);
                        assert(suf[j + 1] == cs@[start + j + 1]);
                    }
                }
                lemma_find_sep_at(suf, i - start);
                assert(suf.take(i - start) =~= span);
                assert(suf.skip(i - start + 2) =~= cs@.skip(i as int + 2));
                assert(split_paragraphs(suf) == seq![span] + split_paragraphs(
                    cs@.skip(i as int + 2),
                ));
                assert(spans_done + split_paragraphs(suf) =~= spans_done.push(span)
                    + split_paragraphs(cs@.skip(i as int + 2)));
                lemma_filter_push(spans_done, pred, span);
            }
            let blank = span_is_blank(&cs, start, i);
            if !blank {
                let piece = text.substring_char(start, i);
                out.push(piece.to_owned());
                proof {
                    assert(out@.map_values(|c: String| c@) =~= spans_done.filter(pred).push(
                        span,
                    ));
                }
            }
            proof {
                spans_done = spans_done.push(span);
            }
            i += 2;
            start = i;
        } else {
            i += 1;
        }
    }
    let ghost span = cs@.subrange(start as int, cs@.len() as int);
    let ghost suf = cs@.skip(start as int);
    proof {
        assert(suf =~= span);
        assert forall|j: int| !is_sep_at(suf, j) by {
            if 0 <= j && j + 1 < suf.len() {
                assert(!is_sep_at(cs@, start + j));
                assert(suf[j] == cs@[start + j]);
                assert(suf[j + 1] == cs@[start + j + 1]);
            }
        }
        lemma_find_sep_none(suf);
        assert(split_paragraphs(suf) == seq![suf]);
        assert(spans_done + seq![suf] =~= spans_done.push(span));
        lemma_filter_push(spans_done, pred, span);
    }
    let blank = span_is_blank(&cs, start, cs.len());
    if !blank {
        let piece = text.substring_char(start, cs.len());
        out.push(piece.to_owned());
        proof {
            assert(out@.map_values(|c: String| c@) =~= spans_done.filter(pred).push(span));
        }
    }
    out
}

} // verus!
