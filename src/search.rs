//! Per-file search: one match item per line that the pattern hits, with the
//! line split into highlighted pieces and its neighbouring lines as context.

use vstd::prelude::*;
use crate::classify::{is_binary, looks_binary};
use crate::line_index::{
    has_line_after, line_text, newline_count, newlines_before, LineIndex,
};
use crate::pattern::{joined, lemma_pieces_cover, pieces_from, split_pieces, CompiledPattern};

verus! {

/// Most match items one file contributes to one search.
pub const MAX_ITEMS: usize = 500;

/// A run of one line's text, matched or not.
pub struct Segment {
    pub text: String,
    pub is_match: bool,
}

/// The lines around a matched line, when there are any.
pub struct MatchContext {
    pub before: Option<String>,
    pub after: Option<String>,
}

/// One matched line: its 1-based number, its pieces, and its context.
pub struct MatchItem {
    pub line_number: usize,
    pub segments: Vec<Segment>,
    pub context: MatchContext,
}

/// The matches of one file.
pub struct SearchResult {
    pub path: String,
    pub name: String,
    pub matches: Vec<MatchItem>,
}

/// Text that String::from_utf8_lossy makes of some bytes.
pub uninterp spec fn lossy_text(b: Seq<u8>) -> Seq<char>;

/// Relies on String::from_utf8_lossy: invalid sequences become U+FFFD.
#[verifier::external_body]
fn lossy(b: &[u8]) -> (r: String)
    ensures
        r@ == lossy_text(b@),
{
    String::from_utf8_lossy(b).into_owned()
}

/// The view of an optional string.
pub open spec fn opt_text(o: Option<String>) -> Option<Seq<char>> {
    match o {
        Some(t) => Some(t@),
        None => None,
    }
}

/// The pieces that line `k` of `s` is split into by the pattern.
pub open spec fn line_pieces(p: CompiledPattern, s: Seq<u8>, k: int) -> Seq<(usize, usize, bool)> {
    pieces_from(line_text(s, k).len() as int, p.spans(line_text(s, k)), 0)
}

/// `item` is the match item of line `k` of `s`.
pub open spec fn describes(item: MatchItem, p: CompiledPattern, s: Seq<u8>, k: int) -> bool {
    let line = line_text(s, k);
    let ps = line_pieces(p, s, k);
    &&& item.line_number == k + 1
    &&& item.segments@.len() == ps.len()
    &&& forall|i: int|
        0 <= i < ps.len() ==> (#[trigger] item.segments@[i]).is_match == ps[i].2
            && item.segments@[i].text@ == lossy_text(line.subrange(ps[i].0 as int, ps[i].1 as int))
    &&& opt_text(item.context.before) == if k > 0 {
        Some(lossy_text(line_text(s, k - 1)))
    } else {
        None
    }
    &&& opt_text(item.context.after) == if has_line_after(s, k) {
        Some(lossy_text(line_text(s, k + 1)))
    } else {
        None
    }
}

/// The pieces of line `k` join back into the line's bytes, and one of them is
/// matched whenever the pattern matches within the line.
pub open spec fn pieces_rebuild(p: CompiledPattern, s: Seq<u8>, k: int) -> bool {
    &&& joined(line_text(s, k), line_pieces(p, s, k)) == line_text(s, k)
    &&& p.spans(line_text(s, k)).len() > 0 ==> exists|i: int|
        0 <= i < line_pieces(p, s, k).len() && (#[trigger] line_pieces(p, s, k)[i]).2
}

/// The lines (0-based) that the match spans `sp` start on, each kept once, in
/// order of the spans, and no more than `MAX_ITEMS` of them.
pub open spec fn hit_lines(s: Seq<u8>, sp: Seq<(usize, usize)>) -> Seq<int>
    decreases sp.len(),
{
    if sp.len() == 0 {
        Seq::empty()
    } else {
        let prev = hit_lines(s, sp.drop_last());
        let k = newlines_before(s, sp.last().0 as int) as int;
        if prev.len() >= MAX_ITEMS || (prev.len() > 0 && prev.last() == k) {
            prev
        } else {
            prev.push(k)
        }
    }
}

/// The lines of `s` that a search reports: none for an empty or binary buffer.
pub open spec fn search_lines(p: CompiledPattern, s: Seq<u8>) -> Seq<int> {
    if s.len() == 0 || looks_binary(s) {
        Seq::empty()
    } else {
        hit_lines(s, p.spans(s))
    }
}

/// `items` are exactly the match items that a search of `s` reports.
pub open spec fn reports(items: Seq<MatchItem>, p: CompiledPattern, s: Seq<u8>) -> bool {
    &&& items.len() == search_lines(p, s).len()
    &&& forall|i: int|
        0 <= i < items.len() ==> describes(#[trigger] items[i], p, s, search_lines(p, s)[i])
            && pieces_rebuild(p, s, search_lines(p, s)[i])
}

/// Once `MAX_ITEMS` lines are collected, later spans add none.
proof fn lemma_hit_lines_full(s: Seq<u8>, sp: Seq<(usize, usize)>, i: int, n: int)
    requires
        0 <= i <= n <= sp.len(),
        hit_lines(s, sp.take(i)).len() >= MAX_ITEMS,
    ensures
        hit_lines(s, sp.take(n)) == hit_lines(s, sp.take(i)),
    decreases n - i,
{
    if n > i {
        lemma_hit_lines_full(s, sp, i, n - 1);
        assert(sp.take(n).drop_last() =~= sp.take(n - 1));
    }
}

/// A search reports at most `MAX_ITEMS` lines of a file.
pub proof fn lemma_hit_lines_capped(s: Seq<u8>, sp: Seq<(usize, usize)>)
    ensures
        hit_lines(s, sp).len() <= MAX_ITEMS,
    decreases sp.len(),
{
    if sp.len() > 0 {
        lemma_hit_lines_capped(s, sp.drop_last());
    }
}

proof fn lemma_newlines_before_monotone(s: Seq<u8>, a: int, b: int)
    requires
        0 <= a <= b,
    ensures
        newlines_before(s, a) <= newlines_before(s, b),
    decreases b,
{
    if b > a {
        lemma_newlines_before_monotone(s, a, b - 1);
    }
}

/// For ordered spans, the reported lines ascend strictly, so line numbers within
/// one file's result ascend strictly too.
pub proof fn lemma_hit_lines_ascending(s: Seq<u8>, sp: Seq<(usize, usize)>)
    requires
        crate::pattern::spans_ordered(sp, s.len() as int),
    ensures
        forall|i: int, j: int|
            0 <= i < j < hit_lines(s, sp).len() ==> hit_lines(s, sp)[i] < hit_lines(s, sp)[j],
        hit_lines(s, sp).len() > 0 ==> hit_lines(s, sp).last() <= newlines_before(
            s,
            sp.last().0 as int,
        ),
    decreases sp.len(),
{
    if sp.len() > 0 {
        let rest = sp.drop_last();
        assert(crate::pattern::spans_ordered(rest, s.len() as int)) by {
            assert forall|i: int| 0 <= i < rest.len() - 1 implies (#[trigger] rest[i]).1
                <= rest[i + 1].0 by {
                assert(rest[i] == sp[i] && rest[i + 1] == sp[i + 1]);
            }
            assert forall|i: int| 0 <= i < rest.len() implies (#[trigger] rest[i]).0 <= rest[i].1
                <= s.len() by {
                assert(rest[i] == sp[i]);
            }
        }
        lemma_hit_lines_ascending(s, rest);
        if rest.len() > 0 {
            let a = rest.last().0 as int;
            let b = sp.last().0 as int;
            assert(rest.last() == sp[sp.len() - 2]);
            assert(sp[sp.len() - 2].0 <= sp[sp.len() - 2].1);
            lemma_newlines_before_monotone(s, a, b);
        }
    }
}

/// An empty or binary buffer has no reported lines, whatever the pattern, and
/// its statistics count no lines when it is binary.
pub proof fn lemma_nothing_from_empty_or_binary(p: CompiledPattern, s: Seq<u8>)
    requires
        s.len() == 0 || looks_binary(s),
    ensures
        search_lines(p, s).len() == 0,
        looks_binary(s) ==> crate::stats::stats_lines(s) == 0,
{
}

/// The match item of line `k`.
fn build_item(p: &CompiledPattern, bytes: &[u8], index: &LineIndex, k: usize) -> (r: MatchItem)
    requires
        index.wf(),
        index.source() == bytes@,
        k <= newline_count(bytes@),
        bytes@.len() < usize::MAX,
    ensures
        describes(r, *p, bytes@, k as int),
        pieces_rebuild(*p, bytes@, k as int),
{
    proof {
        crate::line_index::lemma_offsets(bytes@);
    }
    let ghost s = bytes@;
    let (ls, le) = index.trimmed_bounds(bytes, k);
    let line = vstd::slice::slice_subrange(bytes, ls, le);
    let sp = p.find(line);
    let pieces = split_pieces(line.len(), &sp);
    proof {
        lemma_pieces_cover(line@, sp@, 0);
        assert(line@.subrange(0, line@.len() as int) =~= line@);
    }
    let mut segments: Vec<Segment> = Vec::new();
    let mut j: usize = 0;
    while j < pieces.len()
        invariant
            j <= pieces@.len(),
            pieces@ == line_pieces(*p, s, k as int),
            line@ == line_text(s, k as int),
            segments@.len() == j,
            forall|i: int|
                0 <= i < pieces@.len() ==> (#[trigger] pieces@[i]).0 <= pieces@[i].1 <= line@.len(),
            forall|i: int|
                0 <= i < j ==> (#[trigger] segments@[i]).is_match == pieces@[i].2
                    && segments@[i].text@ == lossy_text(
                    line@.subrange(pieces@[i].0 as int, pieces@[i].1 as int),
                ),
        decreases pieces@.len() - j,
    {
        let (a, b, m) = pieces[j];
        assert(pieces@[j as int] == (a, b, m));
        let text = lossy(vstd::slice::slice_subrange(line, a, b));
        segments.push(Segment { text, is_match: m });
        j = j + 1;
    }
    let before = if k > 0 {
        let (bs, be) = index.trimmed_bounds(bytes, k - 1);
        Some(lossy(vstd::slice::slice_subrange(bytes, bs, be)))
    } else {
        None
    };
    let after = if index.has_next(k) {
        let (as_, ae) = index.trimmed_bounds(bytes, k + 1);
        Some(lossy(vstd::slice::slice_subrange(bytes, as_, ae)))
    } else {
        None
    };
    let r = MatchItem { line_number: k + 1, segments, context: MatchContext { before, after } };
    assert(describes(r, *p, s, k as int));
    r
}

/// Searches one file's bytes: nothing for an empty or binary buffer; otherwise one item per
/// line that a match starts on, in order, at most `MAX_ITEMS`.
pub fn search_bytes(p: &CompiledPattern, bytes: &[u8]) -> (r: Vec<MatchItem>)
    requires
        bytes@.len() < usize::MAX,
    ensures
        reports(r@, *p, bytes@),
        r@.len() <= MAX_ITEMS,
        forall|i: int, j: int|
            0 <= i < j < r@.len() ==> r@[i].line_number < r@[j].line_number,
{
    let ghost s = bytes@;
    if bytes.len() == 0 || is_binary(bytes) {
        return Vec::new();
    }
    let index = LineIndex::new(bytes);
    let spans = p.find(bytes);
    let mut items: Vec<MatchItem> = Vec::new();
    let ghost mut lines: Seq<int> = Seq::empty();
    let mut i: usize = 0;
    assert(spans@.take(0) =~= Seq::<(usize, usize)>::empty());
    while i < spans.len() && items.len() < MAX_ITEMS
        invariant
            i <= spans@.len(),
            index.wf(),
            index.source() == s,
            s == bytes@,
            s.len() < usize::MAX,
            spans@ == p.spans(s),
            crate::pattern::spans_ordered(spans@, s.len() as int),
            lines == hit_lines(s, spans@.take(i as int)),
            items@.len() == lines.len(),
            lines.len() <= MAX_ITEMS,
            forall|j: int|
                0 <= j < items@.len() ==> describes(#[trigger] items@[j], *p, s, lines[j])
                    && pieces_rebuild(*p, s, lines[j]),
        decreases spans@.len() - i,
    {
        let (start, _) = spans[i];
        assert(spans@[i as int].0 <= s.len());
        let k = index.line_of(start);
        proof {
            crate::line_index::lemma_offsets(s);
        }
        let seen = items.len() > 0 && items[items.len() - 1].line_number == k + 1;
        assert(spans@.take(i + 1).drop_last() =~= spans@.take(i as int));
        assert(spans@.take(i + 1).last() == spans@[i as int]);
        if !seen {
            let item = build_item(p, bytes, &index, k);
            items.push(item);
            proof {
                lines = lines.push(k as int);
            }
        }
        i = i + 1;
    }
    proof {
        lemma_hit_lines_ascending(s, spans@);
        if i < spans@.len() {
            lemma_hit_lines_full(s, spans@, i as int, spans@.len() as int);
        }
        assert(spans@.take(spans@.len() as int) =~= spans@);
    }
    items
}

/// The search result of one file, when the pattern matches in it.
pub fn search_file(p: &CompiledPattern, path: String, name: String, bytes: &[u8]) -> (r: Option<
    SearchResult,
>)
    requires
        bytes@.len() < usize::MAX,
    ensures
        r is Some <==> search_lines(*p, bytes@).len() > 0,
        r matches Some(res) ==> res.path == path && res.name == name && reports(
            res.matches@,
            *p,
            bytes@,
        ),
{
    let matches = search_bytes(p, bytes);
    if matches.len() > 0 {
        Some(SearchResult { path, name, matches })
    } else {
        None
    }
}

} // verus!
