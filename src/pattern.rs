//! Search options, their compiled pattern, and the split of a line into
//! matched and unmatched pieces.

use vstd::prelude::*;
use vstd::string::StringExecFns;

verus! {

#[verifier::external_type_specification]
#[verifier::external_body]
pub struct ExBytesRegex(regex::bytes::Regex);

#[verifier::external_type_specification]
#[verifier::external_body]
pub struct ExRegexError(regex::Error);

/// What the user asked to search for.
pub struct SearchOptions {
    pub query: String,
    pub case_sensitive: bool,
    pub whole_word: bool,
    pub use_regex: bool,
}

/// Why a search could not start.
pub enum SearchError {
    /// The pattern did not compile; `detail` is the regex engine's description.
    InvalidPattern { pattern: String, detail: String },
}

impl SearchError {
    /// The pattern that was refused.
    pub fn pattern(&self) -> (r: &String)
        ensures
            r == (match self {
                SearchError::InvalidPattern { pattern, .. } => pattern,
            }),
    {
        match self {
            SearchError::InvalidPattern { pattern, .. } => pattern,
        }
    }

    /// A message for the user: a fixed lead-in followed by the engine's description.
    pub fn message(&self) -> (r: String)
        ensures
            r@ == "invalid regular expression: "@ + (match self {
                SearchError::InvalidPattern { detail, .. } => detail@,
            }),
    {
        proof {
            reveal_strlit("invalid regular expression: ");
        }
        match self {
            SearchError::InvalidPattern { detail, .. } => {
                "invalid regular expression: ".to_owned().concat(detail.as_str())
            },
        }
    }
}

/// A pattern compiled from search options, matching on bytes. Its fields are
/// private and only `build_regex` fills them, so `regex` is always the one built
/// from `source` with `case_insensitive`.
pub struct CompiledPattern {
    regex: regex::bytes::Regex,
    source: String,
    case_insensitive: bool,
}

/// The pattern text that regex::escape makes of a literal query.
pub uninterp spec fn escaped(query: Seq<char>) -> Seq<char>;

/// Whether regex's bytes::RegexBuilder, with Unicode on, builds this pattern.
pub uninterp spec fn regex_builds(pattern: Seq<char>, case_insensitive: bool) -> bool;

/// The spans that regex's find_iter yields for this pattern over `hay`.
pub uninterp spec fn regex_spans(pattern: Seq<char>, case_insensitive: bool, hay: Seq<u8>) -> Seq<
    (usize, usize),
>;

/// Spans that lie in `[0, len)`, each ending no later than the next one starts.
pub open spec fn spans_ordered(sp: Seq<(usize, usize)>, len: int) -> bool {
    &&& forall|i: int| 0 <= i < sp.len() ==> (#[trigger] sp[i]).0 <= sp[i].1 <= len
    &&& forall|i: int| 0 <= i < sp.len() - 1 ==> (#[trigger] sp[i]).1 <= sp[i + 1].0
}

/// The regex pattern that the options stand for: the query itself in regex mode;
/// otherwise the escaped query, between word boundaries in whole-word mode.
pub open spec fn pattern_source(query: Seq<char>, whole_word: bool, use_regex: bool) -> Seq<char> {
    if use_regex {
        query
    } else if whole_word {
        seq!['\\', 'b'] + escaped(query) + seq!['\\', 'b']
    } else {
        escaped(query)
    }
}

/// Relies on regex::escape: every meta character of the query is escaped.
#[verifier::external_body]
fn escape(query: &str) -> (r: String)
    ensures
        r@ == escaped(query@),
{
    regex::escape(query)
}

/// Relies on regex::bytes::RegexBuilder (`case_insensitive`, `unicode(true)`, `build`):
/// the pattern kept beside the regex is the one it was built from.
#[verifier::external_body]
fn build_regex(pattern: &String, case_insensitive: bool) -> (r: Result<CompiledPattern, regex::Error>)
    ensures
        r is Ok <==> regex_builds(pattern@, case_insensitive),
        r matches Ok(p) ==> p.source() == pattern@ && p.case_insensitive() == case_insensitive,
{
    let regex = regex::bytes::RegexBuilder::new(pattern).case_insensitive(case_insensitive).unicode(
        true,
    ).build()?;
    Ok(CompiledPattern { regex, source: pattern.clone(), case_insensitive })
}

/// Relies on the `Display` text of regex::Error.
#[verifier::external_body]
fn describe(e: &regex::Error) -> (r: String) {
    e.to_string()
}

/// Relies on regex::bytes::Regex::find_iter: successive non-overlapping matches,
/// in order, each within the haystack.
#[verifier::external_body]
fn find_spans(p: &CompiledPattern, hay: &[u8]) -> (r: Vec<(usize, usize)>)
    ensures
        r@ == regex_spans(p.source(), p.case_insensitive(), hay@),
        spans_ordered(r@, hay@.len() as int),
{
    p.regex.find_iter(hay).map(|m| (m.start(), m.end())).collect()
}

/// The regex pattern text for `options`.
pub fn pattern_text(options: &SearchOptions) -> (r: String)
    ensures
        r@ == pattern_source(options.query@, options.whole_word, options.use_regex),
{
    if options.use_regex {
        options.query.clone()
    } else {
        let body = escape(options.query.as_str());
        if options.whole_word {
            proof {
                reveal_strlit("\\b");
            }
            let r = "\\b".to_owned().concat(body.as_str()).concat("\\b");
            assert(r@ =~= pattern_source(options.query@, options.whole_word, options.use_regex));
            r
        } else {
            body
        }
    }
}

impl CompiledPattern {
    /// The pattern text this was compiled from.
    pub closed spec fn source(&self) -> Seq<char> {
        self.source@
    }

    /// Whether case is ignored.
    pub closed spec fn case_insensitive(&self) -> bool {
        self.case_insensitive
    }

    /// The spans of this pattern's matches in `hay`.
    pub open spec fn spans(&self, hay: Seq<u8>) -> Seq<(usize, usize)> {
        regex_spans(self.source(), self.case_insensitive(), hay)
    }

    /// Compiles `options`; case is ignored unless `case_sensitive` is set. Fails,
    /// naming the pattern, exactly when the regex engine refuses it.
    pub fn compile(options: &SearchOptions) -> (r: Result<CompiledPattern, SearchError>)
        ensures
            r is Ok <==> regex_builds(
                pattern_source(options.query@, options.whole_word, options.use_regex),
                !options.case_sensitive,
            ),
            r matches Ok(p) ==> p.source() == pattern_source(
                options.query@,
                options.whole_word,
                options.use_regex,
            ) && p.case_insensitive() == !options.case_sensitive,
            r matches Err(SearchError::InvalidPattern { pattern, .. }) ==> pattern@
                == pattern_source(options.query@, options.whole_word, options.use_regex),
    {
        let text = pattern_text(options);
        match build_regex(&text, !options.case_sensitive) {
            Ok(p) => Ok(p),
            Err(e) => {
                let detail = describe(&e);
                Err(SearchError::InvalidPattern { pattern: text, detail })
            },
        }
    }

    /// The spans of this pattern's matches in `hay`, ordered and in range.
    pub fn find(&self, hay: &[u8]) -> (r: Vec<(usize, usize)>)
        ensures
            r@ == self.spans(hay@),
            spans_ordered(r@, hay@.len() as int),
    {
        find_spans(self, hay)
    }
}

/// The pieces of `[from, len)` that the spans `sp` cut out: unmatched gaps
/// (never empty) alternating with the spans themselves, marked matched.
pub open spec fn pieces_from(len: int, sp: Seq<(usize, usize)>, from: int) -> Seq<
    (usize, usize, bool),
>
    decreases sp.len(),
{
    if sp.len() == 0 {
        if from < len {
            seq![(from as usize, len as usize, false)]
        } else {
            Seq::empty()
        }
    } else {
        let gap = if sp[0].0 > from {
            seq![(from as usize, sp[0].0, false)]
        } else {
            Seq::empty()
        };
        gap + seq![(sp[0].0, sp[0].1, true)] + pieces_from(len, sp.drop_first(), sp[0].1 as int)
    }
}

/// The bytes of `line` that the pieces cover, in order.
pub open spec fn joined(line: Seq<u8>, ps: Seq<(usize, usize, bool)>) -> Seq<u8>
    decreases ps.len(),
{
    if ps.len() == 0 {
        Seq::empty()
    } else {
        line.subrange(ps[0].0 as int, ps[0].1 as int) + joined(line, ps.drop_first())
    }
}

proof fn lemma_joined_concat(line: Seq<u8>, a: Seq<(usize, usize, bool)>, b: Seq<(usize, usize, bool)>)
    ensures
        joined(line, a + b) == joined(line, a) + joined(line, b),
    decreases a.len(),
{
    if a.len() == 0 {
        assert(a + b =~= b);
    } else {
        assert((a + b).drop_first() =~= a.drop_first() + b);
        lemma_joined_concat(line, a.drop_first(), b);
        assert(joined(line, a + b) =~= joined(line, a) + joined(line, b));
    }
}

/// Joining the pieces of `[from, len)` gives back `line[from..len]`, and some
/// piece is matched when any span was given.
pub proof fn lemma_pieces_cover(line: Seq<u8>, sp: Seq<(usize, usize)>, from: int)
    requires
        line.len() <= usize::MAX,
        spans_ordered(sp, line.len() as int),
        0 <= from <= line.len(),
        sp.len() > 0 ==> from <= sp[0].0,
    ensures
        joined(line, pieces_from(line.len() as int, sp, from)) == line.subrange(
            from,
            line.len() as int,
        ),
        forall|i: int|
            0 <= i < pieces_from(line.len() as int, sp, from).len() ==> (#[trigger] pieces_from(
                line.len() as int,
                sp,
                from,
            )[i]).0 <= pieces_from(line.len() as int, sp, from)[i].1 <= line.len(),
        sp.len() > 0 ==> exists|i: int|
            0 <= i < pieces_from(line.len() as int, sp, from).len() && (#[trigger] pieces_from(
                line.len() as int,
                sp,
                from,
            )[i]).2,
    decreases sp.len(),
{
    let len = line.len() as int;
    if sp.len() == 0 {
        if from < len {
            let ps = pieces_from(len, sp, from);
            assert(ps.drop_first() =~= Seq::<(usize, usize, bool)>::empty());
            assert(joined(line, ps.drop_first()) == Seq::<u8>::empty());
            assert(joined(line, pieces_from(len, sp, from)) =~= line.subrange(from, len));
        } else {
            assert(line.subrange(from, len) =~= Seq::<u8>::empty());
        }
    } else {
        let s0 = sp[0].0 as int;
        let e0 = sp[0].1 as int;
        let gap: Seq<(usize, usize, bool)> = if s0 > from {
            seq![(from as usize, sp[0].0, false)]
        } else {
            Seq::empty()
        };
        let m: Seq<(usize, usize, bool)> = seq![(sp[0].0, sp[0].1, true)];
        let rest = sp.drop_first();
        assert(spans_ordered(rest, len)) by {
            assert forall|i: int| 0 <= i < rest.len() - 1 implies rest[i].1 <= rest[i + 1].0 by {
                assert(rest[i] == sp[i + 1] && rest[i + 1] == sp[i + 2]);
            }
        }
        if rest.len() > 0 {
            assert(rest[0] == sp[1]);
        }
        lemma_pieces_cover(line, rest, e0);
        let tail = pieces_from(len, rest, e0);
        assert(pieces_from(len, sp, from) == gap + m + tail);
        lemma_joined_concat(line, gap + m, tail);
        lemma_joined_concat(line, gap, m);
        assert(joined(line, m) =~= line.subrange(s0, e0)) by {
            assert(m.drop_first() =~= Seq::<(usize, usize, bool)>::empty());
            assert(joined(line, m.drop_first()) == Seq::<u8>::empty());
        }
        assert(joined(line, gap) =~= line.subrange(from, s0)) by {
            if s0 > from {
                assert(gap.drop_first() =~= Seq::<(usize, usize, bool)>::empty());
                assert(joined(line, gap.drop_first()) == Seq::<u8>::empty());
            } else {
                assert(line.subrange(from, s0) =~= Seq::<u8>::empty());
            }
        }
        assert(joined(line, pieces_from(len, sp, from)) =~= line.subrange(from, len));
        assert((gap + m + tail)[gap.len() as int] == (sp[0].0, sp[0].1, true));
        let ps = gap + m + tail;
        assert forall|i: int| 0 <= i < ps.len() implies (#[trigger] ps[i]).0 <= ps[i].1 <= len by {
            if i >= gap.len() + 1 {
                assert(ps[i] == tail[i - gap.len() - 1]);
            }
        }
    }
}

/// Splits `[0, len)` by the ordered spans `sp` into alternating unmatched and
/// matched pieces.
pub fn split_pieces(len: usize, sp: &Vec<(usize, usize)>) -> (r: Vec<(usize, usize, bool)>)
    requires
        spans_ordered(sp@, len as int),
    ensures
        r@ == pieces_from(len as int, sp@, 0),
{
    let mut out: Vec<(usize, usize, bool)> = Vec::new();
    let mut last: usize = 0;
    let mut i: usize = 0;
    assert(sp@.subrange(0, sp@.len() as int) =~= sp@);
    assert(out@ + pieces_from(len as int, sp@, 0) =~= pieces_from(len as int, sp@, 0));
    while i < sp.len()
        invariant
            i <= sp@.len(),
            spans_ordered(sp@, len as int),
            last <= len,
            i == 0 ==> last == 0,
            i > 0 ==> last == sp@[i - 1].1,
            out@ + pieces_from(len as int, sp@.subrange(i as int, sp@.len() as int), last as int)
                == pieces_from(len as int, sp@, 0),
        decreases sp@.len() - i,
    {
        let (s, e) = sp[i];
        let ghost rest = sp@.subrange(i as int, sp@.len() as int);
        assert(rest[0] == sp@[i as int]);
        assert(rest.drop_first() =~= sp@.subrange(i + 1, sp@.len() as int));
        let ghost old_out = out@;
        if s > last {
            out.push((last, s, false));
        }
        out.push((s, e, true));
        assert(out@ =~= old_out + (if s > last {
            seq![(last, s, false)]
        } else {
            Seq::<(usize, usize, bool)>::empty()
        }) + seq![(s, e, true)]);
        last = e;
        i = i + 1;
    }
    if last < len {
        out.push((last, len, false));
    }
    assert(out@ =~= pieces_from(len as int, sp@, 0));
    out
}

} // verus!
