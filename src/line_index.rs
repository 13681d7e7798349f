//! Newline index of a byte buffer: byte offset to line number and line spans.

use vstd::prelude::*;

verus! {

/// Whether a byte is the newline byte.
pub open spec fn is_newline(b: u8) -> bool {
    b == 10u8
}

/// Number of newline bytes among the first `o` bytes of `s`.
pub open spec fn newlines_before(s: Seq<u8>, o: int) -> nat
    decreases o,
{
    if o <= 0 {
        0
    } else {
        newlines_before(s, o - 1) + if is_newline(s[o - 1]) { 1nat } else { 0nat }
    }
}

/// Number of newline bytes in the whole of `s`.
pub open spec fn newline_count(s: Seq<u8>) -> nat {
    newlines_before(s, s.len() as int)
}

/// Offsets of the newline bytes among the first `o` bytes of `s`, ascending.
pub open spec fn newline_offsets_upto(s: Seq<u8>, o: int) -> Seq<usize>
    decreases o,
{
    if o <= 0 {
        Seq::empty()
    } else if is_newline(s[o - 1]) {
        newline_offsets_upto(s, o - 1).push((o - 1) as usize)
    } else {
        newline_offsets_upto(s, o - 1)
    }
}

/// Offsets of all newline bytes of `s`, ascending.
pub open spec fn newline_offsets(s: Seq<u8>) -> Seq<usize> {
    newline_offsets_upto(s, s.len() as int)
}

/// Byte offset at which line `k` (0-based) of `s` starts.
pub open spec fn line_start(s: Seq<u8>, k: int) -> int {
    if k <= 0 {
        0
    } else {
        newline_offsets(s)[k - 1] + 1
    }
}

/// Byte offset at which line `k` (0-based) of `s` ends: its newline, or the end of `s`.
pub open spec fn line_end(s: Seq<u8>, k: int) -> int {
    if k >= newline_offsets(s).len() {
        s.len() as int
    } else {
        newline_offsets(s)[k] as int
    }
}

/// `s` without one trailing carriage return.
pub open spec fn trim_cr(s: Seq<u8>) -> Seq<u8> {
    if s.len() > 0 && s.last() == 13u8 {
        s.drop_last()
    } else {
        s
    }
}

/// The bytes of line `k` of `s`, without its newline and without a trailing carriage return.
pub open spec fn line_text(s: Seq<u8>, k: int) -> Seq<u8> {
    trim_cr(s.subrange(line_start(s, k), line_end(s, k)))
}

/// Whether another line follows line `k` of `s`: a newline ends line `k` and at
/// least one byte comes after that newline.
pub open spec fn has_line_after(s: Seq<u8>, k: int) -> bool {
    0 <= k < newline_offsets(s).len() && newline_offsets(s)[k] + 1 < s.len()
}

/// The offsets found among the first `o` bytes are in range, point at newlines,
/// ascend strictly, and there are as many as newline bytes.
pub proof fn lemma_offsets_upto(s: Seq<u8>, o: int)
    requires
        0 <= o <= s.len() <= usize::MAX,
    ensures
        newline_offsets_upto(s, o).len() == newlines_before(s, o),
        newlines_before(s, o) <= o,
        forall|k: int|
            0 <= k < newline_offsets_upto(s, o).len() ==> newline_offsets_upto(s, o)[k] < o
                && is_newline(s[newline_offsets_upto(s, o)[k] as int]),
        forall|k: int, j: int|
            0 <= k < j < newline_offsets_upto(s, o).len() ==> newline_offsets_upto(s, o)[k]
                < newline_offsets_upto(s, o)[j],
    decreases o,
{
    if o > 0 {
        lemma_offsets_upto(s, o - 1);
        let p = newline_offsets_upto(s, o - 1);
        let q = newline_offsets_upto(s, o);
        assert forall|k: int| 0 <= k < q.len() implies q[k] < o && is_newline(s[q[k] as int]) by {
            if k < p.len() {
                assert(q[k] == p[k]);
            }
        }
        assert forall|k: int, j: int| 0 <= k < j < q.len() implies q[k] < q[j] by {
            if j < p.len() {
                assert(q[k] == p[k] && q[j] == p[j]);
            } else {
                assert(q[k] == p[k]);
            }
        }
    }
}

/// The offsets below `o` are a prefix of the offsets below `n`, and every later
/// offset is at least `o`.
pub proof fn lemma_offsets_prefix(s: Seq<u8>, o: int, n: int)
    requires
        0 <= o <= n <= s.len() <= usize::MAX,
    ensures
        newlines_before(s, o) <= newline_offsets_upto(s, n).len(),
        forall|k: int|
            0 <= k < newlines_before(s, o) ==> newline_offsets_upto(s, n)[k]
                == newline_offsets_upto(s, o)[k],
        forall|k: int|
            newlines_before(s, o) <= k < newline_offsets_upto(s, n).len()
                ==> newline_offsets_upto(s, n)[k] >= o,
    decreases n,
{
    lemma_offsets_upto(s, o);
    lemma_offsets_upto(s, n);
    if n > o {
        lemma_offsets_prefix(s, o, n - 1);
        lemma_offsets_upto(s, n - 1);
        let p = newline_offsets_upto(s, n - 1);
        let q = newline_offsets_upto(s, n);
        assert forall|k: int| newlines_before(s, o) <= k < q.len() implies q[k] >= o by {
            if k < p.len() {
                assert(q[k] == p[k]);
            }
        }
    }
}

/// Facts on the whole-buffer offsets.
pub proof fn lemma_offsets(s: Seq<u8>)
    requires
        s.len() <= usize::MAX,
    ensures
        newline_offsets(s).len() == newline_count(s),
        newline_count(s) <= s.len(),
        forall|k: int|
            0 <= k < newline_offsets(s).len() ==> newline_offsets(s)[k] < s.len()
                && is_newline(s[newline_offsets(s)[k] as int]),
        forall|k: int, j: int|
            0 <= k < j < newline_offsets(s).len() ==> newline_offsets(s)[k]
                < newline_offsets(s)[j],
{
    lemma_offsets_upto(s, s.len() as int);
}

/// The sorted newline offsets of one buffer, for line lookups by binary search.
pub struct LineIndex {
    newlines: Vec<usize>,
    len: usize,
    text: Ghost<Seq<u8>>,
}

impl LineIndex {
    /// The buffer this index was built from.
    pub closed spec fn source(&self) -> Seq<u8> {
        self.text@
    }

    pub closed spec fn wf(&self) -> bool {
        &&& self.newlines@ == newline_offsets(self.text@)
        &&& self.len == self.text@.len()
    }

    /// Records the offset of every newline byte of `bytes`.
    pub fn new(bytes: &[u8]) -> (r: LineIndex)
        ensures
            r.wf(),
            r.source() == bytes@,
    {
        let mut newlines: Vec<usize> = Vec::new();
        let mut i: usize = 0;
        while i < bytes.len()
            invariant
                i <= bytes@.len(),
                newlines@ == newline_offsets_upto(bytes@, i as int),
            decreases bytes@.len() - i,
        {
            if bytes[i] == 10u8 {
                newlines.push(i);
            }
            i = i + 1;
        }
        LineIndex { newlines, len: bytes.len(), text: Ghost(bytes@) }
    }

    /// Number of newline bytes in the buffer.
    pub fn newline_total(&self) -> (r: usize)
        requires
            self.wf(),
        ensures
            r == newline_count(self.source()),
    {
        proof {
            lemma_offsets(self.text@);
        }
        self.newlines.len()
    }

    /// The 0-based line that holds byte offset `o`, found by binary search; a
    /// newline byte belongs to the line it ends. This equals the count of newline
    /// bytes before `o`.
    pub fn line_of(&self, o: usize) -> (r: usize)
        requires
            self.wf(),
            o <= self.source().len(),
        ensures
            r == newlines_before(self.source(), o as int),
            r <= newline_count(self.source()),
    {
        let ghost s = self.text@;
        proof {
            lemma_offsets(s);
            lemma_offsets_prefix(s, o as int, s.len() as int);
        }
        let mut lo: usize = 0;
        let mut hi: usize = self.newlines.len();
        while lo < hi
            invariant
                self.wf(),
                s == self.text@,
                lo <= hi <= self.newlines@.len(),
                forall|k: int, j: int|
                    0 <= k < j < self.newlines@.len() ==> self.newlines@[k] < self.newlines@[j],
                forall|k: int| 0 <= k < lo ==> self.newlines@[k] < o,
                forall|k: int| hi <= k < self.newlines@.len() ==> self.newlines@[k] >= o,
            decreases hi - lo,
        {
            let mid = lo + (hi - lo) / 2;
            if self.newlines[mid] < o {
                lo = mid + 1;
            } else {
                hi = mid;
            }
        }
        let ghost nb = newlines_before(s, o as int) as int;
        assert(lo == nb) by {
            if lo < nb {
                lemma_offsets_upto(s, o as int);
                assert(self.newlines@[lo as int] == newline_offsets_upto(s, o as int)[lo as int]);
            }
            if lo > nb {
                assert(self.newlines@[nb] >= o);
            }
        }
        lo
    }

    /// Byte span `[start, end)` of line `k`, without its newline.
    pub fn line_bounds(&self, k: usize) -> (r: (usize, usize))
        requires
            self.wf(),
            k <= newline_count(self.source()),
        ensures
            r.0 == line_start(self.source(), k as int),
            r.1 == line_end(self.source(), k as int),
            r.0 <= r.1 <= self.source().len(),
    {
        proof {
            lemma_offsets(self.text@);
        }
        let start: usize = if k == 0 { 0 } else { self.newlines[k - 1] + 1 };
        let end: usize = if k >= self.newlines.len() { self.len } else { self.newlines[k] };
        proof {
            if k > 0 && k < self.newlines@.len() {
                assert(self.newlines@[k - 1] < self.newlines@[k as int]);
            }
        }
        (start, end)
    }

    /// Byte span of line `k` with one trailing carriage return left out.
    pub fn trimmed_bounds(&self, bytes: &[u8], k: usize) -> (r: (usize, usize))
        requires
            self.wf(),
            bytes@ == self.source(),
            k <= newline_count(self.source()),
        ensures
            r.0 <= r.1 <= bytes@.len(),
            bytes@.subrange(r.0 as int, r.1 as int) == line_text(bytes@, k as int),
            r.0 == line_start(bytes@, k as int),
    {
        let (start, end) = self.line_bounds(k);
        if end > start && bytes[end - 1] == 13u8 {
            let ghost l = bytes@.subrange(start as int, end as int);
            assert(l.drop_last() =~= bytes@.subrange(start as int, end - 1));
            (start, end - 1)
        } else {
            (start, end)
        }
    }

    /// Whether another line follows line `k`.
    pub fn has_next(&self, k: usize) -> (r: bool)
        requires
            self.wf(),
        ensures
            r == has_line_after(self.source(), k as int),
    {
        proof {
            lemma_offsets(self.text@);
        }
        k < self.newlines.len() && self.newlines[k] + 1 < self.len
    }
}

} // verus!
