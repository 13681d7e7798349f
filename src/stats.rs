//! Per-file statistics: size, line count and encoding, or a sentinel encoding
//! name when the file is empty, unreadable or binary.

use vstd::prelude::*;
use rayon::iter::IntoParallelRefIterator;
use rayon::iter::ParallelIterator;
use crate::classify::{detect_encoding, guessed_encoding, head, is_binary, looks_binary};
use crate::line_index::{is_newline, newline_count};

verus! {

/// Statistics of one file.
pub struct FileStats {
    pub size: u64,
    pub lines: usize,
    pub encoding: String,
    pub path: String,
    pub name: String,
}

/// Whether `b` is the newline byte.
pub fn is_newline_byte(b: u8) -> (r: bool)
    ensures
        r == is_newline(b),
{
    b == 10u8
}

/// Relies on rayon's parallel `filter(..).count()` over a slice: each byte is
/// looked at once, so the count is the number of newline bytes.
#[verifier::external_body]
fn count_newlines(data: &[u8]) -> (r: usize)
    ensures
        r == newline_count(data@),
{
    data.par_iter().filter(|b| is_newline_byte(**b)).count()
}

/// The line count reported for the readable, non-empty contents `s`.
pub open spec fn stats_lines(s: Seq<u8>) -> nat {
    if looks_binary(s) {
        0
    } else {
        newline_count(s) + 1
    }
}

/// The encoding name reported for the readable, non-empty contents `s`.
pub open spec fn stats_encoding(s: Seq<u8>) -> Seq<char> {
    if looks_binary(s) {
        "Binary"@
    } else {
        guessed_encoding(head(s))
    }
}

impl FileStats {
    /// The record of a file that could not be opened.
    pub fn open_failed(path: String, name: String) -> (r: FileStats)
        ensures
            r.size == 0 && r.lines == 0 && r.encoding@ == "Error"@,
            r.path == path && r.name == name,
    {
        proof {
            reveal_strlit("Error");
        }
        FileStats { size: 0, lines: 0, encoding: "Error".to_owned(), path, name }
    }

    /// The record of an opened file of `size` bytes whose contents are
    /// `contents`, or `None` when they could not be mapped.
    pub fn collect(path: String, name: String, size: u64, contents: Option<&[u8]>) -> (r: FileStats)
        requires
            contents matches Some(b) ==> b@.len() < usize::MAX,
        ensures
            r.path == path && r.name == name,
            size == 0 ==> r.size == 0 && r.lines == 0 && r.encoding@ == "Empty"@,
            size > 0 && contents is None ==> r.size == size && r.lines == 0 && r.encoding@
                == "AccessDenied"@,
            size > 0 ==> (contents matches Some(b) ==> r.size == size && r.lines == stats_lines(
                b@,
            ) && r.encoding@ == stats_encoding(b@)),
    {
        proof {
            reveal_strlit("Empty");
            reveal_strlit("AccessDenied");
            reveal_strlit("Binary");
        }
        if size == 0 {
            return FileStats { size: 0, lines: 0, encoding: "Empty".to_owned(), path, name };
        }
        match contents {
            None => FileStats { size, lines: 0, encoding: "AccessDenied".to_owned(), path, name },
            Some(b) => {
                if is_binary(b) {
                    FileStats { size, lines: 0, encoding: "Binary".to_owned(), path, name }
                } else {
                    let n = count_newlines(b);
                    proof {
                        crate::line_index::lemma_offsets(b@);
                    }
                    let encoding = detect_encoding(b);
                    FileStats { size, lines: n + 1, encoding, path, name }
                }
            },
        }
    }
}

} // verus!
