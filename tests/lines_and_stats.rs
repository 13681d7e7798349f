use filesearch::classify::{decode_file, detect_encoding, is_binary};
use filesearch::line_index::LineIndex;
use filesearch::pattern::{pattern_text, split_pieces, SearchOptions};
use filesearch::stats::FileStats;

fn linear_line(bytes: &[u8], o: usize) -> usize {
    bytes[..o].iter().filter(|&&b| b == b'\n').count()
}

#[test]
fn binary_search_agrees_with_linear_count() {
    let text = b"alpha\nbeta\n\ngamma\r\ndelta\n";
    let index = LineIndex::new(text);
    assert_eq!(index.newline_total(), 5);
    for o in 0..=text.len() {
        assert_eq!(index.line_of(o), linear_line(text, o));
    }
    assert_eq!(index.line_of(5), 0);
    assert_eq!(index.line_of(6), 1);
}

#[test]
fn line_bounds_and_neighbours() {
    let text = b"ab\ncd\r\nef\n";
    let index = LineIndex::new(text);
    assert_eq!(index.line_bounds(0), (0, 2));
    assert_eq!(index.line_bounds(1), (3, 6));
    assert_eq!(index.trimmed_bounds(text, 1), (3, 5));
    assert_eq!(index.line_bounds(3), (10, 10));
    assert!(index.has_next(0));
    assert!(index.has_next(1));
    assert!(!index.has_next(2));
}

#[test]
fn pieces_alternate_and_cover() {
    let spans = vec![(2usize, 4usize), (4, 5), (7, 9)];
    let pieces = split_pieces(10, &spans);
    assert_eq!(
        pieces,
        vec![(0, 2, false), (2, 4, true), (4, 5, true), (5, 7, false), (7, 9, true), (9, 10, false)]
    );
    assert_eq!(split_pieces(3, &Vec::new()), vec![(0, 3, false)]);
    assert_eq!(split_pieces(0, &Vec::new()), Vec::<(usize, usize, bool)>::new());
}

#[test]
fn pattern_text_by_mode() {
    let o = |q: &str, w: bool, r: bool| SearchOptions {
        query: q.to_string(),
        case_sensitive: false,
        whole_word: w,
        use_regex: r,
    };
    assert_eq!(pattern_text(&o("a.b", false, false)), "a\\.b");
    assert_eq!(pattern_text(&o("a.b", true, false)), "\\ba\\.b\\b");
    assert_eq!(pattern_text(&o("a.b", true, true)), "a.b");
}

#[test]
fn text_lines_are_newlines_plus_one() {
    let s = FileStats::collect("/t/a.txt".to_string(), "a.txt".to_string(), 12, Some(b"one\ntwo\nthr"));
    assert_eq!(s.lines, 3);
    assert_eq!(s.size, 12);
    assert_eq!(s.path, "/t/a.txt");
    assert_eq!(s.name, "a.txt");
    let t = FileStats::collect("p".to_string(), "n".to_string(), 4, Some(b"one\n"));
    assert_eq!(t.lines, 2);
    let u = FileStats::collect("p".to_string(), "n".to_string(), 3, Some(b"abc"));
    assert_eq!(u.lines, 1);
}

#[test]
fn empty_file_stats() {
    let s = FileStats::collect("e".to_string(), "e".to_string(), 0, Some(b""));
    assert_eq!((s.size, s.lines, s.encoding.as_str()), (0, 0, "Empty"));
    let t = FileStats::collect("e".to_string(), "e".to_string(), 0, None);
    assert_eq!((t.size, t.lines, t.encoding.as_str()), (0, 0, "Empty"));
}

#[test]
fn binary_file_stats() {
    let data = b"text\n\x00\nmore\n";
    let s = FileStats::collect("b".to_string(), "b".to_string(), data.len() as u64, Some(data));
    assert_eq!(s.encoding, "Binary");
    assert_eq!(s.lines, 0);
    assert_eq!(s.size, data.len() as u64);
    let pdf = b"%PDF-1.4\nstuff\n";
    let p = FileStats::collect("p".to_string(), "p".to_string(), pdf.len() as u64, Some(pdf));
    assert_eq!((p.lines, p.encoding.as_str()), (0, "Binary"));
}

#[test]
fn unreadable_file_stats() {
    let s = FileStats::open_failed("/no".to_string(), "no".to_string());
    assert_eq!((s.size, s.lines, s.encoding.as_str()), (0, 0, "Error"));
    let t = FileStats::collect("/d".to_string(), "d".to_string(), 10, None);
    assert_eq!((t.size, t.lines, t.encoding.as_str()), (10, 0, "AccessDenied"));
}

#[test]
fn classification_uses_a_bounded_prefix() {
    assert!(is_binary(b"ab\x00cd"));
    assert!(!is_binary(b"plain text\n"));
    assert!(!is_binary(b""));
    assert!(!is_binary(b"\xFF\xFEa\x00b\x00"));
    let mut late = vec![b'a'; 2000];
    late[1500] = 0;
    assert!(!is_binary(&late));
}

#[test]
fn utf8_text_is_detected() {
    let text = "héllo wörld, ça va très bien\n".as_bytes();
    assert_eq!(detect_encoding(text), "UTF-8");
    let s = FileStats::collect("u".to_string(), "u".to_string(), text.len() as u64, Some(text));
    assert_eq!(s.encoding, "UTF-8");
    assert_eq!(s.lines, 2);
}

#[test]
fn decode_whole_file() {
    let (content, enc) = decode_file("grüße\n".as_bytes());
    assert_eq!(content, "grüße\n");
    assert_eq!(enc, "UTF-8");
    let (bin, name) = decode_file(b"\x00\x01\x02");
    assert_eq!(bin, "");
    assert_eq!(name, "Binary");
}
