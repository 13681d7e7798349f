use filesearch::pattern::{CompiledPattern, SearchError, SearchOptions};
use filesearch::search::{search_bytes, search_file, MatchItem, MAX_ITEMS};

fn opts(query: &str, case_sensitive: bool, whole_word: bool, use_regex: bool) -> SearchOptions {
    SearchOptions { query: query.to_string(), case_sensitive, whole_word, use_regex }
}

fn compile(o: &SearchOptions) -> CompiledPattern {
    match CompiledPattern::compile(o) {
        Ok(p) => p,
        Err(_) => panic!("pattern should compile"),
    }
}

fn segs(item: &MatchItem) -> Vec<(String, bool)> {
    item.segments.iter().map(|s| (s.text.clone(), s.is_match)).collect()
}

fn hits(query: &str, case_sensitive: bool, whole_word: bool, text: &str) -> usize {
    let p = compile(&opts(query, case_sensitive, whole_word, false));
    search_bytes(&p, text.as_bytes()).len()
}

#[test]
fn scenario_two_lines_with_context() {
    let p = compile(&opts("foo", false, false, false));
    let items = search_bytes(&p, b"foo\nbar\nfoobar\n");
    assert_eq!(items.len(), 2);
    assert_eq!(items[0].line_number, 1);
    assert_eq!(segs(&items[0]), vec![("foo".to_string(), true)]);
    assert_eq!(items[0].context.before, None);
    assert_eq!(items[0].context.after, Some("bar".to_string()));
    assert_eq!(items[1].line_number, 3);
    assert_eq!(segs(&items[1]), vec![("foo".to_string(), true), ("bar".to_string(), false)]);
    assert_eq!(items[1].context.before, Some("bar".to_string()));
    assert_eq!(items[1].context.after, None);
}

#[test]
fn empty_buffer_gives_no_matches() {
    for q in ["", "x*", "^", "foo"] {
        let p = compile(&opts(q, false, false, true));
        assert!(search_bytes(&p, b"").is_empty());
        assert!(search_file(&p, "a".to_string(), "a".to_string(), b"").is_none());
    }
}

#[test]
fn binary_buffer_is_left_out() {
    let p = compile(&opts("abc", false, false, false));
    let data = b"abc\x00abc\nabc";
    assert!(search_bytes(&p, data).is_empty());
    assert!(search_file(&p, "/x/bin".to_string(), "bin".to_string(), data).is_none());
}

#[test]
fn malformed_regex_is_refused() {
    let o = opts("foo(bar", true, false, true);
    match CompiledPattern::compile(&o) {
        Ok(_) => panic!("unbalanced parenthesis must not compile"),
        Err(e) => {
            assert_eq!(e.pattern(), "foo(bar");
            let m = e.message();
            assert!(m.starts_with("invalid regular expression: "));
            assert!(m.len() > "invalid regular expression: ".len());
            let SearchError::InvalidPattern { pattern, .. } = e;
            assert_eq!(pattern, "foo(bar");
        }
    }
}

#[test]
fn literal_mode_never_fails_on_meta_characters() {
    let p = compile(&opts("foo(bar", true, false, false));
    let items = search_bytes(&p, b"x foo(bar y");
    assert_eq!(items.len(), 1);
    assert_eq!(
        segs(&items[0]),
        vec![("x ".to_string(), false), ("foo(bar".to_string(), true), (" y".to_string(), false)]
    );
}

#[test]
fn literal_dot_matches_only_a_dot() {
    assert_eq!(hits("a.b", true, false, "axb"), 0);
    assert_eq!(hits("a.b", true, false, "a.b"), 1);
}

#[test]
fn whole_word_mode() {
    assert_eq!(hits("cat", false, true, "the cat sat"), 1);
    assert_eq!(hits("cat", false, true, "concatenate"), 0);
    assert_eq!(hits("cat", false, false, "the cat sat"), 1);
    assert_eq!(hits("cat", false, false, "concatenate"), 1);
}

#[test]
fn whole_word_is_not_applied_in_regex_mode() {
    let p = compile(&opts("cat", false, true, true));
    assert_eq!(search_bytes(&p, b"concatenate").len(), 1);
}

#[test]
fn case_sensitivity() {
    assert_eq!(hits("Cat", false, false, "cat"), 1);
    assert_eq!(hits("Cat", true, false, "cat"), 0);
    assert_eq!(hits("Cat", true, false, "Cat"), 1);
}

#[test]
fn non_latin_query_matches_case_insensitively() {
    assert_eq!(hits("ПРИВЕТ", false, false, "скажи привет миру"), 1);
    let p = compile(&opts("中文", false, false, false));
    let items = search_bytes(&p, "第一行\n含有中文的行\n".as_bytes());
    assert_eq!(items.len(), 1);
    assert_eq!(items[0].line_number, 2);
    assert_eq!(
        segs(&items[0]),
        vec![("含有".to_string(), false), ("中文".to_string(), true), ("的行".to_string(), false)]
    );
    assert_eq!(items[0].context.before, Some("第一行".to_string()));
}

#[test]
fn several_matches_on_one_line_make_one_item() {
    let p = compile(&opts("ab", false, false, false));
    let items = search_bytes(&p, b"ab-ab-ab\nxx\nab");
    assert_eq!(items.len(), 2);
    assert_eq!(
        segs(&items[0]),
        vec![
            ("ab".to_string(), true),
            ("-".to_string(), false),
            ("ab".to_string(), true),
            ("-".to_string(), false),
            ("ab".to_string(), true),
        ]
    );
    assert_eq!(items[1].line_number, 3);
    assert_eq!(items[1].context.before, Some("xx".to_string()));
    assert_eq!(items[1].context.after, None);
}

#[test]
fn carriage_returns_are_stripped() {
    let p = compile(&opts("foo", false, false, false));
    let items = search_bytes(&p, b"one\r\nab foo cd foo\r\ntwo\r\nlast");
    assert_eq!(items.len(), 1);
    assert_eq!(items[0].line_number, 2);
    let joined: String = items[0].segments.iter().map(|s| s.text.as_str()).collect();
    assert_eq!(joined, "ab foo cd foo");
    assert!(items[0].segments.iter().any(|s| s.is_match));
    assert_eq!(items[0].context.before, Some("one".to_string()));
    assert_eq!(items[0].context.after, Some("two".to_string()));
}

#[test]
fn segments_rebuild_each_line() {
    let p = compile(&opts("o", false, false, false));
    let text = "foo\nbar\nboo boo\r\nzzz\noops";
    let items = search_bytes(&p, text.as_bytes());
    let lines: Vec<&str> = text.split('\n').collect();
    assert_eq!(items.len(), 3);
    for item in &items {
        let joined: String = item.segments.iter().map(|s| s.text.as_str()).collect();
        let line = lines[item.line_number - 1].trim_end_matches('\r');
        assert_eq!(joined, line);
        assert!(item.segments.iter().any(|s| s.is_match));
    }
}

#[test]
fn at_most_five_hundred_items_per_file() {
    let mut text = String::new();
    for _ in 0..700 {
        text.push_str("hit\n");
    }
    let p = compile(&opts("hit", false, false, false));
    let items = search_bytes(&p, text.as_bytes());
    assert_eq!(MAX_ITEMS, 500);
    assert_eq!(items.len(), 500);
    assert_eq!(items[499].line_number, 500);
    for w in items.windows(2) {
        assert!(w[0].line_number < w[1].line_number);
    }
}

#[test]
fn many_matches_on_one_line_count_once() {
    let line = "x".repeat(2000);
    let p = compile(&opts("x", false, false, false));
    let items = search_bytes(&p, line.as_bytes());
    assert_eq!(items.len(), 1);
    assert_eq!(items[0].segments.len(), 2000);
}

#[test]
fn invalid_utf8_is_replaced_in_segments() {
    let p = compile(&opts("ok", false, false, false));
    let items = search_bytes(&p, b"\xFFok");
    assert_eq!(items.len(), 1);
    assert_eq!(
        segs(&items[0]),
        vec![("\u{FFFD}".to_string(), false), ("ok".to_string(), true)]
    );
}

#[test]
fn search_file_carries_path_and_name() {
    let p = compile(&opts("needle", true, false, false));
    let r = search_file(&p, "/d/hay.txt".to_string(), "hay.txt".to_string(), b"hay\nneedle\n");
    match r {
        Some(res) => {
            assert_eq!(res.path, "/d/hay.txt");
            assert_eq!(res.name, "hay.txt");
            assert_eq!(res.matches.len(), 1);
            assert_eq!(res.matches[0].line_number, 2);
        }
        None => panic!("expected a result"),
    }
    assert!(search_file(&p, "p".to_string(), "n".to_string(), b"hay only").is_none());
}
