use forge_patch::patch::{apply_replacement, Operation, PatchError, Range};
use forge_patch::patch::Operation::{Append, Prepend, Replace, Swap};

/// Applies each `(search, operation, content)` in turn; a failed step leaves
/// the text as it was and records the error's message.
fn run_all(initial: &str, steps: &[(&str, Operation, &str)]) -> Vec<Result<String, String>> {
    let mut current = initial.to_string();
    let mut results = Vec::new();
    for (search, operation, content) in steps {
        match apply_replacement(current.clone(), search, operation, content) {
            Ok(text) => {
                current = text.clone();
                results.push(Ok(text));
            }
            Err(err) => results.push(Err(err.message())),
        }
    }
    results
}

fn no_match(p: &str) -> Result<String, String> {
    Err(format!("Could not find match for search text: {p}"))
}

#[test]
fn comprehensive_patch_tests() {
    let results = run_all(
        "Hello World",
        &[
            ("World", Replace, "Forge"),
            ("", Replace, " bar"),
            ("foo", Replace, "baz"),
            ("Hello", Replace, "Hi"),
            ("Hello", Replace, "你好"),
            ("World", Replace, "🌍"),
            ("Hello", Prepend, "    "),
            ("World", Append, "\n  New line"),
            ("Hello", Prepend, "Greetings, "),
            ("World", Append, "!"),
            ("Hello", Swap, "World"),
            ("", Prepend, "Start: "),
            ("", Append, " End"),
            ("", Replace, "Completely New Content"),
        ],
    );
    let expected: Vec<Result<String, String>> = vec![
        Ok("Hello Forge".to_string()),
        Ok(" bar".to_string()),
        no_match("foo"),
        no_match("Hello"),
        no_match("Hello"),
        no_match("World"),
        no_match("Hello"),
        no_match("World"),
        no_match("Hello"),
        no_match("World"),
        no_match("Hello"),
        Ok("Start:  bar".to_string()),
        Ok("Start:  bar End".to_string()),
        Ok("Completely New Content".to_string()),
    ];
    assert_eq!(results, expected);
}

#[test]
fn comprehensive_error_tests() {
    let results = run_all(
        "foo bar baz",
        &[
            ("nonexistent", Replace, "replaced"),
            ("foo-bar", Replace, "replaced"),
            ("afoo", Replace, "replaced"),
            ("foo", Swap, "nonexistent"),
        ],
    );
    let expected: Vec<Result<String, String>> = vec![
        no_match("nonexistent"),
        no_match("foo-bar"),
        no_match("afoo"),
        Err("Could not find swap target text: nonexistent".to_string()),
    ];
    assert_eq!(results, expected);
}

fn apply(s: &str, p: &str, op: Operation, c: &str) -> Result<String, PatchError> {
    apply_replacement(s.to_string(), p, &op, c)
}

#[test]
fn replace_first_occurrence() {
    assert_eq!(apply("Hello World", "World", Operation::Replace, "Forge"), Ok("Hello Forge".to_string()));
}

#[test]
fn append_with_empty_search() {
    assert_eq!(apply("Hello World", "", Operation::Append, " bar"), Ok("Hello World bar".to_string()));
}

#[test]
fn prepend_with_empty_search() {
    assert_eq!(apply("Hello World", "", Operation::Prepend, "bar "), Ok("bar Hello World".to_string()));
}

#[test]
fn swap_with_empty_search_keeps_source() {
    assert_eq!(apply("Hello World", "", Operation::Swap, "World"), Ok("Hello World".to_string()));
}

#[test]
fn swap_disjoint_spans() {
    assert_eq!(apply("Hello World", "Hello", Operation::Swap, "World"), Ok("World Hello".to_string()));
}

#[test]
fn swap_when_target_comes_first() {
    assert_eq!(apply("Hello World", "World", Operation::Swap, "Hello"), Ok("World Hello".to_string()));
    assert_eq!(apply("a-bb--ccc", "ccc", Operation::Swap, "a"), Ok("ccc-bb--a".to_string()));
}

#[test]
fn swap_missing_target() {
    assert_eq!(
        apply("foo bar baz", "foo", Operation::Swap, "nonexistent"),
        Err(PatchError::NoSwapTarget("nonexistent".to_string()))
    );
}

#[test]
fn replace_missing_search() {
    assert_eq!(apply("abc", "xyz", Operation::Replace, "q"), Err(PatchError::NoMatch("xyz".to_string())));
}

#[test]
fn every_operation_reports_missing_search() {
    for op in [Operation::Prepend, Operation::Append, Operation::Replace, Operation::Swap] {
        assert_eq!(apply("abc", "abd", op, "b"), Err(PatchError::NoMatch("abd".to_string())));
    }
}

#[test]
fn only_first_occurrence_is_patched() {
    assert_eq!(apply("a.a.a", "a", Operation::Replace, "b"), Ok("b.a.a".to_string()));
    assert_eq!(apply("a.a.a", "a", Operation::Prepend, "<"), Ok("<a.a.a".to_string()));
    assert_eq!(apply("a.a.a", ".", Operation::Append, ">"), Ok("a.>a.a".to_string()));
}

#[test]
fn replace_with_itself_keeps_source() {
    let s = "one two three";
    assert_eq!(apply(s, "two", Operation::Replace, "two"), Ok(s.to_string()));
    assert_eq!(apply("", "", Operation::Replace, ""), Ok(String::new()));
}

#[test]
fn append_follows_first_occurrence() {
    let r = apply("x=1; x=2", "x=", Operation::Append, "9").unwrap();
    assert!(r.starts_with("x=9"));
    assert_eq!(r, "x=91; x=2");
}

#[test]
fn swap_twice_restores_source() {
    let s = "left middle right";
    let once = apply(s, "left", Operation::Swap, "right").unwrap();
    assert_eq!(once, "right middle left");
    let twice = apply(&once, "right", Operation::Swap, "left").unwrap();
    assert_eq!(twice, s);
}

#[test]
fn swap_twice_when_spans_move_does_not_restore() {
    // After the first swap, "b" is first found inside the moved "ab", so the
    // second swap sees overlapping spans and does not undo the first.
    let s = "b ab";
    let once = apply(s, "ab", Operation::Swap, "b").unwrap();
    assert_eq!(once, "ab b");
    let twice = apply(&once, "b", Operation::Swap, "ab").unwrap();
    assert_eq!(twice, "aab b");
    assert_ne!(twice, s);
}

#[test]
fn overlapping_swap_is_a_replace() {
    let s = "abcdef";
    let swap = apply(s, "bcd", Operation::Swap, "cde").unwrap();
    let replace = apply(s, "bcd", Operation::Replace, "cde").unwrap();
    assert_eq!(swap, "acdeef");
    assert_eq!(swap, replace);
    assert_eq!(apply("aaa", "aa", Operation::Swap, "a"), Ok("aa".to_string()));
}

#[test]
fn empty_search_replaces_everything() {
    assert_eq!(apply("anything at all", "", Operation::Replace, "new"), Ok("new".to_string()));
    assert_eq!(apply("", "", Operation::Replace, "new"), Ok("new".to_string()));
}

#[test]
fn swap_with_empty_content_moves_match_to_front() {
    assert_eq!(apply("xyHello", "Hello", Operation::Swap, ""), Ok("Helloxy".to_string()));
    assert_eq!(apply("Hello", "Hello", Operation::Swap, ""), Ok("".to_string()));
}

#[test]
fn multibyte_text_is_spliced_on_character_boundaries() {
    assert_eq!(apply("你好 世界", "世界", Operation::Replace, "🌍"), Ok("你好 🌍".to_string()));
    assert_eq!(apply("é🌍ü", "🌍", Operation::Swap, "é"), Ok("🌍éü".to_string()));
    assert_eq!(apply("añb", "ñ", Operation::Append, "!"), Ok("añ!b".to_string()));
}

#[test]
fn error_messages() {
    assert_eq!(PatchError::NoMatch("x".to_string()).message(), "Could not find match for search text: x");
    assert_eq!(PatchError::NoSwapTarget("y".to_string()).message(), "Could not find swap target text: y");
}

#[test]
fn range_bounds() {
    let r = Range::new(3, 4);
    assert_eq!(r.start, 3);
    assert_eq!(r.length, 4);
    assert_eq!(r.end(), 7);
    assert_eq!(r.as_range(), 3..7);
    assert_eq!(&"abcdefgh"[r.as_range()], "defg");
}

#[test]
fn find_exact_is_leftmost() {
    assert_eq!(Range::find_exact("abcabc", "bc"), Some(Range::new(1, 2)));
    assert_eq!(Range::find_exact("abc", "d"), None);
    assert_eq!(Range::find_exact("abc", ""), Some(Range::new(0, 0)));
    assert_eq!(Range::find_exact("ab", "abc"), None);
    // Offsets count bytes: each of these characters takes three.
    assert_eq!(Range::find_exact("日本語", "語"), Some(Range::new(6, 3)));
    assert_eq!(Range::find_exact("é🌍ü", "ü"), Some(Range::new(6, 2)));
}
