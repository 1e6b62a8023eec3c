use hintpick::{find_matches, Match, PatternSet, HINT_COUNT, MAX_MATCHES};

fn standard() -> PatternSet {
    PatternSet::standard().expect("the standard recognizers compile")
}

fn texts_and_hints(ms: &[Match]) -> Vec<(String, char)> {
    ms.iter().map(|m| (m.text.clone(), m.hint)).collect()
}

#[test]
fn url_comes_first_then_paths() {
    let ms = find_matches(
        &standard(),
        "Visit https://example.com/page for /etc/hosts info",
        None,
    );
    assert_eq!(ms[0].text, "https://example.com/page");
    assert_eq!(ms[0].hint, 'a');
    assert_eq!((ms[0].line, ms[0].start, ms[0].end), (0, 6, 30));
    // The path recognizer also sees the `//example.com/page` inside the URL.
    assert_eq!(
        texts_and_hints(&ms),
        vec![
            ("https://example.com/page".to_string(), 'a'),
            ("//example.com/page".to_string(), 's'),
            ("/etc/hosts".to_string(), 'd'),
        ]
    );
    assert_eq!((ms[2].start, ms[2].end), (35, 45));
}

#[test]
fn hash_then_address() {
    let ms = find_matches(&standard(), "commit a1b2c3d fixed 10.0.0.5", None);
    assert_eq!(
        texts_and_hints(&ms),
        vec![("a1b2c3d".to_string(), 'a'), ("10.0.0.5".to_string(), 's')]
    );
    assert_eq!((ms[0].start, ms[0].end), (7, 14));
    assert_eq!((ms[1].start, ms[1].end), (21, 29));
}

#[test]
fn excluded_path_gives_nothing() {
    let ms = find_matches(
        &standard(),
        "/home/user/project",
        Some("/home/user/project"),
    );
    assert!(ms.is_empty());
}

#[test]
fn exclusion_keeps_the_others() {
    let ms = find_matches(&standard(), "/home/user/project /tmp/log", Some("/home/user/project"));
    assert_eq!(texts_and_hints(&ms), vec![("/tmp/log".to_string(), 'a')]);
    let ms = find_matches(&standard(), "/home/user/project /tmp/log", None);
    assert_eq!(ms.len(), 2);
}

#[test]
fn empty_input_has_no_matches() {
    assert!(find_matches(&standard(), "", None).is_empty());
    assert!(find_matches(&standard(), "", Some("/home")).is_empty());
}

#[test]
fn text_without_tokens_has_no_matches() {
    assert!(find_matches(&standard(), "nothing to see here\nor here", None).is_empty());
}

#[test]
fn stops_when_hints_run_out() {
    let content: String = (0..30).map(|i| format!("/p{}\n", i)).collect();
    let ms = find_matches(&standard(), &content, None);
    assert_eq!(ms.len(), HINT_COUNT);
    assert!(ms.len() <= MAX_MATCHES);
    let hints: String = ms.iter().map(|m| m.hint).collect();
    assert_eq!(hints, "asdfjkl;ghqweruio");
    for (i, m) in ms.iter().enumerate() {
        assert_eq!(m.text, format!("/p{}", i));
        assert_eq!(m.line, i);
    }
}

#[test]
fn full_line_is_cut_left_to_right() {
    let content: String = (0..20).map(|i| format!("/q{} ", i)).collect();
    let ms = find_matches(&standard(), &content, None);
    assert_eq!(ms.len(), HINT_COUNT);
    assert_eq!(ms[16].text, "/q16");
}

#[test]
fn hints_and_texts_are_unique() {
    let ms = find_matches(
        &standard(),
        "/a /b /a\n/b 10.0.0.1 /c\n10.0.0.1 deadbeef deadbeef",
        None,
    );
    assert_eq!(
        texts_and_hints(&ms),
        vec![
            ("/a".to_string(), 'a'),
            ("/b".to_string(), 's'),
            ("/c".to_string(), 'd'),
            ("10.0.0.1".to_string(), 'f'),
            ("deadbeef".to_string(), 'j'),
        ]
    );
    assert_eq!(ms[3].line, 1);
    assert_eq!(ms[4].line, 2);
}

#[test]
fn same_input_same_result() {
    let text = "see ./src/lib.rs and https://x.org\n1234567 ~/notes";
    let a = texts_and_hints(&find_matches(&standard(), text, Some("/home")));
    let b = texts_and_hints(&find_matches(&standard(), text, Some("/home")));
    assert_eq!(a, b);
    assert_eq!(a[0].0, "https://x.org");
}

#[test]
fn earlier_recognizer_wins_same_text() {
    // The path recognizer and the status-line recognizer both find the file;
    // the path recognizer comes first, so its match is the one recorded.
    let ms = find_matches(&standard(), " M /src/main.rs", None);
    assert_eq!(texts_and_hints(&ms), vec![("/src/main.rs".to_string(), 'a')]);
    assert_eq!((ms[0].start, ms[0].end), (3, 15));
}

#[test]
fn distinct_texts_kept_in_recognizer_order() {
    let ms = find_matches(&standard(), "/abcdef1234", None);
    assert_eq!(
        texts_and_hints(&ms),
        vec![("/abcdef1234".to_string(), 'a'), ("abcdef1234".to_string(), 's')]
    );
}

#[test]
fn status_line_gives_its_file() {
    let ms = find_matches(&standard(), "?? notes.txt", None);
    assert_eq!(texts_and_hints(&ms), vec![("notes.txt".to_string(), 'a')]);
    assert_eq!((ms[0].start, ms[0].end), (3, 12));
}

#[test]
fn positions_count_characters() {
    let ms = find_matches(&standard(), "héé /tmp/x", None);
    assert_eq!(ms[0].text, "/tmp/x");
    assert_eq!((ms[0].start, ms[0].end), (4, 10));
}

#[test]
fn carriage_returns_are_line_endings() {
    let ms = find_matches(&standard(), "one\r\n/tmp/a\r\nthree /tmp/b\r\n", None);
    assert_eq!(
        texts_and_hints(&ms),
        vec![("/tmp/a".to_string(), 'a'), ("/tmp/b".to_string(), 's')]
    );
    assert_eq!(ms[1].line, 2);
    assert_eq!((ms[1].start, ms[1].end), (6, 12));
}

#[test]
fn address_groups_are_not_range_checked() {
    let ms = find_matches(&standard(), "999.999.999.999", None);
    assert_eq!(texts_and_hints(&ms), vec![("999.999.999.999".to_string(), 'a')]);
}

fn span(start: usize, end: usize, text: &str) -> hintpick::Span {
    hintpick::Span { start, end, text: text.to_string() }
}

#[test]
fn offered_captures_skip_excluded_and_repeated() {
    let caps = vec![
        hintpick::Capture { whole: span(0, 4, "/cwd"), group: None },
        hintpick::Capture { whole: span(5, 7, "/a"), group: None },
        hintpick::Capture { whole: span(8, 14, "?? /a"), group: Some(span(11, 13, "/a")) },
        hintpick::Capture { whole: span(15, 22, "M /b.rs"), group: Some(span(17, 22, "/b.rs")) },
    ];
    let mut ms = Vec::new();
    hintpick::offer_captures(&mut ms, &caps, 3, Some("/cwd"));
    assert_eq!(
        texts_and_hints(&ms),
        vec![("/a".to_string(), 'a'), ("/b.rs".to_string(), 's')]
    );
    assert_eq!((ms[1].line, ms[1].start, ms[1].end), (3, 17, 22));
}

#[test]
fn offered_captures_stop_when_keys_run_out() {
    let caps: Vec<hintpick::Capture> = (0..20)
        .map(|i| hintpick::Capture { whole: span(i, i + 1, &format!("t{}", i)), group: None })
        .collect();
    let mut ms = Vec::new();
    hintpick::offer_captures(&mut ms, &caps, 0, None);
    assert_eq!(ms.len(), HINT_COUNT);
    assert_eq!(ms[16].hint, 'o');
    assert_eq!(ms[16].text, "t16");
}

#[test]
fn priority_holds_across_lines() {
    let ms = find_matches(&standard(), "/x/y.rs\n M /x/y.rs /z\n", None);
    assert_eq!(
        texts_and_hints(&ms),
        vec![
            ("/x/y.rs".to_string(), 'a'),
            ("/z".to_string(), 's'),
            ("/x/y.rs /z".to_string(), 'd'),
        ]
    );
    assert_eq!((ms[0].line, ms[0].start, ms[0].end), (0, 0, 7));
    assert_eq!((ms[1].line, ms[1].start, ms[1].end), (1, 11, 13));
    assert_eq!((ms[2].line, ms[2].start, ms[2].end), (1, 3, 13));
}
