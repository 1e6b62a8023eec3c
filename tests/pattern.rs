use hintpick::{hint_char, Pattern, PatternError, PatternSet};

#[test]
fn invalid_source_is_refused() {
    assert!(matches!(Pattern::new("foo(bar"), Err(PatternError::Invalid)));
    assert!(matches!(
        PatternSet::from_sources(&vec!["/x", "("]),
        Err(PatternError::Invalid)
    ));
}

#[test]
fn pattern_keeps_its_source() {
    let p = Pattern::new(r"(\d+)x").unwrap();
    assert_eq!(p.source(), r"(\d+)x");
}

#[test]
fn captures_give_whole_and_group() {
    let p = Pattern::new(r"é(\d+)x").unwrap();
    let caps = p.captures("a é12x é3x");
    assert_eq!(caps.len(), 2);
    assert_eq!((caps[0].whole.start, caps[0].whole.end), (2, 6));
    assert_eq!(caps[0].whole.text, "é12x");
    let g = caps[0].group.as_ref().unwrap();
    assert_eq!((g.start, g.end, g.text.as_str()), (3, 5, "12"));
    assert_eq!(caps[1].whole.text, "é3x");
}

#[test]
fn captures_without_group() {
    let p = Pattern::new(r"[a-z]+").unwrap();
    let caps = p.captures("ab 12 cd");
    assert_eq!(caps.len(), 2);
    assert!(caps[0].group.is_none());
    assert_eq!(caps[1].whole.text, "cd");
}

#[test]
fn standard_set_has_seven() {
    let s = PatternSet::standard().unwrap();
    assert_eq!(s.len(), 7);
    assert_eq!(s.captures(5, "x deadbeef y")[0].whole.text, "deadbeef");
}

#[test]
fn hint_alphabet() {
    let hints: String = (0..17).map(hint_char).collect();
    assert_eq!(hints, "asdfjkl;ghqweruio");
}
