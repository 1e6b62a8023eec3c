use hintpick::{
    find_matches, on_key, render_overlay, selection_output, Draw, KeyEvent, PatternSet, Step,
};

fn sample() -> (String, Vec<hintpick::Match>) {
    let text = "open /etc/hosts\nthen /tmp/x and /var/log".to_string();
    let ms = find_matches(&PatternSet::standard().unwrap(), &text, None);
    (text, ms)
}

#[test]
fn capital_pastes_small_copies() {
    let (_, ms) = sample();
    assert_eq!(on_key(&ms, KeyEvent::Char('s')), Step::Select { index: 1, paste: false });
    assert_eq!(on_key(&ms, KeyEvent::Char('S')), Step::Select { index: 1, paste: true });
    assert_eq!(ms[1].text, "/tmp/x");
}

#[test]
fn escape_and_q_cancel() {
    let (_, ms) = sample();
    assert_eq!(on_key(&ms, KeyEvent::Esc), Step::Cancel);
    assert_eq!(on_key(&ms, KeyEvent::Char('q')), Step::Cancel);
    assert_eq!(on_key(&[].to_vec(), KeyEvent::Char('q')), Step::Cancel);
}

#[test]
fn other_keys_are_ignored() {
    let (_, ms) = sample();
    assert_eq!(on_key(&ms, KeyEvent::Other), Step::Continue);
    assert_eq!(on_key(&ms, KeyEvent::Char('f')), Step::Continue);
    assert_eq!(on_key(&ms, KeyEvent::Char('7')), Step::Continue);
}

#[test]
fn overlay_draws_lines_then_hints() {
    let (text, ms) = sample();
    let steps = render_overlay(&text, &ms, None);
    assert_eq!(
        steps,
        vec![
            Draw::Clear,
            Draw::Line { row: 0 },
            Draw::Line { row: 1 },
            Draw::Hint { col: 15, row: 0, hint: 'a' },
            Draw::Hint { col: 11, row: 1, hint: 's' },
            Draw::Hint { col: 24, row: 1, hint: 'd' },
        ]
    );
    assert_eq!(render_overlay(&text, &ms, None), steps);
}

#[test]
fn overlay_highlights_one_match() {
    let (text, ms) = sample();
    let steps = render_overlay(&text, &ms, Some(1));
    assert_eq!(steps[4], Draw::Highlight { col: 5, row: 1, index: 1 });
    assert_eq!(steps[5], Draw::Hint { col: 11, row: 1, hint: 's' });
    assert_eq!(steps.len(), 7);
}

#[test]
fn overlay_of_empty_text() {
    assert_eq!(render_overlay("", &Vec::new(), None), vec![Draw::Clear]);
}

#[test]
fn output_marks_paste() {
    assert_eq!(selection_output("/tmp/x", true), "PASTE:/tmp/x");
    assert_eq!(selection_output("/tmp/x", false), "/tmp/x");
}
