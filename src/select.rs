//! What a key press does while the hints are shown.
use crate::extract::{models, Match, MatchModel};
use vstd::prelude::*;
use vstd::string::StringExecFns;

verus! {

/// A key event, as far as selection cares.
#[derive(Debug, Clone, Copy, PartialEq, Eq, Structural)]
pub enum KeyEvent {
    /// A character key.
    Char(char),
    /// The escape key.
    Esc,
    /// Any other key: arrows, function keys, control sequences.
    Other,
}

/// What the selection loop does next.
#[derive(Debug, Clone, Copy, PartialEq, Eq, Structural)]
pub enum Step {
    /// Keep waiting for a key.
    Continue,
    /// Stop with nothing selected.
    Cancel,
    /// Stop with match `index` selected; `paste` asks the caller to insert the
    /// text rather than only copy it.
    Select { index: usize, paste: bool },
}

/// `c` is an ASCII capital letter.
pub open spec fn is_upper(c: char) -> bool {
    'A' <= c && c <= 'Z'
}

/// `c` is an ASCII small letter.
pub open spec fn is_lower(c: char) -> bool {
    'a' <= c && c <= 'z'
}

/// `c` with an ASCII capital turned into its small letter.
pub open spec fn lower_of(c: char) -> char {
    if is_upper(c) {
        ((c as u32) + 32) as char
    } else {
        c
    }
}

/// `c` with an ASCII small letter turned into its capital.
pub open spec fn upper_of(c: char) -> char {
    if is_lower(c) {
        ((c as u32) - 32) as char
    } else {
        c
    }
}

/// The position of the first match in `ms` whose hint is `h`.
pub open spec fn first_with_hint(ms: Seq<MatchModel>, h: char) -> Option<int>
    decreases ms.len(),
{
    if ms.len() == 0 {
        None
    } else if ms[0].hint == h {
        Some(0)
    } else {
        match first_with_hint(ms.drop_first(), h) {
            Some(i) => Some(i + 1),
            None => None,
        }
    }
}

/// What `key` does while the matches `ms` are shown.
pub open spec fn key_step(ms: Seq<MatchModel>, key: KeyEvent) -> Step {
    match key {
        KeyEvent::Esc => Step::Cancel,
        KeyEvent::Char(c) => {
            if c == 'q' {
                Step::Cancel
            } else {
                match first_with_hint(ms, lower_of(c)) {
                    Some(i) => Step::Select { index: i as usize, paste: is_upper(c) },
                    None => Step::Continue,
                }
            }
        },
        KeyEvent::Other => Step::Continue,
    }
}

/// Folds an ASCII capital to its small letter.
fn to_lower(c: char) -> (r: char)
    ensures
        r == lower_of(c),
{
    if 'A' <= c && c <= 'Z' {
        let b: u8 = c as u8;
        assert(b as u32 == c as u32);
        ((b + 32) as char)
    } else {
        c
    }
}

/// The position of the first of `matches` whose hint is `h`.
fn find_hint(matches: &Vec<Match>, h: char) -> (r: Option<usize>)
    ensures
        r matches Some(i) ==> first_with_hint(models(matches@), h) == Some(i as int),
        r is None ==> first_with_hint(models(matches@), h) is None,
{
    let ghost ms = models(matches@);
    let mut i: usize = 0;
    while i < matches.len()
        invariant
            i <= matches.len(),
            ms == models(matches@),
            forall|k: int| 0 <= k < i ==> ms[k].hint != h,
        decreases matches.len() - i,
    {
        if matches[i].hint == h {
            proof {
                lemma_first_with_hint(ms, h, i as int);
            }
            return Some(i);
        }
        i += 1;
    }
    proof {
        lemma_no_hint(ms, h);
    }
    None
}

/// The first position whose hint is `h` is `i` when none before it has that hint.
proof fn lemma_first_with_hint(ms: Seq<MatchModel>, h: char, i: int)
    requires
        0 <= i < ms.len(),
        ms[i].hint == h,
        forall|k: int| 0 <= k < i ==> ms[k].hint != h,
    ensures
        first_with_hint(ms, h) == Some(i),
    decreases i,
{
    if i > 0 {
        lemma_first_with_hint(ms.drop_first(), h, i - 1);
    }
}

/// No position has hint `h` when none of them holds it.
proof fn lemma_no_hint(ms: Seq<MatchModel>, h: char)
    requires
        forall|k: int| 0 <= k < ms.len() ==> ms[k].hint != h,
    ensures
        first_with_hint(ms, h) is None,
    decreases ms.len(),
{
    if ms.len() > 0 {
        lemma_no_hint(ms.drop_first(), h);
    }
}

/// Decides what `key` does while `matches` are shown: `q` and escape cancel;
/// a character selects the first match whose hint is that character folded
/// to lower case, pasting if the character was a capital; anything else is
/// ignored.
pub fn on_key(matches: &Vec<Match>, key: KeyEvent) -> (r: Step)
    ensures
        r == key_step(models(matches@), key),
{
    match key {
        KeyEvent::Esc => Step::Cancel,
        KeyEvent::Char(c) => {
            if c == 'q' {
                Step::Cancel
            } else {
                match find_hint(matches, to_lower(c)) {
                    Some(i) => Step::Select { index: i, paste: 'A' <= c && c <= 'Z' },
                    None => Step::Continue,
                }
            }
        },
        KeyEvent::Other => Step::Continue,
    }
}

/// A capital selects what its small letter selects, and asks for a paste
/// where the small letter asks only for a copy.
pub proof fn law_capital_pastes(ms: Seq<MatchModel>, c: char)
    requires
        is_lower(c),
        c != 'q',
    ensures
        key_step(ms, KeyEvent::Char(c)) matches Step::Select { index, paste } ==> key_step(
            ms,
            KeyEvent::Char(upper_of(c)),
        ) == (Step::Select { index, paste: true }) && !paste,
        key_step(ms, KeyEvent::Char(c)) == Step::Continue ==> key_step(
            ms,
            KeyEvent::Char(upper_of(c)),
        ) == Step::Continue,
{
    assert(lower_of(upper_of(c)) == c);
}

/// Put before a selection whose caller is asked to paste it.
pub const PASTE_PREFIX: &'static str = "PASTE:";

/// The line that reports a selection: its text, after `PASTE_PREFIX` when a
/// paste was asked for.
pub fn selection_output(text: &str, paste: bool) -> (r: String)
    ensures
        r@ == (if paste {
            PASTE_PREFIX@ + text@
        } else {
            text@
        }),
{
    if paste {
        let mut out = PASTE_PREFIX.to_owned();
        out.append(text);
        out
    } else {
        text.to_owned()
    }
}

/// Escape and `q` cancel, whatever is shown.
pub proof fn law_cancel(ms: Seq<MatchModel>)
    ensures
        key_step(ms, KeyEvent::Esc) == Step::Cancel,
        key_step(ms, KeyEvent::Char('q')) == Step::Cancel,
{
}

} // verus!
