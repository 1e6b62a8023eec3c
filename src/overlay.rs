//! What to draw: the text as it is, then a hint marker after each match.
//!
//! Hints follow their match, so they hide none of the text they label.
use crate::extract::{lines_of, models, split_lines, Match, MatchModel};
use vstd::prelude::*;

verus! {

/// One drawing step. Rows and columns count from zero.
#[derive(Debug, Clone, Copy, PartialEq, Eq, Structural)]
pub enum Draw {
    /// Clear the screen and hide the cursor.
    Clear,
    /// Write line `row` of the text, unstyled, at the start of row `row`.
    Line { row: usize },
    /// Write the text of match `index` at (`col`, `row`) in high contrast,
    /// then reset the style.
    Highlight { col: usize, row: usize, index: usize },
    /// Write the marker of hint `hint` at (`col`, `row`) in bold red, then
    /// reset the style.
    Hint { col: usize, row: usize, hint: char },
}

/// The steps that draw match `i` of `ms`.
pub open spec fn match_draws(ms: Seq<MatchModel>, highlighted: Option<usize>, i: int) -> Seq<Draw> {
    let m = ms[i];
    let hint = Draw::Hint { col: m.end as usize, row: m.line as usize, hint: m.hint };
    if highlighted == Some(i as usize) {
        seq![Draw::Highlight { col: m.start as usize, row: m.line as usize, index: i as usize }, hint]
    } else {
        seq![hint]
    }
}

/// The steps that draw the first `k` matches of `ms`, in order.
pub open spec fn hint_draws(ms: Seq<MatchModel>, highlighted: Option<usize>, k: int) -> Seq<Draw>
    decreases k,
{
    if k <= 0 {
        seq![]
    } else {
        hint_draws(ms, highlighted, k - 1) + match_draws(ms, highlighted, k - 1)
    }
}

/// The steps that draw `n` lines of text with the matches `ms` over them.
pub open spec fn overlay_model(n: nat, ms: Seq<MatchModel>, highlighted: Option<usize>) -> Seq<
    Draw,
> {
    seq![Draw::Clear] + Seq::new(n, |r: int| Draw::Line { row: r as usize }) + hint_draws(
        ms,
        highlighted,
        ms.len() as int,
    )
}

/// The steps that draw `content` with the hints of `matches` over it: clear
/// the screen, write every line where it stood, and for each match draw its
/// hint marker just after its end, preceded, for the `highlighted` match, by
/// its text in high contrast. Drawing the same steps twice shows the same
/// screen.
pub fn render_overlay(content: &str, matches: &Vec<Match>, highlighted: Option<usize>) -> (r: Vec<
    Draw,
>)
    ensures
        r@ == overlay_model(lines_of(content@).len(), models(matches@), highlighted),
{
    let ghost ms = models(matches@);
    let n = split_lines(content).len();
    let mut r: Vec<Draw> = Vec::new();
    r.push(Draw::Clear);
    let mut row: usize = 0;
    while row < n
        invariant
            row <= n,
            r@ == seq![Draw::Clear] + Seq::new(row as nat, |k: int| Draw::Line { row: k as usize }),
        decreases n - row,
    {
        r.push(Draw::Line { row });
        assert(r@ =~= seq![Draw::Clear] + Seq::new((row + 1) as nat, |k: int| Draw::Line { row: k as usize }));
        row += 1;
    }
    let ghost base = r@;
    assert(r@ =~= base + hint_draws(ms, highlighted, 0));
    let mut i: usize = 0;
    while i < matches.len()
        invariant
            i <= matches.len(),
            ms == models(matches@),
            r@ == base + hint_draws(ms, highlighted, i as int),
        decreases matches.len() - i,
    {
        let m = &matches[i];
        if highlighted == Some(i) {
            r.push(Draw::Highlight { col: m.start, row: m.line, index: i });
        }
        r.push(Draw::Hint { col: m.end, row: m.line, hint: m.hint });
        assert(r@ =~= base + hint_draws(ms, highlighted, i + 1));
        i += 1;
    }
    r
}

} // verus!
