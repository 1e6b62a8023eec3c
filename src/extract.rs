//! Scans text for tokens and labels each with a hint key.
use crate::pattern::{captures_agree, regex_captures, Capture, PatternSet};
use vstd::prelude::*;

verus! {

/// The most matches a scan may produce. Each match needs a hint key of its
/// own, so the real bound is the smaller `HINT_COUNT`: see `match_limit`.
pub const MAX_MATCHES: usize = 26;

/// The number of hint keys, and so the most matches a scan produces.
pub const HINT_COUNT: usize = 17;

/// The hint keys, home row first: `a s d f j k l ; g h q w e r u i o`.
pub open spec fn hint_of(i: int) -> char {
    if i == 0 {
        'a'
    } else if i == 1 {
        's'
    } else if i == 2 {
        'd'
    } else if i == 3 {
        'f'
    } else if i == 4 {
        'j'
    } else if i == 5 {
        'k'
    } else if i == 6 {
        'l'
    } else if i == 7 {
        ';'
    } else if i == 8 {
        'g'
    } else if i == 9 {
        'h'
    } else if i == 10 {
        'q'
    } else if i == 11 {
        'w'
    } else if i == 12 {
        'e'
    } else if i == 13 {
        'r'
    } else if i == 14 {
        'u'
    } else if i == 15 {
        'i'
    } else if i == 16 {
        'o'
    } else {
        ' '
    }
}

/// How many matches can be accepted: one per hint key, and no more than
/// `MAX_MATCHES`.
pub open spec fn match_limit() -> int {
    if MAX_MATCHES < HINT_COUNT {
        MAX_MATCHES as int
    } else {
        HINT_COUNT as int
    }
}

/// Distinct positions of the alphabet hold distinct keys.
pub proof fn lemma_hints_distinct(i: int, j: int)
    requires
        0 <= i < HINT_COUNT,
        0 <= j < HINT_COUNT,
        i != j,
    ensures
        hint_of(i) != hint_of(j),
{
}

/// The hint key at position `i` of the alphabet.
pub fn hint_char(i: usize) -> (c: char)
    requires
        i < HINT_COUNT,
    ensures
        c == hint_of(i as int),
{
    match i {
        0 => 'a',
        1 => 's',
        2 => 'd',
        3 => 'f',
        4 => 'j',
        5 => 'k',
        6 => 'l',
        7 => ';',
        8 => 'g',
        9 => 'h',
        10 => 'q',
        11 => 'w',
        12 => 'e',
        13 => 'r',
        14 => 'u',
        15 => 'i',
        _ => 'o',
    }
}

/// Drops one carriage return that ends `l`.
pub open spec fn strip_cr(l: Seq<char>) -> Seq<char> {
    if l.len() > 0 && l.last() == '\r' {
        l.drop_last()
    } else {
        l
    }
}

/// The lines of `s` after the partial line `cur`: split at each `\n`, a
/// `\r` before it dropped, and no empty line after a final `\n`.
pub open spec fn lines_after(cur: Seq<char>, s: Seq<char>) -> Seq<Seq<char>>
    decreases s.len(),
{
    if s.len() == 0 {
        if cur.len() == 0 {
            seq![]
        } else {
            seq![cur]
        }
    } else if s[0] == '\n' {
        seq![strip_cr(cur)] + lines_after(seq![], s.drop_first())
    } else {
        lines_after(cur.push(s[0]), s.drop_first())
    }
}

/// The lines of `s`.
pub open spec fn lines_of(s: Seq<char>) -> Seq<Seq<char>> {
    lines_after(seq![], s)
}

/// Relies on str::lines: the lines of a string, split at `\n` or `\r\n`,
/// without their endings, and no empty line after a final ending.
#[verifier::external_body]
pub(crate) fn split_lines(s: &str) -> (r: Vec<String>)
    ensures
        r@.map_values(|l: String| l@) == lines_of(s@),
{
    s.lines().map(|l| l.to_string()).collect()
}

/// A recognized token, with where it lies and the key that selects it.
#[derive(Debug, Clone)]
pub struct Match {
    pub text: String,
    pub line: usize,
    pub start: usize,
    pub end: usize,
    pub hint: char,
}

/// What a `Match` holds, as mathematical values.
pub struct MatchModel {
    pub text: Seq<char>,
    pub line: int,
    pub start: int,
    pub end: int,
    pub hint: char,
}

impl View for Match {
    type V = MatchModel;

    open spec fn view(&self) -> MatchModel {
        MatchModel {
            text: self.text@,
            line: self.line as int,
            start: self.start as int,
            end: self.end as int,
            hint: self.hint,
        }
    }
}

/// The models of `v`, in order.
pub open spec fn models(v: Seq<Match>) -> Seq<MatchModel> {
    v.map_values(|m: Match| m@)
}

/// The span a capture stands for: its group where there is one, else the whole.
pub open spec fn chosen(c: (int, int, Option<(int, int)>)) -> (int, int) {
    match c.2 {
        Some(g) => g,
        None => (c.0, c.1),
    }
}

/// Some match of `acc` has the text `t`.
pub open spec fn has_text(acc: Seq<MatchModel>, t: Seq<char>) -> bool {
    exists|i: int| 0 <= i < acc.len() && #[trigger] acc[i].text == t
}

/// A token with text `t` joins `acc`: there is room, it is not the excluded
/// text, and no earlier match has the same text.
pub open spec fn accepts(acc: Seq<MatchModel>, t: Seq<char>, exclude: Option<Seq<char>>) -> bool {
    &&& acc.len() < match_limit()
    &&& exclude != Some(t)
    &&& !has_text(acc, t)
}

/// A token found on a line: its text, and where it starts and ends.
pub type Candidate = (Seq<char>, int, int);

/// The token a model capture of `line` stands for.
pub open spec fn candidate(c: (int, int, Option<(int, int)>), line: Seq<char>) -> Candidate {
    let span = chosen(c);
    (line.subrange(span.0, span.1), span.0, span.1)
}

/// The tokens the model captures `caps` of `line` stand for, in order.
pub open spec fn candidates(caps: Seq<(int, int, Option<(int, int)>)>, line: Seq<char>) -> Seq<
    Candidate,
> {
    caps.map_values(|c: (int, int, Option<(int, int)>)| candidate(c, line))
}

/// The token a capture stands for: its group where there is one, else the whole.
pub open spec fn capture_candidate(c: Capture) -> Candidate {
    match c.group {
        Some(g) => (g.text@, g.start as int, g.end as int),
        None => (c.whole.text@, c.whole.start as int, c.whole.end as int),
    }
}

/// Captures that agree with a model stand for the same tokens.
pub proof fn lemma_capture_candidates(
    caps: Seq<Capture>,
    model: Seq<(int, int, Option<(int, int)>)>,
    line: Seq<char>,
)
    requires
        captures_agree(caps, model, line),
    ensures
        caps.map_values(|c: Capture| capture_candidate(c)) == candidates(model, line),
{
    assert forall|i: int| 0 <= i < caps.len() implies capture_candidate(caps[i]) == candidate(
        model[i],
        line,
    ) by {
        assert(caps[i].agrees(model[i], line));
    }
    assert(caps.map_values(|c: Capture| capture_candidate(c)) =~= candidates(model, line));
}

/// `acc` after the token `cand` of line `line_no` is offered.
pub open spec fn offer(
    acc: Seq<MatchModel>,
    line_no: int,
    cand: Candidate,
    exclude: Option<Seq<char>>,
) -> Seq<MatchModel> {
    if accepts(acc, cand.0, exclude) {
        acc.push(
            MatchModel {
                text: cand.0,
                line: line_no,
                start: cand.1,
                end: cand.2,
                hint: hint_of(acc.len() as int),
            },
        )
    } else {
        acc
    }
}

/// `acc` after the tokens `cands` of line `line_no` are offered in order.
pub open spec fn scan_captures(
    acc: Seq<MatchModel>,
    cands: Seq<Candidate>,
    line_no: int,
    exclude: Option<Seq<char>>,
) -> Seq<MatchModel>
    decreases cands.len(),
{
    if cands.len() == 0 {
        acc
    } else {
        scan_captures(offer(acc, line_no, cands[0], exclude), cands.drop_first(), line_no, exclude)
    }
}

/// `acc` after the recognizers `pats` are run over line `line_no`, in order.
pub open spec fn scan_patterns(
    acc: Seq<MatchModel>,
    pats: Seq<Seq<char>>,
    line_no: int,
    line: Seq<char>,
    exclude: Option<Seq<char>>,
) -> Seq<MatchModel>
    decreases pats.len(),
{
    if pats.len() == 0 {
        acc
    } else {
        scan_patterns(
            scan_captures(acc, candidates(regex_captures(pats[0], line), line), line_no, exclude),
            pats.drop_first(),
            line_no,
            line,
            exclude,
        )
    }
}

/// `acc` after the lines `lines`, the first of them numbered `line_no`, are scanned.
pub open spec fn scan_lines(
    acc: Seq<MatchModel>,
    lines: Seq<Seq<char>>,
    line_no: int,
    pats: Seq<Seq<char>>,
    exclude: Option<Seq<char>>,
) -> Seq<MatchModel>
    decreases lines.len(),
{
    if lines.len() == 0 {
        acc
    } else {
        scan_lines(
            scan_patterns(acc, pats, line_no, lines[0], exclude),
            lines.drop_first(),
            line_no + 1,
            pats,
            exclude,
        )
    }
}

/// The matches that the recognizers `pats` give in `content`.
pub open spec fn extract_model(
    pats: Seq<Seq<char>>,
    content: Seq<char>,
    exclude: Option<Seq<char>>,
) -> Seq<MatchModel> {
    scan_lines(seq![], lines_of(content), 0, pats, exclude)
}

/// The view of an optional string.
pub open spec fn opt_view(e: Option<&str>) -> Option<Seq<char>> {
    match e {
        Some(s) => Some(s@),
        None => None,
    }
}

/// The view of an optional owned string.
pub open spec fn opt_string_view(e: Option<String>) -> Option<Seq<char>> {
    match e {
        Some(s) => Some(s@),
        None => None,
    }
}

/// The matches in `acc` are numbered by the hint alphabet, have distinct
/// texts, none of them the excluded text, and do not exceed the limit.
pub open spec fn well_formed(acc: Seq<MatchModel>, exclude: Option<Seq<char>>) -> bool {
    &&& acc.len() <= match_limit()
    &&& forall|i: int| 0 <= i < acc.len() ==> #[trigger] acc[i].hint == hint_of(i)
    &&& forall|i: int| 0 <= i < acc.len() ==> exclude != Some(#[trigger] acc[i].text)
    &&& forall|i: int, j: int| 0 <= i < j < acc.len() ==> acc[i].text != acc[j].text
}

/// Once the limit is reached, further captures change nothing.
pub proof fn lemma_full_captures(
    acc: Seq<MatchModel>,
    cands: Seq<Candidate>,
    line_no: int,
    exclude: Option<Seq<char>>,
)
    requires
        acc.len() >= match_limit(),
    ensures
        scan_captures(acc, cands, line_no, exclude) == acc,
    decreases cands.len(),
{
    if cands.len() > 0 {
        lemma_full_captures(acc, cands.drop_first(), line_no, exclude);
    }
}

/// Once the limit is reached, further recognizers change nothing.
pub proof fn lemma_full_patterns(
    acc: Seq<MatchModel>,
    pats: Seq<Seq<char>>,
    line_no: int,
    line: Seq<char>,
    exclude: Option<Seq<char>>,
)
    requires
        acc.len() >= match_limit(),
    ensures
        scan_patterns(acc, pats, line_no, line, exclude) == acc,
    decreases pats.len(),
{
    if pats.len() > 0 {
        lemma_full_captures(acc, candidates(regex_captures(pats[0], line), line), line_no, exclude);
        lemma_full_patterns(acc, pats.drop_first(), line_no, line, exclude);
    }
}

/// Once the limit is reached, further lines change nothing.
pub proof fn lemma_full_lines(
    acc: Seq<MatchModel>,
    lines: Seq<Seq<char>>,
    line_no: int,
    pats: Seq<Seq<char>>,
    exclude: Option<Seq<char>>,
)
    requires
        acc.len() >= match_limit(),
    ensures
        scan_lines(acc, lines, line_no, pats, exclude) == acc,
    decreases lines.len(),
{
    if lines.len() > 0 {
        lemma_full_patterns(acc, pats, line_no, lines[0], exclude);
        lemma_full_lines(acc, lines.drop_first(), line_no + 1, pats, exclude);
    }
}

/// Offering a token keeps what came before and keeps the matches well formed.
pub proof fn lemma_offer(
    acc: Seq<MatchModel>,
    line_no: int,
    cand: Candidate,
    exclude: Option<Seq<char>>,
)
    requires
        well_formed(acc, exclude),
    ensures
        well_formed(offer(acc, line_no, cand, exclude), exclude),
        offer(acc, line_no, cand, exclude).len() >= acc.len(),
        offer(acc, line_no, cand, exclude).subrange(0, acc.len() as int) == acc,
{
    let r = offer(acc, line_no, cand, exclude);
    if accepts(acc, cand.0, exclude) {
        assert forall|i: int, j: int| 0 <= i < j < r.len() implies r[i].text != r[j].text by {
            if j == acc.len() {
                if r[i].text == cand.0 {
                    assert(acc[i].text == cand.0);
                }
            }
        }
    }
    assert(r.subrange(0, acc.len() as int) =~= acc);
}

/// Scanning tokens keeps what came before and keeps the matches well formed.
pub proof fn lemma_scan_captures(
    acc: Seq<MatchModel>,
    cands: Seq<Candidate>,
    line_no: int,
    exclude: Option<Seq<char>>,
)
    requires
        well_formed(acc, exclude),
    ensures
        well_formed(scan_captures(acc, cands, line_no, exclude), exclude),
        scan_captures(acc, cands, line_no, exclude).len() >= acc.len(),
        scan_captures(acc, cands, line_no, exclude).subrange(0, acc.len() as int) == acc,
    decreases cands.len(),
{
    if cands.len() > 0 {
        let next = offer(acc, line_no, cands[0], exclude);
        lemma_offer(acc, line_no, cands[0], exclude);
        lemma_scan_captures(next, cands.drop_first(), line_no, exclude);
        let r = scan_captures(next, cands.drop_first(), line_no, exclude);
        assert(r.subrange(0, acc.len() as int) =~= next.subrange(0, acc.len() as int));
    }
}

/// Scanning with recognizers keeps what came before and keeps the matches well formed.
pub proof fn lemma_scan_patterns(
    acc: Seq<MatchModel>,
    pats: Seq<Seq<char>>,
    line_no: int,
    line: Seq<char>,
    exclude: Option<Seq<char>>,
)
    requires
        well_formed(acc, exclude),
    ensures
        well_formed(scan_patterns(acc, pats, line_no, line, exclude), exclude),
        scan_patterns(acc, pats, line_no, line, exclude).len() >= acc.len(),
        scan_patterns(acc, pats, line_no, line, exclude).subrange(0, acc.len() as int) == acc,
    decreases pats.len(),
{
    if pats.len() > 0 {
        let cands = candidates(regex_captures(pats[0], line), line);
        let next = scan_captures(acc, cands, line_no, exclude);
        lemma_scan_captures(acc, cands, line_no, exclude);
        lemma_scan_patterns(next, pats.drop_first(), line_no, line, exclude);
        let r = scan_patterns(next, pats.drop_first(), line_no, line, exclude);
        assert(r.subrange(0, acc.len() as int) =~= next.subrange(0, acc.len() as int));
    }
}

/// Scanning lines keeps what came before and keeps the matches well formed.
pub proof fn lemma_scan_lines(
    acc: Seq<MatchModel>,
    lines: Seq<Seq<char>>,
    line_no: int,
    pats: Seq<Seq<char>>,
    exclude: Option<Seq<char>>,
)
    requires
        well_formed(acc, exclude),
    ensures
        well_formed(scan_lines(acc, lines, line_no, pats, exclude), exclude),
        scan_lines(acc, lines, line_no, pats, exclude).len() >= acc.len(),
        scan_lines(acc, lines, line_no, pats, exclude).subrange(0, acc.len() as int) == acc,
    decreases lines.len(),
{
    if lines.len() > 0 {
        let next = scan_patterns(acc, pats, line_no, lines[0], exclude);
        lemma_scan_patterns(acc, pats, line_no, lines[0], exclude);
        lemma_scan_lines(next, lines.drop_first(), line_no + 1, pats, exclude);
        let r = scan_lines(next, lines.drop_first(), line_no + 1, pats, exclude);
        assert(r.subrange(0, acc.len() as int) =~= next.subrange(0, acc.len() as int));
    }
}

/// Whether some match in `matches` has the text `t`.
fn contains_text(matches: &Vec<Match>, t: &String) -> (r: bool)
    ensures
        r == has_text(models(matches@), t@),
{
    let mut i: usize = 0;
    while i < matches.len()
        invariant
            i <= matches.len(),
            forall|k: int| 0 <= k < i ==> matches@[k].text@ != t@,
        decreases matches.len() - i,
    {
        if matches[i].text == *t {
            assert(models(matches@)[i as int].text == t@);
            return true;
        }
        i += 1;
    }
    false
}

/// Offers the tokens that `caps` stand for, all of line `line_no`, to
/// `matches`, in order: each is taken, with the next hint key, unless it is
/// `exclude`, its text is already among `matches`, or every key is taken.
pub fn offer_captures(
    matches: &mut Vec<Match>,
    caps: &Vec<Capture>,
    line_no: usize,
    exclude: Option<&str>,
)
    ensures
        models(final(matches)@) == scan_captures(
            models(old(matches)@),
            caps@.map_values(|c: Capture| capture_candidate(c)),
            line_no as int,
            opt_view(exclude),
        ),
{
    let ghost ex = opt_view(exclude);
    let ghost cands = caps@.map_values(|c: Capture| capture_candidate(c));
    let ghost target = scan_captures(models(old(matches)@), cands, line_no as int, ex);
    let excl: Option<String> = match exclude {
        Some(e) => Some(e.to_owned()),
        None => None,
    };
    assert(cands.subrange(0, cands.len() as int) =~= cands);
    let mut j: usize = 0;
    while j < caps.len() && matches.len() < MAX_MATCHES && matches.len() < HINT_COUNT
        invariant
            j <= caps.len(),
            cands == caps@.map_values(|c: Capture| capture_candidate(c)),
            ex == opt_string_view(excl),
            scan_captures(
                models(matches@),
                cands.subrange(j as int, cands.len() as int),
                line_no as int,
                ex,
            ) == target,
        decreases caps.len() - j,
    {
        let cap = &caps[j];
        let span = match &cap.group {
            Some(g) => g,
            None => &cap.whole,
        };
        let ghost before = models(matches@);
        let excluded = match &excl {
            Some(x) => *x == span.text,
            None => false,
        };
        if !excluded && !contains_text(matches, &span.text) {
            let hint = hint_char(matches.len());
            matches.push(
                Match { text: span.text.clone(), line: line_no, start: span.start, end: span.end, hint },
            );
        }
        assert(models(matches@) =~= offer(before, line_no as int, cands[j as int], ex));
        assert(cands.subrange(j as int, cands.len() as int).drop_first() =~= cands.subrange(
            j + 1,
            cands.len() as int,
        ));
        j += 1;
    }
    proof {
        if j < caps.len() {
            lemma_full_captures(
                models(matches@),
                cands.subrange(j as int, cands.len() as int),
                line_no as int,
                ex,
            );
        } else {
            assert(cands.subrange(j as int, cands.len() as int) =~= Seq::<Candidate>::empty());
        }
    }
}

/// Runs every recognizer of `set` over line `line_no`, in order, offering
/// what each finds to `matches`.
fn scan_line(
    set: &PatternSet,
    matches: &mut Vec<Match>,
    line: &String,
    line_no: usize,
    exclude: Option<&str>,
)
    requires
        models(old(matches)@).len() <= match_limit(),
    ensures
        models(final(matches)@) == scan_patterns(
            models(old(matches)@),
            set.sources(),
            line_no as int,
            line@,
            opt_view(exclude),
        ),
{
    let ghost ex = opt_view(exclude);
    let ghost pats = set.sources();
    let ghost target = scan_patterns(models(old(matches)@), pats, line_no as int, line@, ex);
    assert(pats.subrange(0, pats.len() as int) =~= pats);
    let mut k: usize = 0;
    while k < set.len() && matches.len() < MAX_MATCHES && matches.len() < HINT_COUNT
        invariant
            k <= pats.len(),
            pats == set.sources(),
            ex == opt_view(exclude),
            models(matches@).len() <= match_limit(),
            scan_patterns(
                models(matches@),
                pats.subrange(k as int, pats.len() as int),
                line_no as int,
                line@,
                ex,
            ) == target,
        decreases pats.len() - k,
    {
        let caps = set.captures(k, line.as_str());
        let ghost before = models(matches@);
        offer_captures(matches, &caps, line_no, exclude);
        proof {
            let model = regex_captures(pats[k as int], line@);
            lemma_capture_candidates(caps@, model, line@);
            lemma_scan_captures_len(before, candidates(model, line@), line_no as int, ex);
        }
        assert(pats.subrange(k as int, pats.len() as int).drop_first() =~= pats.subrange(
            k + 1,
            pats.len() as int,
        ));
        k += 1;
    }
    proof {
        if k < pats.len() {
            lemma_full_patterns(
                models(matches@),
                pats.subrange(k as int, pats.len() as int),
                line_no as int,
                line@,
                ex,
            );
        } else {
            assert(pats.subrange(k as int, pats.len() as int) =~= Seq::<Seq<char>>::empty());
        }
    }
}

/// Scanning captures never takes the matches past the limit.
proof fn lemma_scan_captures_len(
    acc: Seq<MatchModel>,
    cands: Seq<Candidate>,
    line_no: int,
    exclude: Option<Seq<char>>,
)
    requires
        acc.len() <= match_limit(),
    ensures
        scan_captures(acc, cands, line_no, exclude).len() <= match_limit(),
    decreases cands.len(),
{
    if cands.len() > 0 {
        lemma_scan_captures_len(
            offer(acc, line_no, cands[0], exclude),
            cands.drop_first(),
            line_no,
            exclude,
        );
    }
}

/// Scanning with recognizers never takes the matches past the limit.
proof fn lemma_scan_patterns_len(
    acc: Seq<MatchModel>,
    pats: Seq<Seq<char>>,
    line_no: int,
    line: Seq<char>,
    exclude: Option<Seq<char>>,
)
    requires
        acc.len() <= match_limit(),
    ensures
        scan_patterns(acc, pats, line_no, line, exclude).len() <= match_limit(),
    decreases pats.len(),
{
    if pats.len() > 0 {
        let cands = candidates(regex_captures(pats[0], line), line);
        lemma_scan_captures_len(acc, cands, line_no, exclude);
        lemma_scan_patterns_len(
            scan_captures(acc, cands, line_no, exclude),
            pats.drop_first(),
            line_no,
            line,
            exclude,
        );
    }
}

/// Finds the tokens that the recognizers of `set` pick out of `content`, line
/// by line, recognizer by recognizer, left to right, and labels each new one
/// with the next hint key. A token equal to `exclude`, or to the text of an
/// earlier match, is skipped; scanning stops once every hint key is taken.
pub fn find_matches(set: &PatternSet, content: &str, exclude: Option<&str>) -> (r: Vec<Match>)
    ensures
        models(r@) == extract_model(set.sources(), content@, opt_view(exclude)),
        r.len() <= MAX_MATCHES,
        r.len() <= match_limit(),
        match_limit() == HINT_COUNT,
        forall|i: int| 0 <= i < r.len() ==> #[trigger] r[i].hint == hint_of(i),
        forall|i: int, j: int| 0 <= i < j < r.len() ==> r[i].hint != r[j].hint,
        forall|i: int, j: int| 0 <= i < j < r.len() ==> r[i].text@ != r[j].text@,
        forall|i: int| 0 <= i < r.len() ==> opt_view(exclude) != Some(#[trigger] r[i].text@),
        placed(models(r@), lines_of(content@)),
{
    let ghost ex = opt_view(exclude);
    let ghost pats = set.sources();
    let lines = split_lines(content);
    let ghost ls = lines@.map_values(|l: String| l@);
    let ghost target = extract_model(pats, content@, ex);
    let mut matches: Vec<Match> = Vec::new();
    assert(ls.subrange(0, ls.len() as int) =~= ls);
    assert(models(matches@) =~= Seq::<MatchModel>::empty());
    let mut i: usize = 0;
    while i < lines.len() && matches.len() < MAX_MATCHES && matches.len() < HINT_COUNT
        invariant
            i <= ls.len(),
            ls == lines@.map_values(|l: String| l@),
            ls == lines_of(content@),
            pats == set.sources(),
            ex == opt_view(exclude),
            target == extract_model(pats, content@, ex),
            models(matches@).len() <= match_limit(),
            scan_lines(models(matches@), ls.subrange(i as int, ls.len() as int), i as int, pats, ex)
                == target,
        decreases ls.len() - i,
    {
        let ghost before = models(matches@);
        scan_line(set, &mut matches, &lines[i], i, exclude);
        proof {
            lemma_scan_patterns_len(before, pats, i as int, ls[i as int], ex);
        }
        assert(ls.subrange(i as int, ls.len() as int).drop_first() =~= ls.subrange(
            i + 1,
            ls.len() as int,
        ));
        i += 1;
    }
    proof {
        if i < ls.len() {
            lemma_full_lines(
                models(matches@),
                ls.subrange(i as int, ls.len() as int),
                i as int,
                pats,
                ex,
            );
        } else {
            assert(ls.subrange(i as int, ls.len() as int) =~= Seq::<Seq<char>>::empty());
        }
        lemma_scan_lines(Seq::<MatchModel>::empty(), ls, 0, pats, ex);
        law_matches_placed(pats, content@, ex);
        let r = models(matches@);
        assert forall|i: int, j: int| 0 <= i < j < matches.len() implies matches[i].hint
            != matches[j].hint by {
            assert(r[i].hint == hint_of(i));
            assert(r[j].hint == hint_of(j));
            lemma_hints_distinct(i, j);
        }
        assert forall|i: int, j: int| 0 <= i < j < matches.len() implies matches[i].text@
            != matches[j].text@ by {
            assert(r[i].text != r[j].text);
        }
        assert forall|i: int| 0 <= i < matches.len() implies ex != Some(
            #[trigger] matches[i].text@,
        ) by {
            assert(ex != Some(r[i].text));
        }
        assert forall|i: int| 0 <= i < matches.len() implies #[trigger] matches[i].hint
            == hint_of(i) by {
            assert(r[i].hint == hint_of(i));
        }
    }
    matches
}

/// Running recognizers `pats` is running the first `j` of them, then the rest
/// on what those found.
pub proof fn lemma_patterns_split(
    acc: Seq<MatchModel>,
    pats: Seq<Seq<char>>,
    line_no: int,
    line: Seq<char>,
    exclude: Option<Seq<char>>,
    j: int,
)
    requires
        0 <= j <= pats.len(),
    ensures
        scan_patterns(acc, pats, line_no, line, exclude) == scan_patterns(
            scan_patterns(acc, pats.take(j), line_no, line, exclude),
            pats.skip(j),
            line_no,
            line,
            exclude,
        ),
    decreases pats.len(),
{
    if j == 0 {
        assert(pats.take(0) =~= Seq::<Seq<char>>::empty());
        assert(pats.skip(0) =~= pats);
    } else {
        let next = scan_captures(acc, candidates(regex_captures(pats[0], line), line), line_no, exclude);
        lemma_patterns_split(next, pats.drop_first(), line_no, line, exclude, j - 1);
        assert(pats.take(j)[0] == pats[0]);
        assert(pats.take(j).drop_first() =~= pats.drop_first().take(j - 1));
        assert(pats.skip(j) =~= pats.drop_first().skip(j - 1));
    }
}

/// Recognizer priority: on a line, whatever the first `j` recognizers find is
/// recorded first and kept, in front of anything that later recognizers find;
/// and a later recognizer adds no token whose text an earlier one already
/// recorded, while one with a new text is added after them.
pub proof fn law_pattern_priority(
    acc: Seq<MatchModel>,
    pats: Seq<Seq<char>>,
    line_no: int,
    line: Seq<char>,
    exclude: Option<Seq<char>>,
    j: int,
)
    requires
        well_formed(acc, exclude),
        0 <= j <= pats.len(),
    ensures
        ({
            let early = scan_patterns(acc, pats.take(j), line_no, line, exclude);
            let all = scan_patterns(acc, pats, line_no, line, exclude);
            &&& all == scan_patterns(early, pats.skip(j), line_no, line, exclude)
            &&& early.len() <= all.len()
            &&& all.subrange(0, early.len() as int) == early
            &&& forall|k: int, m: int|
                early.len() <= k < all.len() && 0 <= m < early.len() ==> all[k].text
                    != early[m].text
        }),
{
    let early = scan_patterns(acc, pats.take(j), line_no, line, exclude);
    lemma_patterns_split(acc, pats, line_no, line, exclude, j);
    lemma_scan_patterns(acc, pats.take(j), line_no, line, exclude);
    lemma_scan_patterns(early, pats.skip(j), line_no, line, exclude);
    let all = scan_patterns(acc, pats, line_no, line, exclude);
    assert forall|k: int, m: int| early.len() <= k < all.len() && 0 <= m < early.len() implies all[k].text
        != early[m].text by {
        assert(early[m] == all.subrange(0, early.len() as int)[m]);
    }
}

/// Extraction depends on its inputs alone: two runs over the same text, with
/// the same recognizers and the same excluded text, give the same matches in
/// the same order with the same hints.
pub proof fn law_deterministic(
    pats: Seq<Seq<char>>,
    content: Seq<char>,
    exclude: Option<Seq<char>>,
    first: Seq<MatchModel>,
    second: Seq<MatchModel>,
)
    requires
        first == extract_model(pats, content, exclude),
        second == extract_model(pats, content, exclude),
    ensures
        first == second,
{
}

/// Empty text yields no matches.
pub proof fn law_empty_input(pats: Seq<Seq<char>>, exclude: Option<Seq<char>>)
    ensures
        extract_model(pats, Seq::<char>::empty(), exclude) == Seq::<MatchModel>::empty(),
{
    assert(lines_of(Seq::<char>::empty()) == Seq::<Seq<char>>::empty());
}

/// Every match of `acc` is the text between its start and end on its line of `lines`.
pub open spec fn placed(acc: Seq<MatchModel>, lines: Seq<Seq<char>>) -> bool {
    forall|i: int|
        0 <= i < acc.len() ==> {
            &&& 0 <= #[trigger] acc[i].line < lines.len()
            &&& acc[i].text == lines[acc[i].line].subrange(acc[i].start, acc[i].end)
        }
}

/// Tokens cut from line `line_no` keep the matches placed.
proof fn lemma_placed_captures(
    acc: Seq<MatchModel>,
    cands: Seq<Candidate>,
    line_no: int,
    lines: Seq<Seq<char>>,
    exclude: Option<Seq<char>>,
)
    requires
        placed(acc, lines),
        0 <= line_no < lines.len(),
        forall|k: int|
            0 <= k < cands.len() ==> (#[trigger] cands[k]).0 == lines[line_no].subrange(
                cands[k].1,
                cands[k].2,
            ),
    ensures
        placed(scan_captures(acc, cands, line_no, exclude), lines),
    decreases cands.len(),
{
    if cands.len() > 0 {
        let next = offer(acc, line_no, cands[0], exclude);
        assert(placed(next, lines));
        assert forall|k: int| 0 <= k < cands.drop_first().len() implies (
        #[trigger] cands.drop_first()[k]).0 == lines[line_no].subrange(
            cands.drop_first()[k].1,
            cands.drop_first()[k].2,
        ) by {
            assert(cands.drop_first()[k] == cands[k + 1]);
        }
        lemma_placed_captures(next, cands.drop_first(), line_no, lines, exclude);
    }
}

/// Running recognizers over line `line_no` keeps the matches placed.
proof fn lemma_placed_patterns(
    acc: Seq<MatchModel>,
    pats: Seq<Seq<char>>,
    line_no: int,
    lines: Seq<Seq<char>>,
    exclude: Option<Seq<char>>,
)
    requires
        placed(acc, lines),
        0 <= line_no < lines.len(),
    ensures
        placed(scan_patterns(acc, pats, line_no, lines[line_no], exclude), lines),
    decreases pats.len(),
{
    if pats.len() > 0 {
        let line = lines[line_no];
        let cands = candidates(regex_captures(pats[0], line), line);
        lemma_placed_captures(acc, cands, line_no, lines, exclude);
        lemma_placed_patterns(
            scan_captures(acc, cands, line_no, exclude),
            pats.drop_first(),
            line_no,
            lines,
            exclude,
        );
    }
}

/// Scanning the lines `rest`, which are `lines` from `line_no` on, keeps the
/// matches placed.
proof fn lemma_placed_lines(
    acc: Seq<MatchModel>,
    rest: Seq<Seq<char>>,
    line_no: int,
    lines: Seq<Seq<char>>,
    pats: Seq<Seq<char>>,
    exclude: Option<Seq<char>>,
)
    requires
        placed(acc, lines),
        0 <= line_no,
        line_no + rest.len() == lines.len(),
        forall|k: int| 0 <= k < rest.len() ==> #[trigger] rest[k] == lines[line_no + k],
    ensures
        placed(scan_lines(acc, rest, line_no, pats, exclude), lines),
    decreases rest.len(),
{
    if rest.len() > 0 {
        assert(rest[0] == lines[line_no]);
        lemma_placed_patterns(acc, pats, line_no, lines, exclude);
        assert forall|k: int| 0 <= k < rest.drop_first().len() implies #[trigger] rest.drop_first()[k]
            == lines[line_no + 1 + k] by {
            assert(rest.drop_first()[k] == rest[k + 1]);
        }
        lemma_placed_lines(
            scan_patterns(acc, pats, line_no, rest[0], exclude),
            rest.drop_first(),
            line_no + 1,
            lines,
            pats,
            exclude,
        );
    }
}

/// Each match lies where it says: on a line of the text, and its text is
/// the characters of that line from its start up to its end.
pub proof fn law_matches_placed(
    pats: Seq<Seq<char>>,
    content: Seq<char>,
    exclude: Option<Seq<char>>,
)
    ensures
        placed(extract_model(pats, content, exclude), lines_of(content)),
{
    let lines = lines_of(content);
    lemma_placed_lines(Seq::<MatchModel>::empty(), lines, 0, lines, pats, exclude);
}

/// Scanning lines `lines` is scanning the first `k` of them, then the rest
/// on what those found.
pub proof fn lemma_lines_split(
    acc: Seq<MatchModel>,
    lines: Seq<Seq<char>>,
    line_no: int,
    pats: Seq<Seq<char>>,
    exclude: Option<Seq<char>>,
    k: int,
)
    requires
        0 <= k <= lines.len(),
    ensures
        scan_lines(acc, lines, line_no, pats, exclude) == scan_lines(
            scan_lines(acc, lines.take(k), line_no, pats, exclude),
            lines.skip(k),
            line_no + k,
            pats,
            exclude,
        ),
    decreases lines.len(),
{
    if k == 0 {
        assert(lines.take(0) =~= Seq::<Seq<char>>::empty());
        assert(lines.skip(0) =~= lines);
    } else {
        let next = scan_patterns(acc, pats, line_no, lines[0], exclude);
        lemma_lines_split(next, lines.drop_first(), line_no + 1, pats, exclude, k - 1);
        assert(lines.take(k)[0] == lines[0]);
        assert(lines.take(k).drop_first() =~= lines.drop_first().take(k - 1));
        assert(lines.skip(k) =~= lines.drop_first().skip(k - 1));
    }
}

/// Recognizer priority over a whole text: on line `k`, whatever the first
/// `j` recognizers find is recorded, in front of anything that later
/// recognizers find on that line and of anything on later lines; and a later
/// recognizer adds no token on that line whose text an earlier one already
/// recorded there, while one with a new text is added after them.
pub proof fn law_pattern_priority_in_text(
    pats: Seq<Seq<char>>,
    content: Seq<char>,
    exclude: Option<Seq<char>>,
    k: int,
    j: int,
)
    requires
        0 <= k < lines_of(content).len(),
        0 <= j <= pats.len(),
    ensures
        ({
            let lines = lines_of(content);
            let before = scan_lines(seq![], lines.take(k), 0, pats, exclude);
            let early = scan_patterns(before, pats.take(j), k, lines[k], exclude);
            let on_line = scan_patterns(before, pats, k, lines[k], exclude);
            let result = extract_model(pats, content, exclude);
            &&& early.len() <= on_line.len() <= result.len()
            &&& result.subrange(0, early.len() as int) == early
            &&& result.subrange(0, on_line.len() as int) == on_line
            &&& on_line == scan_patterns(early, pats.skip(j), k, lines[k], exclude)
            &&& forall|a: int, m: int|
                early.len() <= a < on_line.len() && 0 <= m < early.len() ==> result[a].text
                    != early[m].text
        }),
{
    let lines = lines_of(content);
    let empty = Seq::<MatchModel>::empty();
    let before = scan_lines(empty, lines.take(k), 0, pats, exclude);
    let early = scan_patterns(before, pats.take(j), k, lines[k], exclude);
    let on_line = scan_patterns(before, pats, k, lines[k], exclude);
    let result = extract_model(pats, content, exclude);
    assert(well_formed(empty, exclude));
    lemma_scan_lines(empty, lines.take(k), 0, pats, exclude);
    law_pattern_priority(before, pats, k, lines[k], exclude, j);
    lemma_scan_patterns(before, pats, k, lines[k], exclude);
    lemma_lines_split(empty, lines, 0, pats, exclude, k);
    let rest = lines.skip(k);
    assert(rest[0] == lines[k]);
    assert(rest.drop_first() =~= lines.skip(k + 1));
    assert(scan_lines(before, rest, k, pats, exclude) == scan_lines(
        on_line,
        lines.skip(k + 1),
        k + 1,
        pats,
        exclude,
    ));
    lemma_scan_lines(on_line, lines.skip(k + 1), k + 1, pats, exclude);
    assert(result == scan_lines(on_line, lines.skip(k + 1), k + 1, pats, exclude));
    assert(result.subrange(0, early.len() as int) =~= on_line.subrange(0, early.len() as int));
    assert forall|a: int, m: int|
        early.len() <= a < on_line.len() && 0 <= m < early.len() implies result[a].text
        != early[m].text by {
        assert(result[a] == result.subrange(0, on_line.len() as int)[a]);
    }
}

/// Offering tokens `cands` is offering the first `c` of them, then the rest
/// on what those gave.
pub proof fn lemma_captures_split(
    acc: Seq<MatchModel>,
    cands: Seq<Candidate>,
    line_no: int,
    exclude: Option<Seq<char>>,
    c: int,
)
    requires
        0 <= c <= cands.len(),
    ensures
        scan_captures(acc, cands, line_no, exclude) == scan_captures(
            scan_captures(acc, cands.take(c), line_no, exclude),
            cands.skip(c),
            line_no,
            exclude,
        ),
    decreases cands.len(),
{
    if c == 0 {
        assert(cands.take(0) =~= Seq::<Candidate>::empty());
        assert(cands.skip(0) =~= cands);
    } else {
        let next = offer(acc, line_no, cands[0], exclude);
        lemma_captures_split(next, cands.drop_first(), line_no, exclude, c - 1);
        assert(cands.take(c)[0] == cands[0]);
        assert(cands.take(c).drop_first() =~= cands.drop_first().take(c - 1));
        assert(cands.skip(c) =~= cands.drop_first().skip(c - 1));
    }
}

/// The match that token `x` of line `line_no` becomes when it joins `pre`.
pub open spec fn recorded(pre: Seq<MatchModel>, line_no: int, x: Candidate) -> MatchModel {
    MatchModel { text: x.0, line: line_no, start: x.1, end: x.2, hint: hint_of(pre.len() as int) }
}

/// A token found by recognizer `i` on line `k` (its capture `c`) that comes
/// while there is room, is not the excluded text, and has a text not yet
/// recorded, is recorded with its own line, start and end, and stays in the
/// result at the place it took.
pub proof fn law_new_token_recorded(
    pats: Seq<Seq<char>>,
    content: Seq<char>,
    exclude: Option<Seq<char>>,
    k: int,
    i: int,
    c: int,
)
    requires
        0 <= k < lines_of(content).len(),
        0 <= i < pats.len(),
        0 <= c < regex_captures(pats[i], lines_of(content)[k]).len(),
    ensures
        ({
            let lines = lines_of(content);
            let cands = candidates(regex_captures(pats[i], lines[k]), lines[k]);
            let before = scan_lines(seq![], lines.take(k), 0, pats, exclude);
            let mid = scan_patterns(before, pats.take(i), k, lines[k], exclude);
            let pre = scan_captures(mid, cands.take(c), k, exclude);
            let result = extract_model(pats, content, exclude);
            accepts(pre, cands[c].0, exclude) ==> pre.len() < result.len() && result[pre.len() as int]
                == recorded(pre, k, cands[c])
        }),
{
    let lines = lines_of(content);
    let line = lines[k];
    let cands = candidates(regex_captures(pats[i], line), line);
    let empty = Seq::<MatchModel>::empty();
    let before = scan_lines(empty, lines.take(k), 0, pats, exclude);
    let mid = scan_patterns(before, pats.take(i), k, line, exclude);
    let pre = scan_captures(mid, cands.take(c), k, exclude);
    let result = extract_model(pats, content, exclude);
    if accepts(pre, cands[c].0, exclude) {
        assert(well_formed(empty, exclude));
        lemma_scan_lines(empty, lines.take(k), 0, pats, exclude);
        lemma_scan_patterns(before, pats.take(i), k, line, exclude);
        lemma_scan_captures(mid, cands.take(c), k, exclude);
        let with_x = offer(pre, k, cands[c], exclude);
        lemma_offer(pre, k, cands[c], exclude);
        // the captures of recognizer `i` after `x`
        lemma_captures_split(mid, cands, k, exclude, c);
        let tail = cands.skip(c);
        assert(tail[0] == cands[c]);
        let after_i = scan_captures(mid, cands, k, exclude);
        assert(after_i == scan_captures(with_x, tail.drop_first(), k, exclude));
        lemma_scan_captures(with_x, tail.drop_first(), k, exclude);
        assert(after_i[pre.len() as int] == with_x.subrange(0, with_x.len() as int)[pre.len() as int]);
        // the recognizers after `i` on line `k`
        law_pattern_priority(before, pats, k, line, exclude, i + 1);
        let early = scan_patterns(before, pats.take(i + 1), k, line, exclude);
        lemma_patterns_split(before, pats.take(i + 1), k, line, exclude, i);
        assert(pats.take(i + 1).take(i) =~= pats.take(i));
        let one = pats.take(i + 1).skip(i);
        assert(one.len() == 1 && one[0] == pats[i]);
        assert(one.drop_first() =~= Seq::<Seq<char>>::empty());
        assert(scan_patterns(after_i, one.drop_first(), k, line, exclude) == after_i);
        assert(scan_patterns(mid, one, k, line, exclude) == after_i);
        assert(early == after_i);
        // the lines after `k`
        law_pattern_priority_in_text(pats, content, exclude, k, i + 1);
        assert(result[pre.len() as int] == result.subrange(0, early.len() as int)[pre.len() as int]);
    }
}

} // verus!
