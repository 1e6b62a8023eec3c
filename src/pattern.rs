//! The recognizers: regular expressions run over one line at a time.
use regex::Regex;
use vstd::prelude::*;

verus! {

#[verifier::external_type_specification]
#[verifier::external_body]
pub struct ExRegex(regex::Regex);

#[verifier::external_type_specification]
#[verifier::external_body]
pub struct ExRegexError(regex::Error);

/// HTTP and HTTPS URLs.
pub const URL_PATTERN: &'static str = r#"https?://[^\s<>"{}|\\^`\[\]]+"#;

/// Absolute and relative file paths, including those under `~`.
pub const PATH_PATTERN: &'static str = r"(?:~|\.{1,2})?/[a-zA-Z0-9._@\-/]+";

/// A line of short version-control status: the file after the status markers.
pub const STATUS_PATTERN: &'static str = r"^[\sMADRCU?!]{2,3}([^\s].+?)$";

/// A line of a long directory listing: the name after the time stamp.
pub const LISTING_PATTERN: &'static str = r"^[drwx-]{10}.*[\d:]+\s+(.+)$";

/// A line of a process table in `F S UID PID` layout: the process id.
pub const PID_PATTERN: &'static str = r"^\s*\d+\s+[A-Z]\s+\d+\s+(\d{3,7})\b";

/// Content hashes, abbreviated or full.
pub const HASH_PATTERN: &'static str = r"\b[0-9a-f]{7,40}\b";

/// IPv4 addresses (the groups are not range checked).
pub const IPV4_PATTERN: &'static str = r"\b(?:\d{1,3}\.){3}\d{1,3}\b";

/// The sources of the standard recognizers, in priority order.
pub open spec fn standard_sources() -> Seq<Seq<char>> {
    seq![
        URL_PATTERN@,
        PATH_PATTERN@,
        STATUS_PATTERN@,
        LISTING_PATTERN@,
        PID_PATTERN@,
        HASH_PATTERN@,
        IPV4_PATTERN@,
    ]
}

/// What a regular expression compiled from `pattern` finds in `line`: its
/// successive non-overlapping matches, left to right, each as the character
/// span of the whole match and the character span of group 1 where that group
/// took part.
pub uninterp spec fn regex_captures(pattern: Seq<char>, line: Seq<char>) -> Seq<
    (int, int, Option<(int, int)>),
>;

/// A stretch of a line, in characters, with the text it covers.
pub struct Span {
    pub start: usize,
    pub end: usize,
    pub text: String,
}

impl Span {
    /// This span is the character range `(s, e)` of `line`.
    pub open spec fn covers(&self, s: int, e: int, line: Seq<char>) -> bool {
        &&& self.start == s
        &&& self.end == e
        &&& 0 <= s <= e <= line.len()
        &&& self.text@ == line.subrange(s, e)
    }
}

/// One match of a recognizer: the whole span and, where the recognizer has a
/// group that took part, the span of that group.
pub struct Capture {
    pub whole: Span,
    pub group: Option<Span>,
}

impl Capture {
    /// This capture is the model capture `c` of `line`.
    pub open spec fn agrees(&self, c: (int, int, Option<(int, int)>), line: Seq<char>) -> bool {
        &&& self.whole.covers(c.0, c.1, line)
        &&& match c.2 {
            Some(g) => self.group is Some && self.group->Some_0.covers(g.0, g.1, line),
            None => self.group is None,
        }
    }
}

/// The captures `caps` are, one for one, the model captures `model` of `line`.
pub open spec fn captures_agree(
    caps: Seq<Capture>,
    model: Seq<(int, int, Option<(int, int)>)>,
    line: Seq<char>,
) -> bool {
    &&& caps.len() == model.len()
    &&& forall|i: int| 0 <= i < caps.len() ==> #[trigger] caps[i].agrees(model[i], line)
}

/// Whether a regular expression can be compiled from `pattern`: it is valid
/// and its compiled form stays within the default size limit.
pub uninterp spec fn regex_compiles(pattern: Seq<char>) -> bool;

/// Relies on regex::Regex::new, which compiles a pattern or reports why it
/// cannot; whether it can depends on the pattern alone.
#[verifier::external_body]
fn compile(source: &str) -> (r: Result<Regex, regex::Error>)
    ensures
        r is Ok == regex_compiles(source@),
{
    Regex::new(source)
}

/// Why a recognizer could not be built.
#[derive(Debug, Clone, Copy, PartialEq, Eq, Structural)]
pub enum PatternError {
    /// The source is not a valid regular expression, or compiles too large.
    Invalid,
}

/// A compiled recognizer, which keeps the source it was compiled from.
pub struct Pattern {
    source: String,
    regex: Regex,
}

impl View for Pattern {
    type V = Seq<char>;

    closed spec fn view(&self) -> Seq<char> {
        self.source@
    }
}

/// Relies on regex::Regex::captures_iter for the successive matches of a line,
/// and on regex::Match::start, end and as_str for where each lies and what it
/// holds (byte offsets, turned into character counts here).
#[verifier::external_body]
fn captures_in(pattern: &Pattern, line: &str) -> (r: Vec<Capture>)
    ensures
        captures_agree(r@, regex_captures(pattern@, line@), line@),
{
    let span = |m: regex::Match| Span {
        start: line[..m.start()].chars().count(),
        end: line[..m.end()].chars().count(),
        text: m.as_str().to_string(),
    };
    pattern.regex.captures_iter(line).map(|c| Capture {
        whole: span(c.get(0).unwrap()),
        group: c.get(1).map(span),
    }).collect()
}

impl Pattern {
    /// Compiles `source`.
    pub fn new(source: &str) -> (r: Result<Pattern, PatternError>)
        ensures
            r is Ok == regex_compiles(source@),
            r matches Ok(p) ==> p@ == source@,
            r matches Err(e) ==> e == PatternError::Invalid,
    {
        match compile(source) {
            Ok(regex) => Ok(Pattern { source: source.to_owned(), regex }),
            Err(_) => Err(PatternError::Invalid),
        }
    }

    /// The source this recognizer was compiled from.
    pub fn source(&self) -> (r: &str)
        ensures
            r@ == self@,
    {
        self.source.as_str()
    }

    /// All matches of this recognizer in `line`, left to right.
    pub fn captures(&self, line: &str) -> (r: Vec<Capture>)
        ensures
            captures_agree(r@, regex_captures(self@, line@), line@),
    {
        captures_in(self, line)
    }
}

/// An ordered list of recognizers; the order is also hint priority.
pub struct PatternSet {
    patterns: Vec<Pattern>,
}

impl PatternSet {
    /// The sources of the recognizers, in order.
    pub closed spec fn sources(&self) -> Seq<Seq<char>> {
        self.patterns@.map_values(|p: Pattern| p@)
    }

    /// Compiles `sources`, in order.
    pub fn from_sources(sources: &Vec<&str>) -> (r: Result<PatternSet, PatternError>)
        ensures
            r is Ok == (forall|j: int|
                0 <= j < sources@.len() ==> regex_compiles(#[trigger] sources@[j]@)),
            r matches Ok(s) ==> s.sources() == sources@.map_values(|x: &str| x@),
            r matches Err(e) ==> e == PatternError::Invalid,
    {
        let mut patterns: Vec<Pattern> = Vec::new();
        for i in 0..sources.len()
            invariant
                patterns@.len() == i,
                forall|j: int| 0 <= j < i ==> #[trigger] patterns@[j]@ == sources@[j]@,
                forall|j: int| 0 <= j < i ==> regex_compiles(#[trigger] sources@[j]@),
        {
            match Pattern::new(sources[i]) {
                Ok(p) => patterns.push(p),
                Err(e) => return Err(e),
            }
        }
        let r = PatternSet { patterns };
        assert(r.sources() =~= sources@.map_values(|x: &str| x@));
        Ok(r)
    }

    /// The standard recognizers: URL, path, status line, listing line,
    /// process id, hash, IPv4 address.
    pub fn standard() -> (r: Result<PatternSet, PatternError>)
        ensures
            r is Ok == (forall|k: int|
                0 <= k < standard_sources().len() ==> regex_compiles(#[trigger] standard_sources()[k])),
            r matches Ok(s) ==> s.sources() == standard_sources(),
            r matches Err(e) ==> e == PatternError::Invalid,
    {
        let sources: Vec<&str> = vec![
            URL_PATTERN,
            PATH_PATTERN,
            STATUS_PATTERN,
            LISTING_PATTERN,
            PID_PATTERN,
            HASH_PATTERN,
            IPV4_PATTERN,
        ];
        let r = PatternSet::from_sources(&sources);
        let ghost views = sources@.map_values(|x: &str| x@);
        assert(views =~= standard_sources());
        assert((forall|j: int| 0 <= j < sources@.len() ==> regex_compiles(#[trigger] sources@[j]@))
            == (forall|k: int| 0 <= k < views.len() ==> regex_compiles(#[trigger] views[k])));
        r
    }

    /// The number of recognizers.
    pub fn len(&self) -> (r: usize)
        ensures
            r == self.sources().len(),
    {
        self.patterns.len()
    }

    /// All matches of the `k`-th recognizer in `line`, left to right.
    pub fn captures(&self, k: usize, line: &str) -> (r: Vec<Capture>)
        requires
            k < self.sources().len(),
        ensures
            captures_agree(r@, regex_captures(self.sources()[k as int], line@), line@),
    {
        self.patterns[k].captures(line)
    }
}

} // verus!
