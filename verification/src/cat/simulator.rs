//! Deterministic transcript parsing and replay.
//!
//! The fixture format is deliberately line-oriented and dependency-free so firmware,
//! Swift, host tools, and a future Android adapter can consume the same records:
//! `delay_ms|command|response`. A blank response models a SET with no immediate
//! response. `!timeout` models expiration. Metadata uses `# key=value`.
use vstd::prelude::*;

use crate::cat::{
    chunk_views, reply_view, Exchange, ExchangeRecord, ExchangeView, IoError, Profile, RadioIo,
    ReplyView, ResponseWindow,
};

verus! {

// ---------------------------------------------------------------------------
// Text primitives
// ---------------------------------------------------------------------------

/// Whether a character is Unicode white space, as `char::is_whitespace` reports.
pub open spec fn is_ws(c: char) -> bool {
    c == '\t' || c == '\n' || c == '\u{0B}' || c == '\u{0C}' || c == '\r' || c == ' ' || c == '\u{85}'
        || c == '\u{A0}' || c == '\u{1680}' || ('\u{2000}' <= c && c <= '\u{200A}') || c
        == '\u{2028}' || c == '\u{2029}' || c == '\u{202F}' || c == '\u{205F}' || c == '\u{3000}'
}

/// The text without its leading white space.
pub open spec fn trim_start(s: Seq<char>) -> Seq<char>
    decreases s.len(),
{
    if s.len() > 0 && is_ws(s[0]) {
        trim_start(s.drop_first())
    } else {
        s
    }
}

/// The text without its trailing white space.
pub open spec fn trim_end(s: Seq<char>) -> Seq<char>
    decreases s.len(),
{
    if s.len() > 0 && is_ws(s.last()) {
        trim_end(s.drop_last())
    } else {
        s
    }
}

/// The text without leading and trailing white space.
pub open spec fn trim(s: Seq<char>) -> Seq<char> {
    trim_end(trim_start(s))
}

/// The position of the first `c` in `s`.
pub open spec fn first_index(s: Seq<char>, c: char) -> Option<nat>
    decreases s.len(),
{
    if s.len() == 0 {
        None
    } else if s[0] == c {
        Some(0)
    } else {
        match first_index(s.drop_first(), c) {
            Some(i) => Some(i + 1),
            None => None,
        }
    }
}

/// The text before and after the first `c`.
pub open spec fn split_once(s: Seq<char>, c: char) -> Option<(Seq<char>, Seq<char>)> {
    match first_index(s, c) {
        Some(i) => Some((s.subrange(0, i as int), s.subrange(i as int + 1, s.len() as int))),
        None => None,
    }
}

/// The pieces of `s` between occurrences of `c`.
pub open spec fn split_all(s: Seq<char>, c: char) -> Seq<Seq<char>>
    decreases s.len(),
{
    match first_index(s, c) {
        Some(i) => {
            if i < s.len() {
                seq![s.subrange(0, i as int)] + split_all(s.subrange(i as int + 1, s.len() as int), c)
            } else {
                seq![s]
            }
        },
        None => seq![s],
    }
}

/// Whether `s` begins with `prefix`.
pub open spec fn has_prefix(s: Seq<char>, prefix: Seq<char>) -> bool {
    prefix.len() <= s.len() && s.subrange(0, prefix.len() as int) == prefix
}

/// Whether `s` ends with `c`.
pub open spec fn ends_with(s: Seq<char>, c: char) -> bool {
    s.len() > 0 && s.last() == c
}

/// Whether every character is ASCII.
pub open spec fn ascii_chars(s: Seq<char>) -> bool {
    forall|i: int| 0 <= i < s.len() ==> (#[trigger] s[i]) <= '\u{7f}'
}

/// The value of a decimal digit.
pub open spec fn digit_value(c: char) -> int {
    c as int - '0' as int
}

/// Whether every character is a decimal digit.
pub open spec fn all_digits(s: Seq<char>) -> bool {
    forall|i: int| 0 <= i < s.len() ==> '0' <= #[trigger] s[i] && s[i] <= '9'
}

/// The value of a decimal numeral.
pub open spec fn digits_value(s: Seq<char>) -> int
    decreases s.len(),
{
    if s.len() == 0 {
        0
    } else {
        digits_value(s.drop_last()) * 10 + digit_value(s.last())
    }
}

/// A `u64` in decimal, with an optional `+`, as `u64::from_str` reads it.
pub open spec fn parse_u64(s: Seq<char>) -> Option<u64> {
    let digits = if s.len() > 0 && s[0] == '+' {
        s.drop_first()
    } else {
        s
    };
    if digits.len() == 0 || !all_digits(digits) || digits_value(digits) > u64::MAX {
        None
    } else {
        Some(digits_value(digits) as u64)
    }
}

proof fn lemma_first_index_found(s: Seq<char>, c: char, i: int)
    requires
        0 <= i < s.len(),
        s[i] == c,
        forall|j: int| 0 <= j < i ==> s[j] != c,
    ensures
        first_index(s, c) == Some(i as nat),
    decreases i,
{
    if i > 0 {
        lemma_first_index_found(s.drop_first(), c, i - 1);
    }
}

proof fn lemma_first_index_absent(s: Seq<char>, c: char)
    requires
        forall|j: int| 0 <= j < s.len() ==> s[j] != c,
    ensures
        first_index(s, c) is None,
    decreases s.len(),
{
    if s.len() > 0 {
        lemma_first_index_absent(s.drop_first(), c);
    }
}

proof fn lemma_first_index_bound(s: Seq<char>, c: char)
    ensures
        first_index(s, c) matches Some(i) ==> i < s.len() && s[i as int] == c,
    decreases s.len(),
{
    if s.len() > 0 {
        lemma_first_index_bound(s.drop_first(), c);
    }
}

proof fn lemma_trim_start_at(s: Seq<char>, a: int)
    requires
        0 <= a <= s.len(),
        forall|j: int| 0 <= j < a ==> is_ws(#[trigger] s[j]),
        a == s.len() || !is_ws(s[a]),
    ensures
        trim_start(s) == s.subrange(a, s.len() as int),
    decreases a,
{
    if a > 0 {
        lemma_trim_start_at(s.drop_first(), a - 1);
        assert(s.drop_first().subrange(a - 1, s.len() - 1) =~= s.subrange(a, s.len() as int));
    } else {
        assert(s.subrange(0, s.len() as int) =~= s);
    }
}

proof fn lemma_trim_end_at(s: Seq<char>, b: int)
    requires
        0 <= b <= s.len(),
        forall|j: int| b <= j < s.len() ==> is_ws(#[trigger] s[j]),
        b == 0 || !is_ws(s[b - 1]),
    ensures
        trim_end(s) == s.subrange(0, b),
    decreases s.len() - b,
{
    if b < s.len() {
        lemma_trim_end_at(s.drop_last(), b);
        assert(s.drop_last().subrange(0, b) =~= s.subrange(0, b));
    } else {
        assert(s.subrange(0, s.len() as int) =~= s);
    }
}

proof fn lemma_digits_prefix(s: Seq<char>, i: int)
    requires
        0 <= i <= s.len(),
        all_digits(s),
    ensures
        digits_value(s.subrange(0, i)) <= digits_value(s),
        0 <= digits_value(s.subrange(0, i)),
    decreases s.len(),
{
    if i < s.len() {
        lemma_digits_prefix(s.drop_last(), i);
        assert(s.drop_last().subrange(0, i) =~= s.subrange(0, i));
        lemma_digits_nonnegative(s.drop_last());
    } else {
        assert(s.subrange(0, i) =~= s);
        lemma_digits_nonnegative(s);
    }
}

proof fn lemma_digits_nonnegative(s: Seq<char>)
    requires
        all_digits(s),
    ensures
        0 <= digits_value(s),
    decreases s.len(),
{
    if s.len() > 0 {
        lemma_digits_nonnegative(s.drop_last());
    }
}

/// The position of the first `c` in `s`.
pub fn find_char(s: &str, c: char) -> (index: Option<usize>)
    ensures
        match index {
            Some(i) => first_index(s@, c) == Some(i as nat),
            None => first_index(s@, c) is None,
        },
{
    let len = s.unicode_len();
    let mut index: usize = 0;
    while index < len
        invariant
            len == s@.len(),
            0 <= index <= len,
            forall|j: int| 0 <= j < index ==> s@[j] != c,
        decreases len - index,
    {
        if s.get_char(index) == c {
            proof {
                lemma_first_index_found(s@, c, index as int);
            }
            return Some(index);
        }
        index = index + 1;
    }
    proof {
        lemma_first_index_absent(s@, c);
    }
    None
}

/// The text before and after the first `c`.
pub fn split_once_str<'a>(s: &'a str, c: char) -> (parts: Option<(&'a str, &'a str)>)
    ensures
        match parts {
            Some((a, b)) => split_once(s@, c) == Some((a@, b@)),
            None => split_once(s@, c) is None,
        },
{
    proof {
        lemma_first_index_bound(s@, c);
    }
    match find_char(s, c) {
        Some(i) => {
            let len = s.unicode_len();
            Some((s.substring_char(0, i), s.substring_char(i + 1, len)))
        },
        None => None,
    }
}

/// The text without leading and trailing white space.
pub fn trim_str<'a>(s: &'a str) -> (trimmed: &'a str)
    ensures
        trimmed@ == trim(s@),
{
    let len = s.unicode_len();
    let mut a: usize = 0;
    while a < len && is_ws_char(s.get_char(a))
        invariant
            len == s@.len(),
            0 <= a <= len,
            forall|j: int| 0 <= j < a ==> is_ws(#[trigger] s@[j]),
        decreases len - a,
    {
        a = a + 1;
    }
    proof {
        lemma_trim_start_at(s@, a as int);
    }
    let ghost rest = s@.subrange(a as int, len as int);
    let mut b: usize = len;
    while b > a && is_ws_char(s.get_char(b - 1))
        invariant
            len == s@.len(),
            0 <= a <= b <= len,
            rest == s@.subrange(a as int, len as int),
            forall|j: int| b <= j < len ==> is_ws(#[trigger] s@[j]),
        decreases b - a,
    {
        b = b - 1;
    }
    proof {
        assert forall|j: int| b - a <= j < rest.len() implies is_ws(#[trigger] rest[j]) by {
            assert(rest[j] == s@[j + a]);
        }
        if b > a {
            assert(rest[b - a - 1] == s@[b - 1]);
        }
        lemma_trim_end_at(rest, b - a);
        assert(rest.subrange(0, b - a) =~= s@.subrange(a as int, b as int));
    }
    s.substring_char(a, b)
}

/// Whether a character is white space.
pub fn is_ws_char(c: char) -> (ws: bool)
    ensures
        ws == is_ws(c),
{
    c == '\t' || c == '\n' || c == '\u{0B}' || c == '\u{0C}' || c == '\r' || c == ' ' || c == '\u{85}'
        || c == '\u{A0}' || c == '\u{1680}' || ('\u{2000}' <= c && c <= '\u{200A}') || c
        == '\u{2028}' || c == '\u{2029}' || c == '\u{202F}' || c == '\u{205F}' || c == '\u{3000}'
}

/// Whether every character is ASCII.
pub fn is_ascii_str(s: &str) -> (ascii: bool)
    ensures
        ascii == ascii_chars(s@),
{
    let len = s.unicode_len();
    let mut index: usize = 0;
    while index < len
        invariant
            len == s@.len(),
            0 <= index <= len,
            forall|j: int| 0 <= j < index ==> (#[trigger] s@[j]) <= '\u{7f}',
        decreases len - index,
    {
        if s.get_char(index) > '\u{7f}' {
            return false;
        }
        index = index + 1;
    }
    true
}

/// Whether `s` ends with `c`.
pub fn ends_with_char(s: &str, c: char) -> (ends: bool)
    ensures
        ends == ends_with(s@, c),
{
    let len = s.unicode_len();
    len > 0 && s.get_char(len - 1) == c
}

/// Whether `s` is exactly the literal `lit`.
pub fn str_eq(s: &str, lit: &str) -> (equal: bool)
    ensures
        equal == (s@ == lit@),
{
    String::from_str(s) == String::from_str(lit)
}

/// A `u64` in decimal, with an optional `+`, as `u64::from_str` reads it.
#[verifier::loop_isolation(false)]
pub fn parse_u64_str(s: &str) -> (value: Option<u64>)
    ensures
        value == parse_u64(s@),
{
    let len = s.unicode_len();
    let start: usize = if len > 0 && s.get_char(0) == '+' {
        1
    } else {
        0
    };
    let ghost digits = if s@.len() > 0 && s@[0] == '+' {
        s@.drop_first()
    } else {
        s@
    };
    assert(digits =~= s@.subrange(start as int, len as int));
    if start == len {
        return None;
    }
    let mut value: u64 = 0;
    let mut index: usize = start;
    while index < len
        invariant
            len == s@.len(),
            digits == s@.subrange(start as int, len as int),
            start <= index <= len,
            forall|j: int| start <= j < index ==> '0' <= #[trigger] s@[j] && s@[j] <= '9',
            value == digits_value(s@.subrange(start as int, index as int)),
        decreases len - index,
    {
        let c = s.get_char(index);
        if c < '0' || c > '9' {
            assert(!all_digits(digits)) by {
                assert(digits[index - start] == c);
            }
            return None;
        }
        let d = (c as u32 - '0' as u32) as u64;
        assert(s@.subrange(start as int, index + 1).drop_last() =~= s@.subrange(start as int, index as int));
        if value > (u64::MAX - d) / 10 {
            proof {
                let wider = s@.subrange(start as int, index + 1);
                assert(digits_value(wider) == value * 10 + d);
                assert(value * 10 + d > u64::MAX) by (nonlinear_arith)
                    requires
                        value > (u64::MAX - d) / 10,
                        d <= 9,
                ;
                if all_digits(digits) {
                    lemma_digits_prefix(digits, index + 1 - start);
                    assert(digits.subrange(0, index + 1 - start) =~= wider);
                }
            }
            return None;
        }
        value = value * 10 + d;
        index = index + 1;
    }
    proof {
        assert(s@.subrange(start as int, len as int) =~= digits);
    }
    Some(value)
}

// ---------------------------------------------------------------------------
// Transcripts
// ---------------------------------------------------------------------------

/// Evidence class declared by a transcript.
#[derive(Clone, Copy, Debug, PartialEq, Eq, Structural)]
pub enum Provenance {
    /// Synthetic bytes and values derived from cited documents.
    DocumentDerived,
    /// Future bytes captured from a radio under human supervision.
    HumanCaptured,
}

/// Result supplied by a transcript step.
#[derive(Clone, Debug, PartialEq, Eq)]
pub enum StepOutcome {
    /// One response, split into the listed deterministic chunks.
    Response(Vec<Vec<u8>>),
    /// No immediate response to a SET command.
    NoResponse,
    /// The exchange times out, optionally with partial chunks.
    Timeout(Vec<Vec<u8>>),
}

/// The content of a [`StepOutcome`].
pub enum OutcomeView {
    Response(Seq<Seq<u8>>),
    NoResponse,
    Timeout(Seq<Seq<u8>>),
}

impl View for StepOutcome {
    type V = OutcomeView;

    open spec fn view(&self) -> OutcomeView {
        match self {
            StepOutcome::Response(chunks) => OutcomeView::Response(chunk_views(chunks@)),
            StepOutcome::NoResponse => OutcomeView::NoResponse,
            StepOutcome::Timeout(chunks) => OutcomeView::Timeout(chunk_views(chunks@)),
        }
    }
}

/// One deterministic transcript exchange.
#[derive(Clone, Debug, PartialEq, Eq)]
pub struct TranscriptStep {
    /// Delay before completion or timeout, in milliseconds.
    pub delay_ms: u64,
    /// Exact command expected from the core.
    pub command: String,
    /// Complete response bytes, an empty SET response, or timeout.
    pub outcome: StepOutcome,
}

/// The content of a [`TranscriptStep`].
pub struct StepView {
    pub delay_ms: u64,
    pub command: Seq<char>,
    pub outcome: OutcomeView,
}

impl View for TranscriptStep {
    type V = StepView;

    open spec fn view(&self) -> StepView {
        StepView { delay_ms: self.delay_ms, command: self.command@, outcome: self.outcome@ }
    }
}

/// Parsed cross-platform transcript fixture.
#[derive(Clone, Debug, PartialEq, Eq)]
pub struct Transcript {
    /// Evidence classification.
    pub provenance: Provenance,
    /// Explicit KX2 or KX3 profile.
    pub profile: Profile,
    /// Source URL or future capture artifact identifier.
    pub source: String,
    /// Ordered exchanges.
    pub steps: Vec<TranscriptStep>,
}

/// The content of a [`Transcript`].
pub struct TranscriptView {
    pub provenance: Provenance,
    pub profile: Profile,
    pub source: Seq<char>,
    pub steps: Seq<StepView>,
}

/// The views of transcript steps.
pub open spec fn step_views(steps: Seq<TranscriptStep>) -> Seq<StepView> {
    steps.map_values(|step: TranscriptStep| step@)
}

impl View for Transcript {
    type V = TranscriptView;

    open spec fn view(&self) -> TranscriptView {
        TranscriptView {
            provenance: self.provenance,
            profile: self.profile,
            source: self.source@,
            steps: step_views(self.steps@),
        }
    }
}

/// Fixture parsing failure.
#[derive(Clone, Debug, PartialEq, Eq)]
pub struct TranscriptError {
    /// One-based line number, or zero for missing file metadata.
    pub line: usize,
    /// Stable validation detail.
    pub detail: &'static str,
}

/// A parsing failure as plain values: the line and the detail.
pub type ErrorAt = (int, Seq<char>);

/// The view of a parsing failure.
pub open spec fn error_at(error: TranscriptError) -> ErrorAt {
    (error.line as int, error.detail@)
}

fn fail(line: usize, detail: &'static str) -> (error: TranscriptError)
    ensures
        error.line == line,
        error.detail == detail,
{
    TranscriptError { line, detail }
}

/// The bytes of an ASCII chunk.
pub open spec fn chunk_bytes(piece: Seq<char>) -> Seq<u8> {
    piece.map_values(|c: char| c as u8)
}

/// Whether a chunk is nonempty ASCII.
pub open spec fn chunk_ok(piece: Seq<char>) -> bool {
    piece.len() > 0 && ascii_chars(piece)
}

/// Response chunks separated by `~`: each nonempty ASCII.
pub open spec fn parse_chunks_spec(value: Seq<char>, line: int) -> Result<Seq<Seq<u8>>, ErrorAt> {
    let pieces = split_all(value, '~');
    if exists|i: int| 0 <= i < pieces.len() && !chunk_ok(#[trigger] pieces[i]) {
        Err((line, "response chunks must be nonempty ASCII"@))
    } else {
        Ok(pieces.map_values(|piece: Seq<char>| chunk_bytes(piece)))
    }
}

/// One replay record `delay_ms|command|response`.
pub open spec fn parse_step_spec(line: Seq<char>, n: int) -> Result<StepView, ErrorAt> {
    match split_once(line, '|') {
        None => match parse_u64(line) {
            None => Err((n, "delay must be milliseconds"@)),
            Some(_) => Err((n, "missing command"@)),
        },
        Some((delay_text, rest)) => match parse_u64(delay_text) {
            None => Err((n, "delay must be milliseconds"@)),
            Some(delay) => match split_once(rest, '|') {
                None => Err((n, "missing response field"@)),
                Some((command, response)) => if !ends_with(command, ';') || !ascii_chars(command) {
                    Err((n, "command must be semicolon-terminated ASCII"@))
                } else {
                    let outcome = if response.len() == 0 {
                        Ok(OutcomeView::NoResponse)
                    } else if response == "!timeout"@ {
                        Ok(OutcomeView::Timeout(Seq::empty()))
                    } else if has_prefix(response, "!timeout:"@) {
                        match parse_chunks_spec(response.subrange(9, response.len() as int), n) {
                            Ok(chunks) => Ok(OutcomeView::Timeout(chunks)),
                            Err(e) => Err(e),
                        }
                    } else {
                        match parse_chunks_spec(response, n) {
                            Err(e) => Err(e),
                            Ok(chunks) => if !ends_with(response, ';') {
                                Err((n, "complete response must end in a semicolon"@))
                            } else {
                                Ok(OutcomeView::Response(chunks))
                            },
                        }
                    };
                    match outcome {
                        Ok(o) => Ok(StepView { delay_ms: delay, command, outcome: o }),
                        Err(e) => Err(e),
                    }
                },
            },
        },
    }
}

/// What the metadata lines have declared so far, and the records read.
pub struct ParseState {
    pub provenance: Option<Provenance>,
    pub profile: Option<Profile>,
    pub source: Option<Seq<char>>,
    pub capture_id: Option<Seq<char>>,
    pub steps: Seq<StepView>,
}

/// One `# key=value` metadata line; a later value replaces an earlier one.
pub open spec fn parse_metadata_spec(line: Seq<char>, n: int, st: ParseState) -> Result<ParseState, ErrorAt> {
    match split_once(trim(line.drop_first()), '=') {
        None => Err((n, "metadata requires key=value"@)),
        Some((k, v)) => {
            let key = trim(k);
            let value = trim(v);
            if key == "provenance"@ {
                if value == "document-derived"@ {
                    Ok(ParseState { provenance: Some(Provenance::DocumentDerived), ..st })
                } else if value == "human-captured"@ {
                    Ok(ParseState { provenance: Some(Provenance::HumanCaptured), ..st })
                } else {
                    Err((n, "unknown provenance"@))
                }
            } else if key == "profile"@ {
                if value == "kx2"@ {
                    Ok(ParseState { profile: Some(Profile::Kx2), ..st })
                } else if value == "kx3"@ {
                    Ok(ParseState { profile: Some(Profile::Kx3), ..st })
                } else {
                    Err((n, "unknown profile"@))
                }
            } else if key == "source"@ {
                Ok(ParseState { source: Some(value), ..st })
            } else if key == "capture-id"@ {
                Ok(ParseState { capture_id: Some(value), ..st })
            } else {
                Err((n, "unknown metadata key"@))
            }
        },
    }
}

/// One line of a fixture: blank, metadata, or a replay record.
pub open spec fn parse_line_spec(st: ParseState, raw: Seq<char>, n: int) -> Result<ParseState, ErrorAt> {
    let line = trim(raw);
    if line.len() == 0 {
        Ok(st)
    } else if line[0] == '#' {
        parse_metadata_spec(line, n, st)
    } else {
        match parse_step_spec(line, n) {
            Ok(step) => Ok(ParseState { steps: st.steps.push(step), ..st }),
            Err(e) => Err(e),
        }
    }
}

/// The lines of a fixture, numbered from `n`.
pub open spec fn parse_lines_spec(st: ParseState, lines: Seq<Seq<char>>, n: int) -> Result<ParseState, ErrorAt>
    decreases lines.len(),
{
    if lines.len() == 0 {
        Ok(st)
    } else {
        match parse_line_spec(st, lines[0], n) {
            Err(e) => Err(e),
            Ok(next) => parse_lines_spec(next, lines.drop_first(), n + 1),
        }
    }
}

/// Nothing declared, nothing read.
pub open spec fn empty_state() -> ParseState {
    ParseState { provenance: None, profile: None, source: None, capture_id: None, steps: Seq::empty() }
}

/// A fixture: its lines in order, then the file-level requirements.
pub open spec fn transcript_spec(input: Seq<char>) -> Result<TranscriptView, ErrorAt> {
    match parse_lines_spec(empty_state(), split_all(input, '\n'), 1) {
        Err(e) => Err(e),
        Ok(st) => if st.provenance is None {
            Err((0, "missing provenance metadata"@))
        } else if st.profile is None {
            Err((0, "missing profile metadata"@))
        } else if st.source is None {
            Err((0, "missing source metadata"@))
        } else if st.source.unwrap().len() == 0 {
            Err((0, "source metadata must not be empty"@))
        } else if st.provenance == Some(Provenance::HumanCaptured) && (match st.capture_id {
            Some(c) => c.len() == 0,
            None => true,
        }) {
            Err((0, "human-captured transcript requires capture-id metadata"@))
        } else if st.steps.len() == 0 {
            Err((0, "transcript has no exchanges"@))
        } else {
            Ok(
                TranscriptView {
                    provenance: st.provenance.unwrap(),
                    profile: st.profile.unwrap(),
                    source: st.source.unwrap(),
                    steps: st.steps,
                },
            )
        }
    }
}

/// Whether `s` begins with `prefix`.
pub fn has_prefix_str(s: &str, prefix: &str) -> (starts: bool)
    ensures
        starts == has_prefix(s@, prefix@),
{
    let n = prefix.unicode_len();
    let len = s.unicode_len();
    if n > len {
        return false;
    }
    let mut index: usize = 0;
    while index < n
        invariant
            n == prefix@.len(),
            len == s@.len(),
            n <= len,
            0 <= index <= n,
            forall|i: int| 0 <= i < index ==> #[trigger] s@[i] == prefix@[i],
        decreases n - index,
    {
        if s.get_char(index) != prefix.get_char(index) {
            assert(s@.subrange(0, n as int)[index as int] != prefix@[index as int]);
            return false;
        }
        index = index + 1;
    }
    assert(s@.subrange(0, n as int) =~= prefix@);
    true
}

fn chunk_of(piece: &str) -> (bytes: Vec<u8>)
    requires
        ascii_chars(piece@),
    ensures
        bytes@ == chunk_bytes(piece@),
{
    let len = piece.unicode_len();
    let mut bytes: Vec<u8> = Vec::new();
    let mut index: usize = 0;
    while index < len
        invariant
            len == piece@.len(),
            0 <= index <= len,
            bytes@ == chunk_bytes(piece@.subrange(0, index as int)),
        decreases len - index,
    {
        let c = piece.get_char(index);
        bytes.push(c as u8);
        index = index + 1;
        assert(bytes@ =~= chunk_bytes(piece@.subrange(0, index as int)));
    }
    assert(piece@.subrange(0, len as int) =~= piece@);
    bytes
}

fn chunk_ok_str(piece: &str) -> (ok: bool)
    ensures
        ok == chunk_ok(piece@),
{
    piece.unicode_len() > 0 && is_ascii_str(piece)
}

proof fn lemma_split_step(s: Seq<char>, c: char, a: Seq<char>, b: Seq<char>)
    requires
        split_once(s, c) == Some((a, b)),
    ensures
        split_all(s, c) == seq![a] + split_all(b, c),
        b.len() < s.len(),
{
    lemma_first_index_bound(s, c);
}

proof fn lemma_split_last(s: Seq<char>, c: char)
    requires
        split_once(s, c) is None,
    ensures
        split_all(s, c) == seq![s],
{
}

fn parse_chunks(value: &str, line: usize) -> (result: Result<Vec<Vec<u8>>, TranscriptError>)
    ensures
        match result {
            Ok(chunks) => parse_chunks_spec(value@, line as int) == Ok::<Seq<Seq<u8>>, ErrorAt>(
                chunk_views(chunks@),
            ),
            Err(e) => parse_chunks_spec(value@, line as int) == Err::<Seq<Seq<u8>>, ErrorAt>(error_at(e)),
        },
{
    let ghost pieces = split_all(value@, '~');
    let mut chunks: Vec<Vec<u8>> = Vec::new();
    let mut rest = value;
    let ghost mut done: Seq<Seq<char>> = Seq::empty();
    assert(done + split_all(rest@, '~') =~= pieces);
    loop
        invariant
            pieces == split_all(value@, '~'),
            done + split_all(rest@, '~') == pieces,
            forall|i: int| 0 <= i < done.len() ==> chunk_ok(#[trigger] done[i]),
            chunk_views(chunks@) == done.map_values(|piece: Seq<char>| chunk_bytes(piece)),
        decreases rest@.len(),
    {
        let (piece, after, last) = match split_once_str(rest, '~') {
            Some((a, b)) => {
                proof {
                    lemma_split_step(rest@, '~', a@, b@);
                }
                (a, b, false)
            },
            None => {
                proof {
                    lemma_split_last(rest@, '~');
                }
                (rest, rest, true)
            },
        };
        assert(pieces[done.len() as int] == piece@) by {
            assert((done + split_all(rest@, '~'))[done.len() as int] == split_all(rest@, '~')[0]);
        }
        if !chunk_ok_str(piece) {
            assert(!chunk_ok(pieces[done.len() as int]));
            return Err(fail(line, "response chunks must be nonempty ASCII"));
        }
        let bytes = chunk_of(piece);
        let ghost before = chunks@;
        chunks.push(bytes);
        proof {
            assert(chunk_views(chunks@) =~= chunk_views(before).push(bytes@));
            assert(done.push(piece@).map_values(|piece: Seq<char>| chunk_bytes(piece)) =~= done.map_values(
                |piece: Seq<char>| chunk_bytes(piece),
            ).push(chunk_bytes(piece@)));
            done = done.push(piece@);
        }
        if last {
            assert(done =~= pieces);
            assert(pieces.map_values(|piece: Seq<char>| chunk_bytes(piece)) == chunk_views(chunks@));
            return Ok(chunks);
        }
        proof {
            assert(done + split_all(after@, '~') =~= pieces);
        }
        rest = after;
    }
}

fn parse_step(line: &str, n: usize) -> (result: Result<TranscriptStep, TranscriptError>)
    ensures
        match result {
            Ok(step) => parse_step_spec(line@, n as int) == Ok::<StepView, ErrorAt>(step@),
            Err(e) => parse_step_spec(line@, n as int) == Err::<StepView, ErrorAt>(error_at(e)),
        },
{
    let (delay_text, rest) = match split_once_str(line, '|') {
        None => {
            return match parse_u64_str(line) {
                None => Err(fail(n, "delay must be milliseconds")),
                Some(_) => Err(fail(n, "missing command")),
            };
        },
        Some(parts) => parts,
    };
    let delay = match parse_u64_str(delay_text) {
        None => {
            return Err(fail(n, "delay must be milliseconds"));
        },
        Some(d) => d,
    };
    let (command, response) = match split_once_str(rest, '|') {
        None => {
            return Err(fail(n, "missing response field"));
        },
        Some(parts) => parts,
    };
    if !ends_with_char(command, ';') || !is_ascii_str(command) {
        return Err(fail(n, "command must be semicolon-terminated ASCII"));
    }
    let len = response.unicode_len();
    let outcome = if len == 0 {
        StepOutcome::NoResponse
    } else if str_eq(response, "!timeout") {
        let outcome = StepOutcome::Timeout(Vec::new());
        assert(outcome@ == OutcomeView::Timeout(Seq::empty())) by {
            assert(chunk_views(Seq::<Vec<u8>>::empty()) =~= Seq::<Seq<u8>>::empty());
        }
        outcome
    } else if has_prefix_str(response, "!timeout:") {
        proof {
            reveal_strlit("!timeout:");
        }
        let partial = response.substring_char(9, len);
        StepOutcome::Timeout(parse_chunks(partial, n)?)
    } else {
        let chunks = parse_chunks(response, n)?;
        if !ends_with_char(response, ';') {
            return Err(fail(n, "complete response must end in a semicolon"));
        }
        StepOutcome::Response(chunks)
    };
    Ok(TranscriptStep { delay_ms: delay, command: String::from_str(command), outcome })
}

/// What has been parsed so far.
struct ParseAcc {
    provenance: Option<Provenance>,
    profile: Option<Profile>,
    source: Option<String>,
    capture_id: Option<String>,
    steps: Vec<TranscriptStep>,
}

spec fn opt_text_view(text: Option<String>) -> Option<Seq<char>> {
    match text {
        Some(t) => Some(t@),
        None => None,
    }
}

impl View for ParseAcc {
    type V = ParseState;

    closed spec fn view(&self) -> ParseState {
        ParseState {
            provenance: self.provenance,
            profile: self.profile,
            source: opt_text_view(self.source),
            capture_id: opt_text_view(self.capture_id),
            steps: step_views(self.steps@),
        }
    }
}

impl ParseAcc {
    fn parse_metadata(&mut self, line: &str, n: usize) -> (result: Result<(), TranscriptError>)
        requires
            line@.len() > 0,
        ensures
            match parse_metadata_spec(line@, n as int, old(self)@) {
                Ok(next) => result is Ok && final(self)@ == next,
                Err(e) => result matches Err(x) && error_at(x) == e,
            },
    {
        let len = line.unicode_len();
        let body = trim_str(line.substring_char(1, len));
        assert(line@.subrange(1, len as int) =~= line@.drop_first());
        let (k, v) = match split_once_str(body, '=') {
            None => {
                return Err(fail(n, "metadata requires key=value"));
            },
            Some(parts) => parts,
        };
        let key = trim_str(k);
        let value = trim_str(v);
        if str_eq(key, "provenance") {
            if str_eq(value, "document-derived") {
                self.provenance = Some(Provenance::DocumentDerived);
            } else if str_eq(value, "human-captured") {
                self.provenance = Some(Provenance::HumanCaptured);
            } else {
                return Err(fail(n, "unknown provenance"));
            }
        } else if str_eq(key, "profile") {
            if str_eq(value, "kx2") {
                self.profile = Some(Profile::Kx2);
            } else if str_eq(value, "kx3") {
                self.profile = Some(Profile::Kx3);
            } else {
                return Err(fail(n, "unknown profile"));
            }
        } else if str_eq(key, "source") {
            self.source = Some(String::from_str(value));
        } else if str_eq(key, "capture-id") {
            self.capture_id = Some(String::from_str(value));
        } else {
            return Err(fail(n, "unknown metadata key"));
        }
        Ok(())
    }

    fn parse_line(&mut self, raw: &str, n: usize) -> (result: Result<(), TranscriptError>)
        ensures
            match parse_line_spec(old(self)@, raw@, n as int) {
                Ok(next) => result is Ok && final(self)@ == next,
                Err(e) => result matches Err(x) && error_at(x) == e,
            },
    {
        let line = trim_str(raw);
        if line.unicode_len() == 0 {
            return Ok(());
        }
        if line.get_char(0) == '#' {
            return self.parse_metadata(line, n);
        }
        let step = parse_step(line, n)?;
        let ghost before = self.steps@;
        self.steps.push(step);
        assert(step_views(self.steps@) =~= step_views(before).push(step@));
        Ok(())
    }
}

impl Transcript {
    /// Parse the stable line-oriented fixture format.
    ///
    /// An `Err` gives the line (or zero for file-level metadata) and a stable
    /// detail when metadata or a replay record is invalid.
    #[verifier::loop_isolation(false)]
    pub fn parse(input: &str) -> (result: Result<Transcript, TranscriptError>)
        ensures
            match result {
                Ok(t) => transcript_spec(input@) == Ok::<TranscriptView, ErrorAt>(t@),
                Err(e) => transcript_spec(input@) == Err::<TranscriptView, ErrorAt>(error_at(e)),
            },
    {
        let total = input.unicode_len();
        let mut acc = ParseAcc {
            provenance: None,
            profile: None,
            source: None,
            capture_id: None,
            steps: Vec::new(),
        };
        assert(acc@ == empty_state()) by {
            assert(step_views(acc.steps@) =~= Seq::<StepView>::empty());
        }
        let ghost outcome = parse_lines_spec(empty_state(), split_all(input@, '\n'), 1);
        let mut rest = input;
        let mut n: usize = 1;
        loop
            invariant
                parse_lines_spec(acc@, split_all(rest@, '\n'), n as int) == outcome,
                1 <= n,
                n - 1 + rest@.len() <= total,
                total == input@.len(),
            decreases rest@.len(),
        {
            let (line, after, last) = match split_once_str(rest, '\n') {
                Some((a, b)) => {
                    proof {
                        lemma_split_step(rest@, '\n', a@, b@);
                    }
                    (a, b, false)
                },
                None => {
                    proof {
                        lemma_split_last(rest@, '\n');
                    }
                    (rest, rest, true)
                },
            };
            let ghost lines = split_all(rest@, '\n');
            let ghost before = acc@;
            assert(lines[0] == line@);
            assert(lines.drop_first() =~= if last {
                Seq::<Seq<char>>::empty()
            } else {
                split_all(after@, '\n')
            });
            match acc.parse_line(line, n) {
                Ok(()) => {},
                Err(e) => {
                    return Err(e);
                },
            }
            assert(outcome == parse_lines_spec(acc@, lines.drop_first(), n + 1));
            if last {
                assert(outcome == Ok::<ParseState, ErrorAt>(acc@));
                break;
            }
            if after.unicode_len() == 0 {
                proof {
                    lemma_first_index_absent(after@, '\n');
                    assert(split_all(after@, '\n') == seq![after@]);
                    assert(trim(after@) =~= after@);
                    assert(parse_line_spec(acc@, after@, n + 1) == Ok::<ParseState, ErrorAt>(acc@));
                    assert(seq![after@].drop_first() =~= Seq::<Seq<char>>::empty());
                    assert(parse_lines_spec(acc@, Seq::<Seq<char>>::empty(), n + 2) == Ok::<ParseState, ErrorAt>(acc@));
                    assert(seq![after@][0] == after@);
                    assert(parse_lines_spec(acc@, seq![after@], n + 1) == Ok::<ParseState, ErrorAt>(acc@));
                    assert(outcome == Ok::<ParseState, ErrorAt>(acc@));
                }
                break;
            }
            rest = after;
            n = n + 1;
        }
        assert(outcome == Ok::<ParseState, ErrorAt>(acc@));
        let provenance = match acc.provenance {
            Some(p) => p,
            None => {
                return Err(fail(0, "missing provenance metadata"));
            },
        };
        let profile = match acc.profile {
            Some(p) => p,
            None => {
                return Err(fail(0, "missing profile metadata"));
            },
        };
        let source = match acc.source {
            Some(s) => s,
            None => {
                return Err(fail(0, "missing source metadata"));
            },
        };
        if source.as_str().unicode_len() == 0 {
            return Err(fail(0, "source metadata must not be empty"));
        }
        let capture_missing = match &acc.capture_id {
            Some(c) => c.as_str().unicode_len() == 0,
            None => true,
        };
        if provenance == Provenance::HumanCaptured && capture_missing {
            return Err(fail(0, "human-captured transcript requires capture-id metadata"));
        }
        if acc.steps.len() == 0 {
            return Err(fail(0, "transcript has no exchanges"));
        }
        Ok(Transcript { provenance, profile, source, steps: acc.steps })
    }
}

// ---------------------------------------------------------------------------
// Replay
// ---------------------------------------------------------------------------

/// Deterministic [`RadioIo`] implementation backed by one transcript.
pub struct Simulator {
    transcript: Transcript,
    replay: Replay,
}

/// Where a replay stands: records consumed, time, attempts, and the exchanges
/// since the replay started.
struct Replay {
    cursor: usize,
    elapsed_ms: u64,
    attempts: Vec<String>,
    log: Ghost<Seq<ExchangeRecord>>,
}

/// The replay state of a [`Simulator`].
pub struct SimulatorView {
    pub transcript: TranscriptView,
    pub cursor: nat,
    pub elapsed_ms: u64,
    pub attempts: Seq<Seq<char>>,
}

impl View for Simulator {
    type V = SimulatorView;

    closed spec fn view(&self) -> SimulatorView {
        replay_state(self.transcript@, self.replay)
    }
}

/// The replay state of `replay` over transcript `transcript`.
spec fn replay_state(transcript: TranscriptView, replay: Replay) -> SimulatorView {
    SimulatorView {
        transcript,
        cursor: replay.cursor as nat,
        elapsed_ms: replay.elapsed_ms,
        attempts: replay.attempts@.map_values(|a: String| a@),
    }
}

/// Saturating addition of milliseconds.
pub open spec fn add_ms(a: u64, b: u64) -> u64 {
    if a + b > u64::MAX {
        u64::MAX
    } else {
        (a + b) as u64
    }
}

/// What replaying `command` answers: the next record's outcome when the
/// command is the one it expects.
pub open spec fn replay_reply(v: SimulatorView, command: Seq<char>) -> ReplyView {
    if v.cursor >= v.transcript.steps.len() {
        Err("transcript_exhausted"@)
    } else {
        let step = v.transcript.steps[v.cursor as int];
        if step.command != command {
            Err("transcript_expected:"@ + step.command)
        } else {
            Ok(
                match step.outcome {
                    OutcomeView::Response(chunks) => ExchangeView::Complete {
                        chunks,
                        elapsed_ms: step.delay_ms,
                    },
                    OutcomeView::NoResponse => ExchangeView::Complete {
                        chunks: Seq::empty(),
                        elapsed_ms: step.delay_ms,
                    },
                    OutcomeView::Timeout(chunks) => ExchangeView::Timeout {
                        chunks,
                        elapsed_ms: step.delay_ms,
                    },
                },
            )
        }
    }
}

/// The replay state after `command`: the attempt is recorded, and a matching
/// record is consumed with its delay added to the clock.
pub open spec fn replay_next(v: SimulatorView, command: Seq<char>) -> SimulatorView {
    let logged = SimulatorView { attempts: v.attempts.push(command), ..v };
    if v.cursor < v.transcript.steps.len() && v.transcript.steps[v.cursor as int].command == command {
        SimulatorView {
            cursor: v.cursor + 1,
            elapsed_ms: add_ms(v.elapsed_ms, v.transcript.steps[v.cursor as int].delay_ms),
            ..logged
        }
    } else {
        logged
    }
}

/// The replay state before any exchange.
pub open spec fn replay_start(transcript: TranscriptView) -> SimulatorView {
    SimulatorView { transcript, cursor: 0, elapsed_ms: 0, attempts: Seq::empty() }
}

/// The replay state after the commands of `records`, in order, from `v`.
pub open spec fn replay_fold(v: SimulatorView, records: Seq<ExchangeRecord>) -> SimulatorView
    decreases records.len(),
{
    if records.len() == 0 {
        v
    } else {
        replay_next(replay_fold(v, records.drop_last()), records.last().command)
    }
}

/// Whether each record's reply is what replay answers its command, at the
/// state that the records before it lead to from `v`.
pub open spec fn replayed(v: SimulatorView, records: Seq<ExchangeRecord>) -> bool
    decreases records.len(),
{
    if records.len() == 0 {
        true
    } else {
        &&& replayed(v, records.drop_last())
        &&& records.last().reply == replay_reply(
            replay_fold(v, records.drop_last()),
            records.last().command,
        )
    }
}

/// Whether the replay state is the transcript's start moved by the logged
/// exchanges, each answered as replay answers it.
spec fn replay_consistent(transcript: TranscriptView, replay: Replay) -> bool {
    &&& replay_state(transcript, replay) == replay_fold(replay_start(transcript), replay.log@)
    &&& replayed(replay_start(transcript), replay.log@)
}

fn copy_chunks(chunks: &Vec<Vec<u8>>) -> (copy: Vec<Vec<u8>>)
    ensures
        chunk_views(copy@) == chunk_views(chunks@),
{
    let mut copy: Vec<Vec<u8>> = Vec::new();
    let mut index: usize = 0;
    while index < chunks.len()
        invariant
            0 <= index <= chunks@.len(),
            chunk_views(copy@) == chunk_views(chunks@.subrange(0, index as int)),
        decreases chunks@.len() - index,
    {
        let chunk = vstd::slice::slice_to_vec(chunks[index].as_slice());
        let ghost before = copy@;
        copy.push(chunk);
        proof {
            let i = index as int;
            assert(copy@ == before.push(chunk));
            assert(chunk_views(before.push(chunk)) =~= chunk_views(before).push(chunk@));
            assert(chunks@.subrange(0, i + 1) =~= chunks@.subrange(0, i).push(chunks@[i]));
            assert(chunk_views(chunks@.subrange(0, i).push(chunks@[i])) =~= chunk_views(
                chunks@.subrange(0, i),
            ).push(chunks@[i]@));
        }
        index = index + 1;
    }
    assert(chunks@.subrange(0, chunks@.len() as int) =~= chunks@);
    copy
}

impl Replay {
    /// A replay that has consumed nothing.
    fn fresh() -> (replay: Replay)
        ensures
            replay.cursor == 0,
            replay.elapsed_ms == 0,
            replay.attempts@.map_values(|a: String| a@) == Seq::<Seq<char>>::empty(),
            replay.log@ == Seq::<ExchangeRecord>::empty(),
    {
        let replay = Replay { cursor: 0, elapsed_ms: 0, attempts: Vec::new(), log: Ghost(Seq::empty()) };
        assert(replay.attempts@.map_values(|a: String| a@) =~= Seq::<Seq<char>>::empty());
        replay
    }

    /// Replay one command against `transcript` and log the exchange.
    fn advance(&mut self, transcript: &Transcript, command: &str, window: ResponseWindow) -> (reply:
        Result<Exchange, IoError>)
        requires
            replay_consistent(transcript@, *old(self)),
        ensures
            reply_view(reply) == replay_reply(replay_state(transcript@, *old(self)), command@),
            replay_state(transcript@, *final(self)) == replay_next(
                replay_state(transcript@, *old(self)),
                command@,
            ),
            final(self).log@ == old(self).log@.push(
                ExchangeRecord { command: command@, window, reply: reply_view(reply) },
            ),
            replay_consistent(transcript@, *final(self)),
    {
        let reply = self.answer(transcript, command);
        proof {
            let record = ExchangeRecord { command: command@, window, reply: reply_view(reply) };
            let before = self.log@;
            self.log@ = before.push(record);
            assert(self.log@.drop_last() =~= before);
        }
        reply
    }

    fn answer(&mut self, transcript: &Transcript, command: &str) -> (reply: Result<Exchange, IoError>)
        ensures
            reply_view(reply) == replay_reply(replay_state(transcript@, *old(self)), command@),
            replay_state(transcript@, *final(self)) == replay_next(
                replay_state(transcript@, *old(self)),
                command@,
            ),
            final(self).log == old(self).log,
    {
        let ghost before = self.attempts@;
        self.attempts.push(String::from_str(command));
        assert(self.attempts@.map_values(|a: String| a@) =~= before.map_values(|a: String| a@).push(command@));
        if self.cursor >= transcript.steps.len() {
            return Err(IoError::new(String::from_str("transcript_exhausted")));
        }
        let step = &transcript.steps[self.cursor];
        if !str_eq(step.command.as_str(), command) {
            let ghost expected = step.command@;
            let kind = String::from_str("transcript_expected:").concat(step.command.as_str());
            return Err(IoError::new(kind));
        }
        let delay = step.delay_ms;
        let exchange = match &step.outcome {
            StepOutcome::Response(chunks) => Exchange::Complete { chunks: copy_chunks(chunks), elapsed_ms: delay },
            StepOutcome::NoResponse => {
                let exchange = Exchange::Complete { chunks: Vec::new(), elapsed_ms: delay };
                assert(chunk_views(Seq::<Vec<u8>>::empty()) =~= Seq::<Seq<u8>>::empty());
                exchange
            },
            StepOutcome::Timeout(chunks) => Exchange::Timeout { chunks: copy_chunks(chunks), elapsed_ms: delay },
        };
        self.cursor = self.cursor + 1;
        self.elapsed_ms = if self.elapsed_ms > u64::MAX - delay {
            u64::MAX
        } else {
            self.elapsed_ms + delay
        };
        Ok(exchange)
    }
}

impl Simulator {
    /// A simulator's replay state is the transcript's start moved by the
    /// exchanges since the replay started, and each of those exchanges was
    /// answered as replay answers it.
    #[verifier::type_invariant]
    pub closed spec fn replays(&self) -> bool {
        replay_consistent(self.transcript@, self.replay)
    }

    /// Create a simulator at the start of a transcript.
    pub fn new(transcript: Transcript) -> (simulator: Simulator)
        ensures
            simulator@ == replay_start(transcript@),
            simulator.exchanges() == Seq::<ExchangeRecord>::empty(),
    {
        let replay = Replay::fresh();
        Simulator { transcript, replay }
    }

    /// Parse a fixture and create a simulator.
    ///
    /// An `Err` is the line-addressed transcript validation error.
    pub fn from_fixture(input: &str) -> (result: Result<Simulator, TranscriptError>)
        ensures
            match result {
                Ok(simulator) => transcript_spec(input@) == Ok::<TranscriptView, ErrorAt>(
                    simulator@.transcript,
                ) && simulator@ == replay_start(simulator@.transcript)
                    && simulator.exchanges() == Seq::<ExchangeRecord>::empty(),
                Err(e) => transcript_spec(input@) == Err::<TranscriptView, ErrorAt>(error_at(e)),
            },
    {
        match Transcript::parse(input) {
            Ok(transcript) => Ok(Simulator::new(transcript)),
            Err(e) => Err(e),
        }
    }

    /// Transcript profile.
    pub fn profile(&self) -> (profile: Profile)
        ensures
            profile == self@.transcript.profile,
    {
        self.transcript.profile
    }

    /// Cumulative deterministic time, in milliseconds.
    pub fn elapsed(&self) -> (elapsed_ms: u64)
        ensures
            elapsed_ms == self@.elapsed_ms,
    {
        self.replay.elapsed_ms
    }

    /// Commands for which radio I/O was attempted.
    pub fn attempts(&self) -> (attempts: &[String])
        ensures
            attempts@.map_values(|a: String| a@) == self@.attempts,
    {
        self.replay.attempts.as_slice()
    }

    /// Number of replay records consumed.
    pub fn cursor(&self) -> (cursor: usize)
        ensures
            cursor == self@.cursor,
    {
        self.replay.cursor
    }

    /// Whether every transcript record was consumed.
    pub fn is_complete(&self) -> (complete: bool)
        ensures
            complete == (self@.cursor == self@.transcript.steps.len()),
    {
        self.replay.cursor == self.transcript.steps.len()
    }

    /// Reset replay position, time, and attempt log deterministically; the
    /// replay starts again, with no exchange since.
    pub fn reset(&mut self)
        ensures
            final(self)@ == replay_start(old(self)@.transcript),
            final(self).exchanges() == Seq::<ExchangeRecord>::empty(),
    {
        self.replay = Replay::fresh();
    }
}

impl RadioIo for Simulator {
    type Setup = TranscriptView;

    open spec fn setup(&self) -> TranscriptView {
        self@.transcript
    }

    closed spec fn exchanges(&self) -> Seq<ExchangeRecord> {
        self.replay.log@
    }

    fn exchange(&mut self, command: &str, window: ResponseWindow) -> (reply: Result<Exchange, IoError>)
        ensures
            reply_view(reply) == replay_reply(old(self)@, command@),
            final(self)@ == replay_next(old(self)@, command@),
    {
        proof {
            use_type_invariant(&*self);
        }
        let mut replay = Replay::fresh();
        std::mem::swap(&mut self.replay, &mut replay);
        let reply = replay.advance(&self.transcript, command, window);
        self.replay = replay;
        reply
    }
}

/// Replaying the records of `first` and then those of `second` is replaying
/// `first + second`.
pub proof fn lemma_replay_append(v: SimulatorView, first: Seq<ExchangeRecord>, second: Seq<ExchangeRecord>)
    ensures
        replay_fold(v, first + second) == replay_fold(replay_fold(v, first), second),
        replayed(v, first + second) == (replayed(v, first) && replayed(replay_fold(v, first), second)),
    decreases second.len(),
{
    if second.len() == 0 {
        assert(first + second =~= first);
    } else {
        lemma_replay_append(v, first, second.drop_last());
        assert((first + second).drop_last() =~= first + second.drop_last());
        assert((first + second).last() == second.last());
    }
}

/// A simulator answers every exchange from where the replay stood: between two
/// of its states with the same transcript, where the later exchange log
/// continues the earlier one, each new exchange was answered as replay answers
/// it from the earlier state, and the later state is the earlier one moved by
/// the new commands.
pub proof fn lemma_replay_continues(before: Simulator, after: Simulator)
    requires
        before.replays(),
        after.replays(),
        before.setup() == after.setup(),
        before.exchanges().len() <= after.exchanges().len(),
        after.exchanges().subrange(0, before.exchanges().len() as int) == before.exchanges(),
    ensures
        replayed(before@, after.exchanges().skip(before.exchanges().len() as int)),
        after@ == replay_fold(before@, after.exchanges().skip(before.exchanges().len() as int)),
{
    let n = before.exchanges().len() as int;
    let rest = after.exchanges().skip(n);
    assert(after.exchanges() =~= before.exchanges() + rest);
    lemma_replay_append(replay_start(before@.transcript), before.exchanges(), rest);
}

/// A simulator with no exchange beyond an earlier state of it is that state:
/// a request refused before any radio I/O leaves the cursor, the clock and the
/// attempts as they were.
pub proof fn lemma_no_exchange_no_change(before: Simulator, after: Simulator)
    requires
        before.replays(),
        after.replays(),
        before.setup() == after.setup(),
        after.exchanges() == before.exchanges(),
    ensures
        after@ == before@,
{
    assert(after.exchanges().subrange(0, before.exchanges().len() as int) =~= before.exchanges());
    assert(after.exchanges().skip(before.exchanges().len() as int) =~= Seq::<ExchangeRecord>::empty());
    lemma_replay_continues(before, after);
}

/// Two record sequences with the same commands, each replayed from the same
/// state, have the same replies and lead to the same state.
pub proof fn lemma_replay_same_commands(
    v: SimulatorView,
    first: Seq<ExchangeRecord>,
    second: Seq<ExchangeRecord>,
)
    requires
        first.len() == second.len(),
        forall|i: int| 0 <= i < first.len() ==> (#[trigger] first[i]).command == second[i].command,
        replayed(v, first),
        replayed(v, second),
    ensures
        replay_fold(v, first) == replay_fold(v, second),
        forall|i: int| 0 <= i < first.len() ==> (#[trigger] first[i]).reply == second[i].reply,
    decreases first.len(),
{
    if first.len() > 0 {
        let n = first.len() - 1;
        lemma_replay_same_commands(v, first.drop_last(), second.drop_last());
        assert forall|i: int| 0 <= i < first.len() implies (#[trigger] first[i]).reply
            == second[i].reply by {
            if i < n {
                assert(first.drop_last()[i] == first[i]);
                assert(second.drop_last()[i] == second[i]);
            }
        }
    }
}

/// A simulator answers as any other over the same transcript: where two
/// simulators have been sent the same commands since their replays started
/// (a reset one and a fresh one, say), they gave the same replies and stand in
/// the same replay state.
pub proof fn lemma_same_commands_same_replay(a: Simulator, b: Simulator)
    requires
        a.replays(),
        b.replays(),
        a.setup() == b.setup(),
        a.exchanges().len() == b.exchanges().len(),
        forall|i: int|
            0 <= i < a.exchanges().len() ==> (#[trigger] a.exchanges()[i]).command
                == b.exchanges()[i].command,
    ensures
        a@ == b@,
        forall|i: int|
            0 <= i < a.exchanges().len() ==> (#[trigger] a.exchanges()[i]).reply
                == b.exchanges()[i].reply,
{
    lemma_replay_same_commands(replay_start(a@.transcript), a.exchanges(), b.exchanges());
}

/// Replay is deterministic: what a command is answered, and how the replay
/// state moves, depends only on the transcript and the records consumed, so a
/// reset simulator answers exactly as a fresh one.
pub proof fn lemma_replay_is_deterministic(v: SimulatorView, w: SimulatorView, command: Seq<char>)
    requires
        v.transcript == w.transcript,
        v.cursor == w.cursor,
    ensures
        replay_reply(v, command) == replay_reply(w, command),
        replay_next(v, command).cursor == replay_next(w, command).cursor,
        v.elapsed_ms == w.elapsed_ms ==> replay_next(v, command).elapsed_ms == replay_next(
            w,
            command,
        ).elapsed_ms,
{
}

} // verus!
