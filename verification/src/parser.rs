//! Score parsing: text → note-event timeline.
//!
//! Every error carries its 1-based line and column (counted in characters),
//! and a `Score` is produced only once the whole text has been checked.
//!
//! The numeric values of `@BPM` and `@VOL` are decimal floating-point
//! numbers; judging them (parse, then range check) is left to the caller,
//! which answers each `NumberQuery` with a `NumberVerdict` and parses again
//! with the verdicts given so far.  Parsing is deterministic, so the queries
//! come in the same order on every pass.
use vstd::prelude::*;
use crate::keymap::{Keymap, KeymapView};
use crate::model::{waveform_named, NoteEvent, Score, ScoreParams, ScoreParamsView, ScoreView, Waveform};
use crate::text::{
    chars_of, find_char, find_from, is_whitespace, is_ws, lemma_find_from_bounds, lines, lower,
    lower_chars, owned, push_int, push_one, push_str, slice_chars, spells, split_lines, string_of, trim, trim_chars,
};

verus! {

/// Lowest pitch an octave-shifted note may reach (C2).
pub const PITCH_MIN: i32 = 36;

/// Highest pitch an octave-shifted note may reach (C7).
pub const PITCH_MAX: i32 = 96;

/// What went wrong in a score.
#[derive(Debug, Clone, PartialEq, Eq)]
pub enum ParseErrorKind {
    /// The score has no note (it is empty, or only comments and rests).
    EmptyScore,
    /// A character that is neither a note character nor score syntax.
    UnknownCharacter(char),
    /// A `.` that does not follow a note.
    LoneDot,
    /// A directive after the first note.
    DirectiveAfterNotes(String),
    /// A directive given twice.
    DuplicateDirective(String),
    /// An unknown directive.
    UnknownDirective(String),
    /// A directive value that is not a number.
    DirectiveValueInvalid(String, String),
    /// A directive value outside its range.
    DirectiveValueOutOfRange { name: String, value: String, range: String },
    /// An octave-shifted note outside C2–C7.
    PitchOutOfRange { c: char, midi: i32 },
}

/// A located parse error.
#[derive(Debug, Clone, PartialEq, Eq)]
pub struct ParseError {
    /// 1-based line.
    pub line: usize,
    /// 1-based column, in characters.
    pub col: usize,
    pub kind: ParseErrorKind,
}

pub enum ErrorKindView {
    EmptyScore,
    UnknownCharacter(char),
    LoneDot,
    DirectiveAfterNotes(Seq<char>),
    DuplicateDirective(Seq<char>),
    UnknownDirective(Seq<char>),
    DirectiveValueInvalid(Seq<char>, Seq<char>),
    DirectiveValueOutOfRange { name: Seq<char>, value: Seq<char>, range: Seq<char> },
    PitchOutOfRange { c: char, midi: i32 },
}

impl View for ParseErrorKind {
    type V = ErrorKindView;

    open spec fn view(&self) -> ErrorKindView {
        match self {
            ParseErrorKind::EmptyScore => ErrorKindView::EmptyScore,
            ParseErrorKind::UnknownCharacter(c) => ErrorKindView::UnknownCharacter(*c),
            ParseErrorKind::LoneDot => ErrorKindView::LoneDot,
            ParseErrorKind::DirectiveAfterNotes(n) => ErrorKindView::DirectiveAfterNotes(n@),
            ParseErrorKind::DuplicateDirective(n) => ErrorKindView::DuplicateDirective(n@),
            ParseErrorKind::UnknownDirective(n) => ErrorKindView::UnknownDirective(n@),
            ParseErrorKind::DirectiveValueInvalid(n, v) => ErrorKindView::DirectiveValueInvalid(
                n@,
                v@,
            ),
            ParseErrorKind::DirectiveValueOutOfRange { name, value, range } =>
                ErrorKindView::DirectiveValueOutOfRange { name: name@, value: value@, range: range@ },
            ParseErrorKind::PitchOutOfRange { c, midi } => ErrorKindView::PitchOutOfRange {
                c: *c,
                midi: *midi,
            },
        }
    }
}

pub struct ParseErrorView {
    pub line: int,
    pub col: int,
    pub kind: ErrorKindView,
}

impl View for ParseError {
    type V = ParseErrorView;

    open spec fn view(&self) -> ParseErrorView {
        ParseErrorView { line: self.line as int, col: self.col as int, kind: self.kind@ }
    }
}

fn err(line: usize, col: usize, kind: ParseErrorKind) -> (res: ParseError)
    ensures
        res@ == (ParseErrorView { line: line as int, col: col as int, kind: kind@ }),
{
    ParseError { line, col, kind }
}

/// The caller's judgement of an `@BPM` / `@VOL` value.
#[derive(Clone, Copy, Debug, PartialEq, Eq, Structural)]
pub enum NumberVerdict {
    /// A number inside the directive's range.
    Accepted,
    /// Not a number.
    NotANumber,
    /// A number outside the directive's range.
    OutOfRange,
}

/// A directive value the caller is asked to judge: `name` is `bpm` or `vol`,
/// `value` the trimmed value text.
#[derive(Debug, Clone, PartialEq, Eq)]
pub struct NumberQuery {
    pub name: String,
    pub value: String,
}

/// What one parsing pass comes to.
#[derive(Debug, Clone)]
pub enum ParseOutcome {
    Parsed(Score),
    Failed(ParseError),
    NeedsVerdict(NumberQuery),
}

pub enum OutcomeView {
    Parsed(ScoreView),
    Failed(ParseErrorView),
    NeedsVerdict(Seq<char>, Seq<char>),
}

impl View for ParseOutcome {
    type V = OutcomeView;

    open spec fn view(&self) -> OutcomeView {
        match self {
            ParseOutcome::Parsed(s) => OutcomeView::Parsed(s@),
            ParseOutcome::Failed(e) => OutcomeView::Failed(e@),
            ParseOutcome::NeedsVerdict(q) => OutcomeView::NeedsVerdict(q.name@, q.value@),
        }
    }
}

// ---------------------------------------------------------------------------
// The parse, as a specification
// ---------------------------------------------------------------------------

/// Everything the parse carries from one character to the next.
pub struct ParseState {
    /// Current time, in half beats.
    pub cursor: int,
    pub notes: Seq<NoteEvent>,
    pub saw_note: bool,
    pub seen_bpm: bool,
    pub seen_vol: bool,
    pub seen_wave: bool,
    pub bpm: Option<Seq<char>>,
    pub volume: Option<Seq<char>>,
    pub wave: Waveform,
    /// Number of verdicts consumed.
    pub used: int,
    /// Position of the last character looked at.
    pub last_line: int,
    pub last_col: int,
}

/// How the scan of one line ends: on to the next line, with a final
/// outcome, or at a pitch whose arithmetic leaves its integer types.
pub enum LineStep {
    Next(ParseState),
    Stop(OutcomeView),
    Overflow,
}

pub open spec fn failed(line: int, col: int, kind: ErrorKindView) -> OutcomeView {
    OutcomeView::Failed(ParseErrorView { line, col, kind })
}

/// Number of consecutive `x` in `s` starting at `j`.
pub open spec fn run_len(s: Seq<char>, j: int, x: char) -> nat
    decreases s.len() - j,
{
    if 0 <= j < s.len() && s[j] == x {
        1 + run_len(s, j + 1, x)
    } else {
        0
    }
}

pub proof fn lemma_run_len_bound(s: Seq<char>, j: int, x: char)
    requires
        0 <= j <= s.len(),
    ensures
        j + run_len(s, j, x) <= s.len(),
    decreases s.len() - j,
{
    if j < s.len() && s[j] == x {
        lemma_run_len_bound(s, j + 1, x);
    }
}

/// First space or tab in `s` at or after `from` (`s.len()` when none).
pub open spec fn find_blank(s: Seq<char>, from: int) -> int
    decreases s.len() - from,
{
    if from >= s.len() {
        s.len() as int
    } else if s[from] == ' ' || s[from] == '\t' {
        from
    } else {
        find_blank(s, from + 1)
    }
}

/// Applies the verdict on an `@BPM` (`is_bpm`) or `@VOL` value.
pub open spec fn number_step(
    verdicts: Seq<NumberVerdict>,
    name: Seq<char>,
    value: Seq<char>,
    range: Seq<char>,
    is_bpm: bool,
    lno: int,
    col: int,
    st: ParseState,
) -> LineStep {
    if st.used < 0 || st.used >= verdicts.len() {
        LineStep::Stop(OutcomeView::NeedsVerdict(name, value))
    } else {
        match verdicts[st.used] {
            NumberVerdict::Accepted => LineStep::Next(
                if is_bpm {
                    ParseState { seen_bpm: true, bpm: Some(value), used: st.used + 1, ..st }
                } else {
                    ParseState { seen_vol: true, volume: Some(value), used: st.used + 1, ..st }
                },
            ),
            NumberVerdict::NotANumber => LineStep::Stop(
                failed(lno, col, ErrorKindView::DirectiveValueInvalid(name, value)),
            ),
            NumberVerdict::OutOfRange => LineStep::Stop(
                failed(
                    lno,
                    col,
                    ErrorKindView::DirectiveValueOutOfRange { name, value, range },
                ),
            ),
        }
    }
}

/// Applies a directive `name=value` (name lower-cased, both trimmed).
pub open spec fn apply_directive(
    verdicts: Seq<NumberVerdict>,
    name: Seq<char>,
    value: Seq<char>,
    lno: int,
    col: int,
    st: ParseState,
) -> LineStep {
    if name == "bpm"@ {
        if st.seen_bpm {
            LineStep::Stop(failed(lno, col, ErrorKindView::DuplicateDirective(name)))
        } else {
            number_step(verdicts, name, value, "20-300"@, true, lno, col, st)
        }
    } else if name == "vol"@ {
        if st.seen_vol {
            LineStep::Stop(failed(lno, col, ErrorKindView::DuplicateDirective(name)))
        } else {
            number_step(verdicts, name, value, "0-1"@, false, lno, col, st)
        }
    } else if name == "wave"@ {
        if st.seen_wave {
            LineStep::Stop(failed(lno, col, ErrorKindView::DuplicateDirective(name)))
        } else {
            match waveform_named(value) {
                Some(w) => LineStep::Next(ParseState { seen_wave: true, wave: w, ..st }),
                None => LineStep::Stop(
                    failed(
                        lno,
                        col,
                        ErrorKindView::DirectiveValueOutOfRange {
                            name,
                            value,
                            range: "sine | square | saw"@,
                        },
                    ),
                ),
            }
        }
    } else {
        LineStep::Stop(failed(lno, col, ErrorKindView::UnknownDirective(name)))
    }
}

/// A directive starting with the `@` at `line[i]`: its token runs up to the
/// next space or tab, and the rest of the line is not read.
pub open spec fn directive_step(
    verdicts: Seq<NumberVerdict>,
    line: Seq<char>,
    lno: int,
    i: int,
    st: ParseState,
) -> LineStep {
    let col = i + 1;
    let e = find_blank(line, i + 1);
    let token = line.subrange(i + 1, e);
    let q = find_from(token, 0, '=');
    if st.saw_note {
        LineStep::Stop(failed(lno, col, ErrorKindView::DirectiveAfterNotes(lower(token.take(q)))))
    } else if q >= token.len() {
        LineStep::Stop(failed(lno, col, ErrorKindView::UnknownDirective(token)))
    } else {
        apply_directive(verdicts, lower(trim(token.take(q))), trim(token.skip(q + 1)), lno, col, st)
    }
}

/// The scan of line `lno` from column `i + 1` on, under `oct` octave shifts.
pub open spec fn scan_line(
    km: KeymapView,
    verdicts: Seq<NumberVerdict>,
    line: Seq<char>,
    lno: int,
    i: int,
    oct: int,
    st0: ParseState,
) -> LineStep
    decreases line.len() - i,
{
    if i < 0 || i >= line.len() {
        LineStep::Next(st0)
    } else {
        let c = line[i];
        let col = i + 1;
        let st = ParseState { last_line: lno, last_col: col, ..st0 };
        if c == '#' {
            LineStep::Next(st)
        } else if c == '@' {
            directive_step(verdicts, line, lno, i, st)
        } else if is_ws(c) || c == '=' || c == '-' {
            scan_line(km, verdicts, line, lno, i + 1, oct, ParseState { cursor: st.cursor + 2, ..st })
        } else if c == '^' {
            scan_line(km, verdicts, line, lno, i + 1, oct + 1, st)
        } else if c == '_' {
            scan_line(km, verdicts, line, lno, i + 1, oct - 1, st)
        } else if c == '.' {
            LineStep::Stop(failed(lno, col, ErrorKindView::LoneDot))
        } else if km.order.contains(c) {
            let k = run_len(line, i, c);
            let d = run_len(line, i + k, '.');
            let dur = 2 * k + d;
            if !km.resolve_fits(c, oct) {
                LineStep::Overflow
            } else {
                let midi = km.pitch(c, oct);
                if oct != 0 && !(PITCH_MIN <= midi <= PITCH_MAX) {
                    LineStep::Stop(
                        failed(lno, col, ErrorKindView::PitchOutOfRange { c, midi: midi as i32 }),
                    )
                } else {
                    proof {
                        lemma_run_len_bound(line, i, c);
                        lemma_run_len_bound(line, i + k, '.');
                    }
                    scan_line(
                        km,
                        verdicts,
                        line,
                        lno,
                        i + k + d,
                        oct,
                        ParseState {
                            cursor: st.cursor + dur,
                            notes: st.notes.push(
                                NoteEvent {
                                    start_half_beats: st.cursor as u64,
                                    dur_half_beats: dur as u64,
                                    midi: midi as u8,
                                },
                            ),
                            saw_note: true,
                            ..st
                        },
                    )
                }
            }
        } else {
            LineStep::Stop(failed(lno, col, ErrorKindView::UnknownCharacter(c)))
        }
    }
}

/// The outcome once every line has been read.
pub open spec fn finish(st: ParseState) -> OutcomeView {
    if st.notes.len() == 0 {
        failed(st.last_line, st.last_col, ErrorKindView::EmptyScore)
    } else {
        OutcomeView::Parsed(
            ScoreView {
                notes: st.notes,
                params: ScoreParamsView { bpm: st.bpm, volume: st.volume, waveform: st.wave },
            },
        )
    }
}

/// The scan of lines `ls[k..]`, the first of them numbered `k + 1`; `None`
/// when some pitch computation leaves its integer types.
pub open spec fn scan_lines(
    km: KeymapView,
    verdicts: Seq<NumberVerdict>,
    ls: Seq<Seq<char>>,
    k: int,
    st: ParseState,
) -> Option<OutcomeView>
    decreases ls.len() - k,
{
    if k < 0 || k >= ls.len() {
        Some(finish(st))
    } else {
        match scan_line(km, verdicts, ls[k], k + 1, 0, 0, st) {
            LineStep::Next(st2) => scan_lines(km, verdicts, ls, k + 1, st2),
            LineStep::Stop(o) => Some(o),
            LineStep::Overflow => None,
        }
    }
}

/// The state before the first character: the default waveform is the
/// configured one when it names a waveform, and square otherwise.
pub open spec fn initial_state(default_wave: Seq<char>) -> ParseState {
    ParseState {
        cursor: 0,
        notes: Seq::empty(),
        saw_note: false,
        seen_bpm: false,
        seen_vol: false,
        seen_wave: false,
        bpm: None,
        volume: None,
        wave: match waveform_named(default_wave) {
            Some(w) => w,
            None => Waveform::Square,
        },
        used: 0,
        last_line: 1,
        last_col: 1,
    }
}

/// The outcome of parsing `text`; `None` when the pitch arithmetic of some
/// note leaves its integer types (a line carrying hundreds of millions of
/// octave marks).
pub open spec fn parse_result(
    text: Seq<char>,
    km: KeymapView,
    default_wave: Seq<char>,
    verdicts: Seq<NumberVerdict>,
) -> Option<OutcomeView> {
    scan_lines(km, verdicts, lines(text), 0, initial_state(default_wave))
}

} // verus!

verus! {

// ---------------------------------------------------------------------------
// The parse, as code
// ---------------------------------------------------------------------------

/// Executable counterpart of `ParseState`.
struct Progress {
    cursor: u64,
    notes: Vec<NoteEvent>,
    saw_note: bool,
    seen_bpm: bool,
    seen_vol: bool,
    seen_wave: bool,
    bpm: Option<Vec<char>>,
    volume: Option<Vec<char>>,
    wave: Waveform,
    used: usize,
    last_line: usize,
    last_col: usize,
}

spec fn opt_chars(o: Option<Vec<char>>) -> Option<Seq<char>> {
    match o {
        Some(v) => Some(v@),
        None => None,
    }
}

impl View for Progress {
    type V = ParseState;

    closed spec fn view(&self) -> ParseState {
        ParseState {
            cursor: self.cursor as int,
            notes: self.notes@,
            saw_note: self.saw_note,
            seen_bpm: self.seen_bpm,
            seen_vol: self.seen_vol,
            seen_wave: self.seen_wave,
            bpm: opt_chars(self.bpm),
            volume: opt_chars(self.volume),
            wave: self.wave,
            used: self.used as int,
            last_line: self.last_line as int,
            last_col: self.last_col as int,
        }
    }
}

/// How the scan of a line ended, in code.
enum Flow {
    Continue,
    Done(ParseOutcome),
    Overflow,
}

/// Does `step` agree with how a line scan ended and what it left behind?
spec fn flow_matches(step: LineStep, res: Flow, after: ParseState) -> bool {
    match step {
        LineStep::Next(st) => res is Continue && after == st,
        LineStep::Stop(o) => res matches Flow::Done(r) && r@ == o,
        LineStep::Overflow => res is Overflow,
    }
}

/// Does `step` agree with what a scan returned and left behind?
spec fn step_matches(step: LineStep, res: Option<ParseOutcome>, after: ParseState) -> bool {
    match step {
        LineStep::Next(st) => res is None && after == st,
        LineStep::Stop(o) => res matches Some(r) && r@ == o,
        LineStep::Overflow => false,
    }
}

fn find_blank_exec(v: &Vec<char>, from: usize) -> (res: usize)
    requires
        from <= v.len(),
    ensures
        res as int == find_blank(v@, from as int),
        from <= res <= v.len(),
{
    let mut i = from;
    while i < v.len() && v[i] != ' ' && v[i] != '\t'
        invariant
            from <= i <= v.len(),
            find_blank(v@, from as int) == find_blank(v@, i as int),
        decreases v.len() - i,
    {
        i += 1;
    }
    i
}

fn number_exec(
    verdicts: &[NumberVerdict],
    name: Vec<char>,
    value: Vec<char>,
    range: &str,
    is_bpm: bool,
    lno: usize,
    col: usize,
    prog: &mut Progress,
) -> (res: Option<ParseOutcome>)
    requires
        old(prog).used <= verdicts.len(),
    ensures
        step_matches(
            number_step(verdicts@, name@, value@, range@, is_bpm, lno as int, col as int, old(prog)@),
            res,
            final(prog)@,
        ),
        final(prog).used <= verdicts.len(),
        final(prog).cursor == old(prog).cursor,
        res is Some ==> final(prog)@ == old(prog)@,
{
    if prog.used >= verdicts.len() {
        return Some(
            ParseOutcome::NeedsVerdict(NumberQuery { name: string_of(&name), value: string_of(&value) }),
        );
    }
    match verdicts[prog.used] {
        NumberVerdict::Accepted => {
            if is_bpm {
                prog.seen_bpm = true;
                prog.bpm = Some(value);
            } else {
                prog.seen_vol = true;
                prog.volume = Some(value);
            }
            prog.used = prog.used + 1;
            None
        },
        NumberVerdict::NotANumber => Some(
            ParseOutcome::Failed(
                err(
                    lno,
                    col,
                    ParseErrorKind::DirectiveValueInvalid(string_of(&name), string_of(&value)),
                ),
            ),
        ),
        NumberVerdict::OutOfRange => Some(
            ParseOutcome::Failed(
                err(
                    lno,
                    col,
                    ParseErrorKind::DirectiveValueOutOfRange {
                        name: string_of(&name),
                        value: string_of(&value),
                        range: owned(range),
                    },
                ),
            ),
        ),
    }
}

fn apply_directive_exec(
    verdicts: &[NumberVerdict],
    name: Vec<char>,
    value: Vec<char>,
    lno: usize,
    col: usize,
    prog: &mut Progress,
) -> (res: Option<ParseOutcome>)
    requires
        old(prog).used <= verdicts.len(),
    ensures
        step_matches(
            apply_directive(verdicts@, name@, value@, lno as int, col as int, old(prog)@),
            res,
            final(prog)@,
        ),
        final(prog).used <= verdicts.len(),
        final(prog).cursor == old(prog).cursor,
        // a rejected directive leaves the parameters as they were and its
        // name recorded as seen
        res is Some ==> final(prog)@.bpm == old(prog)@.bpm && final(prog)@.volume
            == old(prog)@.volume && final(prog)@.wave == old(prog)@.wave,
        final(prog).seen_bpm == (old(prog).seen_bpm || name@ == "bpm"@),
        final(prog).seen_vol == (old(prog).seen_vol || name@ == "vol"@),
        final(prog).seen_wave == (old(prog).seen_wave || name@ == "wave"@),
{
    proof {
        reveal_strlit("bpm");
        reveal_strlit("vol");
        reveal_strlit("wave");
        assert("bpm"@[0] != "vol"@[0] && "bpm"@[0] != "wave"@[0] && "vol"@[0] != "wave"@[0]);
        assert("bpm"@ != "vol"@ && "bpm"@ != "wave"@ && "vol"@ != "wave"@);
    }
    if spells(&name, "bpm") {
        if prog.seen_bpm {
            return Some(
                ParseOutcome::Failed(
                    err(lno, col, ParseErrorKind::DuplicateDirective(string_of(&name))),
                ),
            );
        }
        prog.seen_bpm = true;
        number_exec(verdicts, name, value, "20-300", true, lno, col, prog)
    } else if spells(&name, "vol") {
        if prog.seen_vol {
            return Some(
                ParseOutcome::Failed(
                    err(lno, col, ParseErrorKind::DuplicateDirective(string_of(&name))),
                ),
            );
        }
        prog.seen_vol = true;
        number_exec(verdicts, name, value, "0-1", false, lno, col, prog)
    } else if spells(&name, "wave") {
        if prog.seen_wave {
            return Some(
                ParseOutcome::Failed(
                    err(lno, col, ParseErrorKind::DuplicateDirective(string_of(&name))),
                ),
            );
        }
        prog.seen_wave = true;
        let vs = string_of(&value);
        match Waveform::from_str(vs.as_str()) {
            Some(w) => {
                prog.wave = w;
                None
            },
            None => Some(
                ParseOutcome::Failed(
                    err(
                        lno,
                        col,
                        ParseErrorKind::DirectiveValueOutOfRange {
                            name: string_of(&name),
                            value: vs,
                            range: owned("sine | square | saw"),
                        },
                    ),
                ),
            ),
        }
    } else {
        Some(ParseOutcome::Failed(err(lno, col, ParseErrorKind::UnknownDirective(string_of(&name)))))
    }
}

fn directive_exec(
    verdicts: &[NumberVerdict],
    line: &Vec<char>,
    lno: usize,
    i: usize,
    prog: &mut Progress,
) -> (res: Option<ParseOutcome>)
    requires
        i < line.len(),
        old(prog).used <= verdicts.len(),
    ensures
        step_matches(
            directive_step(verdicts@, line@, lno as int, i as int, old(prog)@),
            res,
            final(prog)@,
        ),
        final(prog).used <= verdicts.len(),
        final(prog).cursor == old(prog).cursor,
{
    let col = i + 1;
    let e = find_blank_exec(line, i + 1);
    let token = slice_chars(line, i + 1, e);
    let q = find_char(&token, 0, '=');
    if prog.saw_note {
        let head = slice_chars(&token, 0, q);
        assert(head@ =~= token@.take(q as int));
        let name = lower_chars(&head);
        return Some(
            ParseOutcome::Failed(err(lno, col, ParseErrorKind::DirectiveAfterNotes(string_of(&name)))),
        );
    }
    if q >= token.len() {
        return Some(
            ParseOutcome::Failed(err(lno, col, ParseErrorKind::UnknownDirective(string_of(&token)))),
        );
    }
    let head = slice_chars(&token, 0, q);
    assert(head@ =~= token@.take(q as int));
    let name = lower_chars(&trim_chars(&head));
    let tail = slice_chars(&token, q + 1, token.len());
    assert(tail@ =~= token@.skip(q + 1));
    let value = trim_chars(&tail);
    apply_directive_exec(verdicts, name, value, lno, col, prog)
}

#[verifier::rlimit(60)]
fn scan_line_exec(
    km: &Keymap,
    verdicts: &[NumberVerdict],
    line: &Vec<char>,
    lno: usize,
    prog: &mut Progress,
    Ghost(done): Ghost<int>,
) -> (res: Flow)
    requires
        0 <= done,
        old(prog).cursor <= 2 * done,
        done + line.len() <= i64::MAX,
        old(prog).used <= verdicts.len(),
    ensures
        flow_matches(
            scan_line(km@, verdicts@, line@, lno as int, 0, 0, old(prog)@),
            res,
            final(prog)@,
        ),
        final(prog).cursor <= 2 * (done + line.len()),
        final(prog).used <= verdicts.len(),
{
    let ghost st0 = prog@;
    let mut i: usize = 0;
    let mut oct: i64 = 0;
    while i < line.len()
        invariant
            i <= line.len(),
            -(i as int) <= oct <= i,
            scan_line(km@, verdicts@, line@, lno as int, i as int, oct as int, prog@) == scan_line(
                km@,
                verdicts@,
                line@,
                lno as int,
                0,
                0,
                st0,
            ),
            st0 == old(prog)@,
            0 <= done,
            prog.cursor <= 2 * (done + i),
            done + line.len() <= i64::MAX,
            prog.used <= verdicts.len(),
        decreases line.len() - i,
    {
        let c = line[i];
        let ghost before = prog@;
        prog.last_line = lno;
        prog.last_col = i + 1;
        assert(prog@ == ParseState { last_line: lno as int, last_col: i + 1, ..before });
        if c == '#' {
            return Flow::Continue;
        } else if c == '@' {
            return match directive_exec(verdicts, line, lno, i, prog) {
                Some(o) => Flow::Done(o),
                None => Flow::Continue,
            };
        } else if is_whitespace(c) || c == '=' || c == '-' {
            prog.cursor = prog.cursor + 2;
            i = i + 1;
        } else if c == '^' {
            oct = oct + 1;
            i = i + 1;
        } else if c == '_' {
            oct = oct - 1;
            i = i + 1;
        } else if c == '.' {
            return Flow::Done(ParseOutcome::Failed(err(lno, i + 1, ParseErrorKind::LoneDot)));
        } else if km.is_note_char(c) {
            let mut k: usize = 1;
            while i + k < line.len() && line[i + k] == c
                invariant
                    i < line.len(),
                    1 <= k,
                    i + k <= line.len(),
                    line@[i as int] == c,
                    run_len(line@, i as int, c) == k + run_len(line@, i + k, c),
                decreases line.len() - (i + k),
            {
                k = k + 1;
            }
            let mut j: usize = i + k;
            while j < line.len() && line[j] == '.'
                invariant
                    i + k <= j <= line.len(),
                    run_len(line@, i + k, '.') == (j - (i + k)) + run_len(line@, j as int, '.'),
                decreases line.len() - j,
            {
                j = j + 1;
            }
            let dots = j - (i + k);
            let dur: u64 = 2 * (k as u64) + (dots as u64);
            if !km.resolve_in_range(c, oct) {
                return Flow::Overflow;
            }
            let midi = match km.resolve(c, oct) {
                Some(m) => m,
                None => {
                    return Flow::Continue;
                },
            };
            if oct != 0 && !(PITCH_MIN <= midi && midi <= PITCH_MAX) {
                return Flow::Done(
                    ParseOutcome::Failed(err(lno, i + 1, ParseErrorKind::PitchOutOfRange { c, midi })),
                );
            }
            // pitches outside 0..=255 wrap, as the stored MIDI byte does
            let byte = #[verifier::truncate] (midi as u8);
            prog.notes.push(NoteEvent::new(prog.cursor, dur, byte));
            prog.saw_note = true;
            prog.cursor = prog.cursor + dur;
            i = j;
        } else {
            return Flow::Done(
                ParseOutcome::Failed(err(lno, i + 1, ParseErrorKind::UnknownCharacter(c))),
            );
        }
    }
    Flow::Continue
}

/// Total number of characters of `ls`.
pub open spec fn total_len(ls: Seq<Seq<char>>) -> nat
    decreases ls.len(),
{
    if ls.len() == 0 {
        0
    } else {
        ls[0].len() + total_len(ls.drop_first())
    }
}

pub proof fn lemma_lines_total(s: Seq<char>, p: int)
    requires
        0 <= p,
    ensures
        total_len(crate::text::lines_from(s, p)) <= if p <= s.len() {
            s.len() - p
        } else {
            0
        },
    decreases s.len() + 1 - p,
{
    let ls = crate::text::lines_from(s, p);
    if p < s.len() {
        let e = find_from(s, p, '\n');
        lemma_find_from_bounds(s, p, '\n');
        let rest = crate::text::lines_from(s, e + 1);
        assert(ls.drop_first() =~= rest);
        lemma_lines_total(s, e + 1);
    }
}

fn opt_string(o: Option<Vec<char>>) -> (res: Option<String>)
    ensures
        crate::model::opt_view(res) == opt_chars(o),
{
    match o {
        Some(v) => Some(string_of(&v)),
        None => None,
    }
}

fn finish_exec(prog: Progress) -> (res: ParseOutcome)
    ensures
        res@ == finish(prog@),
{
    if prog.notes.len() == 0 {
        ParseOutcome::Failed(err(prog.last_line, prog.last_col, ParseErrorKind::EmptyScore))
    } else {
        let params = ScoreParams {
            bpm: opt_string(prog.bpm),
            volume: opt_string(prog.volume),
            waveform: prog.wave,
        };
        ParseOutcome::Parsed(Score { notes: prog.notes, params })
    }
}

/// Parses a score like `parse`, and returns `None` exactly when some
/// pitch computation would leave its integer types.
pub fn try_parse(text: &str, keymap: &Keymap, default_wave: &str, verdicts: &[NumberVerdict]) -> (res:
    Option<ParseOutcome>)
    requires
        text@.len() <= i64::MAX,
    ensures
        match res {
            Some(o) => parse_result(text@, keymap@, default_wave@, verdicts@) == Some(o@),
            None => parse_result(text@, keymap@, default_wave@, verdicts@) is None,
        },
{
    let chars = chars_of(text);
    let ls = split_lines(&chars);
    let ghost all = lines(text@);
    let wave = match Waveform::from_str(default_wave) {
        Some(w) => w,
        None => Waveform::Square,
    };
    let mut prog = Progress {
        cursor: 0,
        notes: Vec::new(),
        saw_note: false,
        seen_bpm: false,
        seen_vol: false,
        seen_wave: false,
        bpm: None,
        volume: None,
        wave,
        used: 0,
        last_line: 1,
        last_col: 1,
    };
    assert(prog@ == initial_state(default_wave@));
    proof {
        lemma_lines_total(text@, 0);
        assert(all.skip(0) =~= all);
    }
    let ghost mut done: int = 0;
    let mut k: usize = 0;
    while k < ls.len()
        invariant
            k <= ls.len(),
            ls@.len() == all.len(),
            all == lines(text@),
            forall|j: int| 0 <= j < ls@.len() ==> #[trigger] ls@[j]@ == all[j],
            scan_lines(keymap@, verdicts@, all, k as int, prog@) == parse_result(
                text@,
                keymap@,
                default_wave@,
                verdicts@,
            ),
            0 <= done,
            prog.cursor <= 2 * done,
            done + total_len(all.skip(k as int)) <= text@.len(),
            text@.len() <= i64::MAX,
            prog.used <= verdicts.len(),
        decreases ls.len() - k,
    {
        let ghost rest = all.skip(k as int);
        assert(rest.drop_first() =~= all.skip(k + 1));
        assert(rest[0] == all[k as int]);
        let r = scan_line_exec(keymap, verdicts, &ls[k], k + 1, &mut prog, Ghost(done));
        match r {
            Flow::Done(o) => {
                return Some(o);
            },
            Flow::Overflow => {
                return None;
            },
            Flow::Continue => {},
        }
        proof {
            done = done + all[k as int].len();
        }
        k = k + 1;
    }
    Some(finish_exec(prog))
}

/// Parses a score.  `keymap` maps characters to pitches, `default_wave` is
/// the configured waveform (square when it names none), and `verdicts`
/// answer, in order, the number queries of earlier passes.
///
/// `law_short_texts_parse` shows the second precondition for every text of
/// at most 2^27 characters.
pub fn parse(text: &str, keymap: &Keymap, default_wave: &str, verdicts: &[NumberVerdict]) -> (res:
    ParseOutcome)
    requires
        text@.len() <= i64::MAX,
        parse_result(text@, keymap@, default_wave@, verdicts@) is Some,
    ensures
        parse_result(text@, keymap@, default_wave@, verdicts@) == Some(res@),
{
    match try_parse(text, keymap, default_wave, verdicts) {
        Some(o) => o,
        None => {
            proof {
                assert(false);
            }
            ParseOutcome::Failed(err(1, 1, ParseErrorKind::EmptyScore))
        },
    }
}

} // verus!

verus! {

// ---------------------------------------------------------------------------
// Messages
// ---------------------------------------------------------------------------

/// One-sentence reason for an error kind.
pub open spec fn reason_text(k: ErrorKindView) -> Seq<char> {
    match k {
        ErrorKindView::EmptyScore => "谱面为空，没有可发声的音符"@,
        ErrorKindView::UnknownCharacter(c) => "字符 '"@ + seq![c]
            + "' 不是音符字符，且不属于保留语法（^ _ = . # @）"@,
        ErrorKindView::LoneDot => "字符 '.' 用于延长音符时长，必须紧跟音符字符"@,
        ErrorKindView::DirectiveAfterNotes(name) => "指令 @"@ + name
            + " 出现在音符之后，指令只允许位于文件头（首个音符之前）"@,
        ErrorKindView::DuplicateDirective(name) => "指令 @"@ + name + " 重复出现"@,
        ErrorKindView::UnknownDirective(name) => "未知指令 @"@ + name,
        ErrorKindView::DirectiveValueInvalid(name, value) => "指令 @"@ + name + " 的值 '"@ + value
            + "' 无法解析为合法数字"@,
        ErrorKindView::DirectiveValueOutOfRange { name, value, range } => "指令 @"@ + name
            + " 的值 "@ + value + " 越界，合法范围 "@ + range,
        ErrorKindView::PitchOutOfRange { c, midi } => "字符 '"@ + seq![c] + "' 经八度移位后音高 "@
            + crate::text::dec_int(midi as int) + " 越出 C2–C7 范围"@,
    }
}

/// Suggested fix for an error kind.
pub open spec fn suggestion_text(k: ErrorKindView) -> Seq<char> {
    match k {
        ErrorKindView::EmptyScore => "在谱面中写入音符字符，例如 'aaa 123'；仅注释不算有效乐谱"@,
        ErrorKindView::UnknownCharacter(_) =>
            "将其改为音符字符，或删除；可运行 mm keymap show 查看可选字符"@,
        ErrorKindView::LoneDot => "将 '.' 紧跟上一个音符字符写入，例如 'a.'"@,
        ErrorKindView::DirectiveAfterNotes(name) => "将 @"@ + name
            + " 移动到文件顶部（首个音符字符之前）"@,
        ErrorKindView::DuplicateDirective(_) => "删除重复指令，每类指令最多出现一次"@,
        ErrorKindView::UnknownDirective(_) => "改用受支持的指令 @BPM / @VOL / @WAVE"@,
        ErrorKindView::DirectiveValueInvalid(_, _) => "检查取值是否为合法数字（如 120、0.8）"@,
        ErrorKindView::DirectiveValueOutOfRange { .. } => "将取值调整到合法范围内"@,
        ErrorKindView::PitchOutOfRange { .. } => "减少 ^/_ 的使用次数，或调整起始音高"@,
    }
}

impl ParseError {
    /// One-sentence reason, for the diagnostics.
    pub fn message(&self) -> (res: String)
        ensures
            res@ == reason_text(self.kind@),
    {
        let mut s;
        match &self.kind {
            ParseErrorKind::EmptyScore => {
                s = owned("谱面为空，没有可发声的音符");
            },
            ParseErrorKind::UnknownCharacter(c) => {
                s = owned("字符 '");
                push_one(&mut s, *c);
                push_str(&mut s, "' 不是音符字符，且不属于保留语法（^ _ = . # @）");
            },
            ParseErrorKind::LoneDot => {
                s = owned("字符 '.' 用于延长音符时长，必须紧跟音符字符");
            },
            ParseErrorKind::DirectiveAfterNotes(name) => {
                s = owned("指令 @");
                push_str(&mut s, name.as_str());
                push_str(&mut s, " 出现在音符之后，指令只允许位于文件头（首个音符之前）");
            },
            ParseErrorKind::DuplicateDirective(name) => {
                s = owned("指令 @");
                push_str(&mut s, name.as_str());
                push_str(&mut s, " 重复出现");
            },
            ParseErrorKind::UnknownDirective(name) => {
                s = owned("未知指令 @");
                push_str(&mut s, name.as_str());
            },
            ParseErrorKind::DirectiveValueInvalid(name, value) => {
                s = owned("指令 @");
                push_str(&mut s, name.as_str());
                push_str(&mut s, " 的值 '");
                push_str(&mut s, value.as_str());
                push_str(&mut s, "' 无法解析为合法数字");
            },
            ParseErrorKind::DirectiveValueOutOfRange { name, value, range } => {
                s = owned("指令 @");
                push_str(&mut s, name.as_str());
                push_str(&mut s, " 的值 ");
                push_str(&mut s, value.as_str());
                push_str(&mut s, " 越界，合法范围 ");
                push_str(&mut s, range.as_str());
            },
            ParseErrorKind::PitchOutOfRange { c, midi } => {
                s = owned("字符 '");
                push_one(&mut s, *c);
                push_str(&mut s, "' 经八度移位后音高 ");
                push_int(&mut s, *midi as i64);
                push_str(&mut s, " 越出 C2–C7 范围");
            },
        }
        assert(s@ =~= reason_text(self.kind@));
        s
    }

    /// Suggested fix, for the diagnostics.
    pub fn suggestion(&self) -> (res: String)
        ensures
            res@ == suggestion_text(self.kind@),
    {
        match &self.kind {
            ParseErrorKind::EmptyScore => owned(
                "在谱面中写入音符字符，例如 'aaa 123'；仅注释不算有效乐谱",
            ),
            ParseErrorKind::UnknownCharacter(_) => owned(
                "将其改为音符字符，或删除；可运行 mm keymap show 查看可选字符",
            ),
            ParseErrorKind::LoneDot => owned("将 '.' 紧跟上一个音符字符写入，例如 'a.'"),
            ParseErrorKind::DirectiveAfterNotes(name) => {
                let mut s = owned("将 @");
                push_str(&mut s, name.as_str());
                push_str(&mut s, " 移动到文件顶部（首个音符字符之前）");
                assert(s@ =~= suggestion_text(self.kind@));
                s
            },
            ParseErrorKind::DuplicateDirective(_) => owned(
                "删除重复指令，每类指令最多出现一次",
            ),
            ParseErrorKind::UnknownDirective(_) => owned(
                "改用受支持的指令 @BPM / @VOL / @WAVE",
            ),
            ParseErrorKind::DirectiveValueInvalid(_, _) => owned(
                "检查取值是否为合法数字（如 120、0.8）",
            ),
            ParseErrorKind::DirectiveValueOutOfRange { .. } => owned("将取值调整到合法范围内"),
            ParseErrorKind::PitchOutOfRange { .. } => owned(
                "减少 ^/_ 的使用次数，或调整起始音高",
            ),
        }
    }
}

} // verus!
