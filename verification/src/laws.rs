//! Properties that span several functions of the library.
use vstd::prelude::*;
use crate::cli::{usage, usage_list, usage_upto};
use crate::config::config_problem;
use crate::keymap::{
    is_control, keymap_problem, lemma_accepted_keymap_is_valid, lemma_resolve_fits, order_problem,
    KeymapView,
};
use crate::model::{note_name_of, pitch_class_name, waveform_name, waveform_named, NoteEvent, Waveform};
use crate::parser::{
    initial_state, lemma_run_len_bound, parse_result, run_len, scan_line, scan_lines, total_len,
    LineStep, OutcomeView, ParseState,
};
use crate::diagnostics::{diagnostic_text, source_line};
use crate::parser::{finish, reason_text, suggestion_text, ErrorKindView, ParseErrorView, PITCH_MAX, PITCH_MIN};
use crate::text::{
    dec, dec_int, digit, find_from, is_ws, lemma_find_from_bounds, line_end, lines, lines_from, lower, lower_char,
    repeat, trim, trim_end, trim_start,
};

verus! {

// ---------------------------------------------------------------------------
// Waveforms
// ---------------------------------------------------------------------------

/// The display name of every waveform parses back to that waveform.
pub proof fn law_waveform_name_round_trip(w: Waveform)
    ensures
        waveform_named(waveform_name(w)) == Some(w),
{
    reveal_strlit("sine");
    reveal_strlit("sin");
    reveal_strlit("square");
    reveal_strlit("sq");
    reveal_strlit("saw");
    reveal_strlit("sawtooth");
    let n = waveform_name(w);
    assert(trim(n) == n) by {
        assert(!crate::text::is_ws(n[0]));
        assert(!crate::text::is_ws(n.last()));
    }
    assert(lower(n) =~= n);
}

} // verus!

verus! {

// ---------------------------------------------------------------------------
// Key maps
// ---------------------------------------------------------------------------

proof fn lemma_valid_order_has_no_problem(order: Seq<char>, i: int)
    requires
        0 <= i,
        forall|k: int| 0 <= k < order.len() ==> !is_control(#[trigger] order[k]),
        order.no_duplicates(),
    ensures
        order_problem(order, i) is None,
    decreases order.len() - i,
{
    if i < order.len() {
        assert(!is_control(order[i]));
        if order.take(i).contains(order[i]) {
            let k = choose|k: int| 0 <= k < order.take(i).len() && order.take(i)[k] == order[i];
            assert(order[k] == order[i]);
        }
        lemma_valid_order_has_no_problem(order, i + 1);
    }
}

/// `Keymap::new` accepts exactly the valid key maps: non-empty order and
/// pitch table, a base pitch within 0–127, and an order of distinct
/// characters none of which is reserved for the score syntax.
pub proof fn law_keymap_new_accepts_exactly_valid(order: Seq<char>, table: Seq<i8>, base_midi: u8)
    ensures
        keymap_problem(order, table, base_midi) is None <==> (KeymapView {
            order,
            table,
            base_midi,
        }).wf(),
{
    if keymap_problem(order, table, base_midi) is None {
        lemma_accepted_keymap_is_valid(order, table, base_midi);
    }
    if (KeymapView { order, table, base_midi }).wf() {
        lemma_valid_order_has_no_problem(order, 0);
    }
}

proof fn lemma_index_of_position(order: Seq<char>, i: int)
    requires
        order.no_duplicates(),
        0 <= i < order.len(),
    ensures
        find_from(order, 0, order[i]) == i,
{
    lemma_find_before(order, 0, i);
}

proof fn lemma_find_before(order: Seq<char>, from: int, i: int)
    requires
        order.no_duplicates(),
        0 <= from <= i < order.len(),
    ensures
        find_from(order, from, order[i]) == i,
    decreases i - from,
{
    if from < i {
        assert(order[from] != order[i]);
        lemma_find_before(order, from + 1, i);
    }
}

/// Each further pass through the pitch table sounds one octave (12
/// semitones) higher: `order[i + table.len()]` is `order[i]` plus 12.
pub proof fn law_table_period_is_octave(km: KeymapView, i: int)
    requires
        km.wf(),
        0 <= i,
        i + km.table.len() < km.order.len(),
    ensures
        km.pitch(km.order[i + km.table.len()], 0) == km.pitch(km.order[i], 0) + 12,
{
    let tl = km.table.len() as int;
    let a = km.order[i];
    let b = km.order[i + tl];
    lemma_index_of_position(km.order, i);
    lemma_index_of_position(km.order, i + tl);
    assert(km.order.contains(a));
    assert(km.order.contains(b));
    lemma_resolve_fits(km, a, 0);
    lemma_resolve_fits(km, b, 0);
    assert((i + tl) / tl == i / tl + 1 && (i + tl) % tl == i % tl) by (nonlinear_arith)
        requires
            tl > 0,
            i >= 0,
    ;
}

/// One more `^` raises a note by exactly one octave (12 semitones).
pub proof fn law_octave_mark_is_octave(km: KeymapView, c: char, octaves: int)
    requires
        km.wf(),
        km.order.contains(c),
        -0x0800_0000 <= octaves,
        octaves + 1 <= 0x0800_0000,
    ensures
        km.pitch(c, octaves + 1) == km.pitch(c, octaves) + 12,
{
    lemma_resolve_fits(km, c, octaves);
    lemma_resolve_fits(km, c, octaves + 1);
}

// ---------------------------------------------------------------------------
// Configuration
// ---------------------------------------------------------------------------

/// A configuration that passes validation always yields a key map.
pub proof fn law_valid_config_builds_keymap(
    char_order: Seq<char>,
    pitch_table: Seq<i8>,
    base_midi: u8,
    bpm_in_range: bool,
    volume_in_range: bool,
    sample_rate: u32,
    wave: Seq<char>,
)
    requires
        config_problem(
            char_order,
            pitch_table,
            base_midi,
            bpm_in_range,
            volume_in_range,
            sample_rate,
            wave,
        ) is None,
    ensures
        keymap_problem(char_order, pitch_table, base_midi) is None,
        (KeymapView { order: char_order, table: pitch_table, base_midi }).wf(),
{
    lemma_accepted_keymap_is_valid(char_order, pitch_table, base_midi);
}

} // verus!

verus! {

// ---------------------------------------------------------------------------
// The parsed timeline
// ---------------------------------------------------------------------------

/// Notes follow each other in time without overlapping, each lasts at least
/// one beat, and none ends after `cursor`.
pub open spec fn timeline_ok(notes: Seq<NoteEvent>, cursor: int) -> bool {
    &&& forall|a: int, b: int|
        #![trigger notes[a], notes[b]]
        0 <= a < b < notes.len() ==> notes[a].end() <= notes[b].start_half_beats
    &&& forall|a: int|
        0 <= a < notes.len() ==> (#[trigger] notes[a]).end() <= cursor && notes[a].dur_half_beats
            >= 2
}

proof fn lemma_scan_line_timeline(
    km: KeymapView,
    v: Seq<crate::parser::NumberVerdict>,
    line: Seq<char>,
    lno: int,
    i: int,
    oct: int,
    st: ParseState,
)
    requires
        0 <= i <= line.len(),
        0 <= st.cursor,
        st.cursor + 2 * (line.len() - i) <= u64::MAX,
        timeline_ok(st.notes, st.cursor),
    ensures
        scan_line(km, v, line, lno, i, oct, st) matches LineStep::Next(st2) ==> {
            &&& timeline_ok(st2.notes, st2.cursor)
            &&& st.cursor <= st2.cursor <= st.cursor + 2 * (line.len() - i)
        },
        !(scan_line(km, v, line, lno, i, oct, st) matches LineStep::Stop(OutcomeView::Parsed(_))),
    decreases line.len() - i,
{
    if i < line.len() {
        let c = line[i];
        let st1 = ParseState { last_line: lno, last_col: i + 1, ..st };
        if c == '#' || c == '@' {
        } else if crate::text::is_ws(c) || c == '=' || c == '-' {
            lemma_scan_line_timeline(
                km,
                v,
                line,
                lno,
                i + 1,
                oct,
                ParseState { cursor: st1.cursor + 2, ..st1 },
            );
        } else if c == '^' {
            lemma_scan_line_timeline(km, v, line, lno, i + 1, oct + 1, st1);
        } else if c == '_' {
            lemma_scan_line_timeline(km, v, line, lno, i + 1, oct - 1, st1);
        } else if c == '.' {
        } else if km.order.contains(c) && km.resolve_fits(c, oct) {
            let k = run_len(line, i, c);
            let d = run_len(line, i + k, '.');
            lemma_run_len_bound(line, i, c);
            lemma_run_len_bound(line, i + k, '.');
            let dur = 2 * k + d;
            let n = NoteEvent {
                start_half_beats: st1.cursor as u64,
                dur_half_beats: dur as u64,
                midi: km.pitch(c, oct) as u8,
            };
            let notes2 = st1.notes.push(n);
            assert(n.end() == st1.cursor + dur);
            assert(timeline_ok(notes2, st1.cursor + dur)) by {
                assert forall|a: int, b: int|
                    #![trigger notes2[a], notes2[b]]
                    0 <= a < b < notes2.len() implies notes2[a].end()
                    <= notes2[b].start_half_beats by {
                    if b == notes2.len() - 1 {
                        assert(notes2[a] == st1.notes[a]);
                    } else {
                        assert(notes2[a] == st1.notes[a] && notes2[b] == st1.notes[b]);
                    }
                }
                assert forall|a: int| 0 <= a < notes2.len() implies (#[trigger] notes2[a]).end()
                    <= st1.cursor + dur && notes2[a].dur_half_beats >= 2 by {
                    if a < notes2.len() - 1 {
                        assert(notes2[a] == st1.notes[a]);
                    }
                }
            }
            lemma_scan_line_timeline(
                km,
                v,
                line,
                lno,
                i + k + d,
                oct,
                ParseState { cursor: st1.cursor + dur, notes: notes2, saw_note: true, ..st1 },
            );
        }
    }
}

proof fn lemma_scan_lines_timeline(
    km: KeymapView,
    v: Seq<crate::parser::NumberVerdict>,
    ls: Seq<Seq<char>>,
    k: int,
    st: ParseState,
)
    requires
        0 <= k <= ls.len(),
        0 <= st.cursor,
        st.cursor + 2 * total_len(ls.skip(k)) <= u64::MAX,
        timeline_ok(st.notes, st.cursor),
    ensures
        scan_lines(km, v, ls, k, st) matches Some(OutcomeView::Parsed(s)) ==> timeline_ok(
            s.notes,
            latest_cursor_bound(st.cursor, ls, k),
        ) && s.notes.len() > 0,
    decreases ls.len() - k,
{
    if k < ls.len() {
        let rest = ls.skip(k);
        assert(rest.drop_first() =~= ls.skip(k + 1));
        assert(rest[0] == ls[k]);
        lemma_scan_line_timeline(km, v, ls[k], k + 1, 0, 0, st);
        match scan_line(km, v, ls[k], k + 1, 0, 0, st) {
            LineStep::Next(st2) => {
                lemma_scan_lines_timeline(km, v, ls, k + 1, st2);
                if let Some(OutcomeView::Parsed(s)) = scan_lines(km, v, ls, k + 1, st2) {
                    lemma_timeline_weaken(
                        s.notes,
                        latest_cursor_bound(st2.cursor, ls, k + 1),
                        latest_cursor_bound(st.cursor, ls, k),
                    );
                }
            },
            _ => {},
        }
    }
}

/// A bound on the time reached after the lines `ls[k..]`, starting at `cursor`.
pub open spec fn latest_cursor_bound(cursor: int, ls: Seq<Seq<char>>, k: int) -> int {
    cursor + 2 * total_len(ls.skip(k))
}

proof fn lemma_timeline_weaken(notes: Seq<NoteEvent>, c1: int, c2: int)
    requires
        timeline_ok(notes, c1),
        c1 <= c2,
    ensures
        timeline_ok(notes, c2),
{
}

/// A parsed score has at least one note, and its notes follow each other in
/// time: each starts no earlier than the previous one ends, and each lasts
/// at least one beat (two half beats).
pub proof fn law_parsed_notes_in_time_order(
    text: Seq<char>,
    km: KeymapView,
    default_wave: Seq<char>,
    verdicts: Seq<crate::parser::NumberVerdict>,
)
    requires
        text.len() <= i64::MAX,
    ensures
        parse_result(text, km, default_wave, verdicts) matches Some(OutcomeView::Parsed(s)) ==> {
            &&& s.notes.len() > 0
            &&& forall|a: int, b: int|
                #![trigger s.notes[a], s.notes[b]]
                0 <= a < b < s.notes.len() ==> s.notes[a].end() <= s.notes[b].start_half_beats
            &&& forall|a: int| 0 <= a < s.notes.len() ==> (#[trigger] s.notes[a]).dur_half_beats >= 2
        },
{
    let ls = lines(text);
    crate::parser::lemma_lines_total(text, 0);
    assert(ls.skip(0) =~= ls);
    lemma_scan_lines_timeline(km, verdicts, ls, 0, initial_state(default_wave));
}

} // verus!

verus! {

// ---------------------------------------------------------------------------
// The number-verdict protocol
// ---------------------------------------------------------------------------

/// Verdicts consumed so far: one per accepted `@BPM` and `@VOL`.
pub open spec fn verdicts_consistent(st: ParseState, given: int) -> bool {
    &&& 0 <= st.used <= given
    &&& st.used == (if st.seen_bpm {
        1int
    } else {
        0int
    }) + (if st.seen_vol {
        1int
    } else {
        0int
    })
}

pub open spec fn is_query(step: LineStep) -> bool {
    step matches LineStep::Stop(OutcomeView::NeedsVerdict(_, _))
}

proof fn lemma_scan_line_verdicts(
    km: KeymapView,
    v: Seq<crate::parser::NumberVerdict>,
    extra: Seq<crate::parser::NumberVerdict>,
    line: Seq<char>,
    lno: int,
    i: int,
    oct: int,
    st: ParseState,
)
    requires
        verdicts_consistent(st, v.len() as int),
    ensures
        scan_line(km, v, line, lno, i, oct, st) matches LineStep::Next(st2) ==> verdicts_consistent(
            st2,
            v.len() as int,
        ),
        !is_query(scan_line(km, v, line, lno, i, oct, st)) ==> scan_line(
            km,
            v + extra,
            line,
            lno,
            i,
            oct,
            st,
        ) == scan_line(km, v, line, lno, i, oct, st),
        is_query(scan_line(km, v, line, lno, i, oct, st)) ==> v.len() <= 1,
    decreases line.len() - i,
{
    let w = v + extra;
    if 0 <= i < line.len() {
        let c = line[i];
        let st1 = ParseState { last_line: lno, last_col: i + 1, ..st };
        if c == '#' {
        } else if c == '@' {
            if st1.used < v.len() {
                assert(w[st1.used] == v[st1.used]);
            }
        } else if crate::text::is_ws(c) || c == '=' || c == '-' {
            lemma_scan_line_verdicts(
                km,
                v,
                extra,
                line,
                lno,
                i + 1,
                oct,
                ParseState { cursor: st1.cursor + 2, ..st1 },
            );
        } else if c == '^' {
            lemma_scan_line_verdicts(km, v, extra, line, lno, i + 1, oct + 1, st1);
        } else if c == '_' {
            lemma_scan_line_verdicts(km, v, extra, line, lno, i + 1, oct - 1, st1);
        } else if c == '.' {
        } else if km.order.contains(c) && km.resolve_fits(c, oct) {
            let k = run_len(line, i, c);
            let d = run_len(line, i + k, '.');
            let dur = 2 * k + d;
            lemma_run_len_bound(line, i, c);
            lemma_run_len_bound(line, i + k, '.');
            lemma_scan_line_verdicts(
                km,
                v,
                extra,
                line,
                lno,
                i + k + d,
                oct,
                ParseState {
                    cursor: st1.cursor + dur,
                    notes: st1.notes.push(
                        NoteEvent {
                            start_half_beats: st1.cursor as u64,
                            dur_half_beats: dur as u64,
                            midi: km.pitch(c, oct) as u8,
                        },
                    ),
                    saw_note: true,
                    ..st1
                },
            );
        }
    }
}

proof fn lemma_scan_lines_verdicts(
    km: KeymapView,
    v: Seq<crate::parser::NumberVerdict>,
    extra: Seq<crate::parser::NumberVerdict>,
    ls: Seq<Seq<char>>,
    k: int,
    st: ParseState,
)
    requires
        verdicts_consistent(st, v.len() as int),
    ensures
        scan_lines(km, v, ls, k, st) matches Some(o) && !(o is NeedsVerdict) ==> scan_lines(
            km,
            v + extra,
            ls,
            k,
            st,
        ) == scan_lines(km, v, ls, k, st),
        scan_lines(km, v, ls, k, st) matches Some(OutcomeView::NeedsVerdict(_, _)) ==> v.len() <= 1,
    decreases ls.len() - k,
{
    if 0 <= k < ls.len() {
        lemma_scan_line_verdicts(km, v, extra, ls[k], k + 1, 0, 0, st);
        if let LineStep::Next(st2) = scan_line(km, v, ls[k], k + 1, 0, 0, st) {
            lemma_scan_lines_verdicts(km, v, extra, ls, k + 1, st2);
        }
    }
}

/// Once a pass ends without a number query, further verdicts change
/// nothing: the outcome is final.
pub proof fn law_verdicts_beyond_queries_are_ignored(
    text: Seq<char>,
    km: KeymapView,
    default_wave: Seq<char>,
    verdicts: Seq<crate::parser::NumberVerdict>,
    extra: Seq<crate::parser::NumberVerdict>,
)
    requires
        parse_result(text, km, default_wave, verdicts) matches Some(o) && !(o is NeedsVerdict),
    ensures
        parse_result(text, km, default_wave, verdicts + extra) == parse_result(
            text,
            km,
            default_wave,
            verdicts,
        ),
{
    lemma_scan_lines_verdicts(km, verdicts, extra, lines(text), 0, initial_state(default_wave));
}

/// A score asks for at most two verdicts (one `@BPM`, one `@VOL`): a pass
/// given two or more verdicts never ends in a query.
pub proof fn law_at_most_two_queries(
    text: Seq<char>,
    km: KeymapView,
    default_wave: Seq<char>,
    verdicts: Seq<crate::parser::NumberVerdict>,
)
    ensures
        parse_result(text, km, default_wave, verdicts) matches Some(OutcomeView::NeedsVerdict(_, _))
            ==> verdicts.len() <= 1,
{
    lemma_scan_lines_verdicts(km, verdicts, Seq::empty(), lines(text), 0, initial_state(default_wave));
}

} // verus!

verus! {

// ---------------------------------------------------------------------------
// When the pitch arithmetic stays in range
// ---------------------------------------------------------------------------

proof fn lemma_scan_line_defined(
    km: KeymapView,
    v: Seq<crate::parser::NumberVerdict>,
    line: Seq<char>,
    lno: int,
    i: int,
    oct: int,
    st: ParseState,
)
    requires
        km.wf(),
        0 <= i <= line.len(),
        line.len() <= 0x0800_0000,
        -i <= oct <= i,
    ensures
        !(scan_line(km, v, line, lno, i, oct, st) is Overflow),
    decreases line.len() - i,
{
    if i < line.len() {
        let c = line[i];
        let st1 = ParseState { last_line: lno, last_col: i + 1, ..st };
        if c == '#' || c == '@' || c == '.' {
        } else if crate::text::is_ws(c) || c == '=' || c == '-' {
            lemma_scan_line_defined(
                km,
                v,
                line,
                lno,
                i + 1,
                oct,
                ParseState { cursor: st1.cursor + 2, ..st1 },
            );
        } else if c == '^' {
            lemma_scan_line_defined(km, v, line, lno, i + 1, oct + 1, st1);
        } else if c == '_' {
            lemma_scan_line_defined(km, v, line, lno, i + 1, oct - 1, st1);
        } else if km.order.contains(c) {
            lemma_resolve_fits(km, c, oct);
            let k = run_len(line, i, c);
            let d = run_len(line, i + k, '.');
            let dur = 2 * k + d;
            lemma_run_len_bound(line, i, c);
            lemma_run_len_bound(line, i + k, '.');
            lemma_scan_line_defined(
                km,
                v,
                line,
                lno,
                i + k + d,
                oct,
                ParseState {
                    cursor: st1.cursor + dur,
                    notes: st1.notes.push(
                        NoteEvent {
                            start_half_beats: st1.cursor as u64,
                            dur_half_beats: dur as u64,
                            midi: km.pitch(c, oct) as u8,
                        },
                    ),
                    saw_note: true,
                    ..st1
                },
            );
        }
    }
}

proof fn lemma_scan_lines_defined(
    km: KeymapView,
    v: Seq<crate::parser::NumberVerdict>,
    ls: Seq<Seq<char>>,
    k: int,
    st: ParseState,
)
    requires
        km.wf(),
        0 <= k <= ls.len(),
        total_len(ls.skip(k)) <= 0x0800_0000,
    ensures
        scan_lines(km, v, ls, k, st) is Some,
    decreases ls.len() - k,
{
    if k < ls.len() {
        let rest = ls.skip(k);
        assert(rest.drop_first() =~= ls.skip(k + 1));
        assert(rest[0] == ls[k]);
        lemma_scan_line_defined(km, v, ls[k], k + 1, 0, 0, st);
        if let LineStep::Next(st2) = scan_line(km, v, ls[k], k + 1, 0, 0, st) {
            lemma_scan_lines_defined(km, v, ls, k + 1, st2);
        }
    }
}

/// With a valid key map, every text of at most 2^27 characters parses to a
/// defined outcome: its octave marks cannot push a pitch computation out of
/// its integer types.
pub proof fn law_short_texts_parse(
    text: Seq<char>,
    km: KeymapView,
    default_wave: Seq<char>,
    verdicts: Seq<crate::parser::NumberVerdict>,
)
    requires
        km.wf(),
        text.len() <= 0x0800_0000,
    ensures
        parse_result(text, km, default_wave, verdicts) is Some,
{
    let ls = lines(text);
    crate::parser::lemma_lines_total(text, 0);
    assert(ls.skip(0) =~= ls);
    lemma_scan_lines_defined(km, verdicts, ls, 0, initial_state(default_wave));
}

} // verus!

verus! {

// ---------------------------------------------------------------------------
// Configuration: the waveform field
// ---------------------------------------------------------------------------

/// A configuration is accepted exactly when its key map is valid, bpm and
/// volume lie in their ranges, the sample rate lies in 8000–192000 and the
/// waveform value is one that `Waveform::from_str` reads (any surrounding
/// whitespace, any ASCII case, `sin`/`sine`, `sq`/`square`, `saw`/`sawtooth`).
pub proof fn law_config_accepts_every_waveform_name(
    char_order: Seq<char>,
    pitch_table: Seq<i8>,
    base_midi: u8,
    bpm_in_range: bool,
    volume_in_range: bool,
    sample_rate: u32,
    wave: Seq<char>,
)
    ensures
        config_problem(
            char_order,
            pitch_table,
            base_midi,
            bpm_in_range,
            volume_in_range,
            sample_rate,
            wave,
        ) is None <==> {
            &&& keymap_problem(char_order, pitch_table, base_midi) is None
            &&& bpm_in_range
            &&& volume_in_range
            &&& 8000 <= sample_rate <= 192000
            &&& waveform_named(wave) is Some
        },
{
}

} // verus!

verus! {

// ---------------------------------------------------------------------------
// Key usage listing
// ---------------------------------------------------------------------------

proof fn lemma_usage_upto_prefix(a: Seq<Seq<char>>, b: Seq<Seq<char>>, k: int, c: char)
    requires
        0 <= k <= a.len(),
        k <= b.len(),
        forall|j: int| 0 <= j < k ==> a[j] == b[j],
    ensures
        usage_upto(a, k, c) == usage_upto(b, k, c),
    decreases k,
{
    if k > 0 {
        lemma_usage_upto_prefix(a, b, k - 1, c);
    }
}

/// The usage count of a character adds up over lines: in the lines `a`
/// followed by the lines `b` it is its count in `a` plus its count in `b`.
pub proof fn law_usage_adds_over_lines(a: Seq<Seq<char>>, b: Seq<Seq<char>>, c: char)
    ensures
        usage_upto(a + b, (a + b).len() as int, c) == usage_upto(a, a.len() as int, c)
            + usage_upto(b, b.len() as int, c),
    decreases b.len(),
{
    if b.len() == 0 {
        assert(a + b =~= a);
    } else {
        let b1 = b.drop_last();
        law_usage_adds_over_lines(a, b1, c);
        let n = (a + b).len() as int;
        assert((a + b)[n - 1] == b[b.len() - 1]);
        lemma_usage_upto_prefix(a + b, a + b1, n - 1, c);
        lemma_usage_upto_prefix(b, b1, b.len() - 1, c);
    }
}

} // verus!

verus! {

// ---------------------------------------------------------------------------
// Note names
// ---------------------------------------------------------------------------

/// The pitch classes written with a sharp: the five black keys of an octave.
pub open spec fn is_sharp_class(k: int) -> bool {
    k == 1 || k == 3 || k == 6 || k == 8 || k == 10
}

/// The letter after `l` in the cycle C D E F G A B.
pub open spec fn next_letter(l: char) -> char {
    if l == 'A' {
        'B'
    } else if l == 'B' {
        'C'
    } else if l == 'C' {
        'D'
    } else if l == 'D' {
        'E'
    } else if l == 'E' {
        'F'
    } else if l == 'F' {
        'G'
    } else {
        'A'
    }
}

proof fn lemma_pitch_class_literals()
    ensures
        "C"@ =~= seq!['C'],
        "C#"@ =~= seq!['C', '#'],
        "D"@ =~= seq!['D'],
        "D#"@ =~= seq!['D', '#'],
        "E"@ =~= seq!['E'],
        "F"@ =~= seq!['F'],
        "F#"@ =~= seq!['F', '#'],
        "G"@ =~= seq!['G'],
        "G#"@ =~= seq!['G', '#'],
        "A"@ =~= seq!['A'],
        "A#"@ =~= seq!['A', '#'],
        "B"@ =~= seq!['B'],
{
    reveal_strlit("C");
    reveal_strlit("C#");
    reveal_strlit("D");
    reveal_strlit("D#");
    reveal_strlit("E");
    reveal_strlit("F");
    reveal_strlit("F#");
    reveal_strlit("G");
    reveal_strlit("G#");
    reveal_strlit("A");
    reveal_strlit("A#");
    reveal_strlit("B");
}

/// A note name is a letter from A to G, then `#` exactly for the five black
/// keys of each octave, then the octave number `m / 12 - 1` (so middle C,
/// 60, is `C4`).
pub proof fn law_note_name_shape(m: u8)
    ensures
        'A' <= note_name_of(m)[0] <= 'G',
        is_sharp_class((m % 12) as int) ==> note_name_of(m).len() >= 2 && note_name_of(m)[1] == '#'
            && note_name_of(m).skip(2) == dec_int(m / 12 - 1),
        !is_sharp_class((m % 12) as int) ==> note_name_of(m).skip(1) == dec_int(m / 12 - 1),
{
    lemma_pitch_class_literals();
    let cls = pitch_class_name((m % 12) as int);
    let o = dec_int(m / 12 - 1);
    assert(note_name_of(m) == cls + o);
    assert((cls + o)[0] == cls[0]);
    if is_sharp_class((m % 12) as int) {
        assert(cls.len() == 2);
        assert((cls + o)[1] == cls[1]);
        assert((cls + o).skip(2) =~= o);
    } else {
        assert(cls.len() == 1);
        assert((cls + o).skip(1) =~= o);
    }
}

/// Going up one semitone inside an octave either sharpens the letter of the
/// note below (a black key) or moves on to the next letter (a white key), and
/// every octave starts on C: the names of 60 to 71 are C4, C#4, D4, D#4, E4,
/// F4, F#4, G4, G#4, A4, A#4, B4.
pub proof fn law_note_names_step_by_semitone(m: u8)
    ensures
        m % 12 == 0 ==> note_name_of(m)[0] == 'C',
        m % 12 != 0 && is_sharp_class((m % 12) as int) ==> note_name_of(m)[0] == note_name_of(
            (m - 1) as u8,
        )[0],
        m % 12 != 0 && !is_sharp_class((m % 12) as int) ==> note_name_of(m)[0] == next_letter(
            note_name_of((m - 1) as u8)[0],
        ),
{
    lemma_pitch_class_literals();
    let cls = pitch_class_name((m % 12) as int);
    assert(note_name_of(m)[0] == cls[0]);
    if m % 12 != 0 {
        let p = (m - 1) as u8;
        assert(p % 12 == m % 12 - 1);
        let pcls = pitch_class_name((p % 12) as int);
        assert(note_name_of(p)[0] == pcls[0]);
    }
}

} // verus!

verus! {

// ---------------------------------------------------------------------------
// Diagnostics: the caret
// ---------------------------------------------------------------------------

proof fn lemma_find_from_skips(s: Seq<char>, from: int, c: char)
    requires
        0 <= from,
    ensures
        forall|x: int| from <= x < find_from(s, from, c) && x < s.len() ==> s[x] != c,
    decreases s.len() - from,
{
    if from < s.len() && s[from] != c {
        lemma_find_from_skips(s, from + 1, c);
    }
}

proof fn lemma_lines_from_no_newline(s: Seq<char>, p: int)
    ensures
        forall|k: int, j: int|
            0 <= k < lines_from(s, p).len() && 0 <= j < lines_from(s, p)[k].len()
                ==> #[trigger] lines_from(s, p)[k][j] != '\n',
    decreases s.len() + 1 - p,
{
    if 0 <= p < s.len() {
        lemma_find_from_bounds(s, p, '\n');
        lemma_find_from_skips(s, p, '\n');
        let e = find_from(s, p, '\n');
        let first = s.subrange(p, line_end(s, p));
        lemma_lines_from_no_newline(s, e + 1);
        let rest = lines_from(s, e + 1);
        assert(lines_from(s, p) == seq![first] + rest);
        assert forall|k: int, j: int|
            0 <= k < lines_from(s, p).len() && 0 <= j < lines_from(s, p)[k].len()
                implies #[trigger] lines_from(s, p)[k][j] != '\n' by {
            if k == 0 {
                assert(lines_from(s, p)[k] == first);
                assert(first[j] == s[p + j]);
            } else {
                assert(lines_from(s, p)[k] == rest[k - 1]);
            }
        }
    }
}

proof fn lemma_source_line_no_newline(source: Seq<char>, n: int)
    ensures
        forall|j: int| 0 <= j < source_line(source, n).len() ==> source_line(source, n)[j] != '\n',
{
    lemma_lines_from_no_newline(source, 0);
    let ls = lines(source);
    let idx = if n >= 1 {
        n - 1
    } else {
        0
    };
    if idx < ls.len() {
        assert forall|j: int| 0 <= j < source_line(source, n).len() implies source_line(
            source,
            n,
        )[j] != '\n' by {
            assert(ls[idx][j] == lines_from(source, 0)[idx][j]);
        }
    }
}

proof fn lemma_dec_no_newline(n: nat)
    ensures
        forall|j: int| 0 <= j < dec(n).len() ==> dec(n)[j] != '\n',
    decreases n,
{
    reveal_strlit("0123456789");
    if n >= 10 {
        lemma_dec_no_newline(n / 10);
        assert forall|j: int| 0 <= j < dec(n).len() implies dec(n)[j] != '\n' by {
            if j < dec(n / 10).len() {
                assert(dec(n)[j] == dec(n / 10)[j]);
            } else {
                assert(dec(n)[j] == digit(n % 10));
            }
        }
    }
}

/// In a diagnostic the `^` stands exactly under column `col` of the quoted
/// source line, whatever the width of the line number.  The text splits
/// into `head` (ending a line), the quoted line, a newline, the caret line,
/// a newline and the rest; neither the quoted line nor the caret line holds
/// a newline; the quoted line ends with the source line after a prefix of
/// `p` characters; and the caret line is `p + col - 1` spaces and a `^`.
pub proof fn law_caret_under_column(file: Seq<char>, source: Seq<char>, e: ParseErrorView) -> (parts: (
    Seq<char>,
    Seq<char>,
    Seq<char>,
    Seq<char>,
))
    requires
        e.line >= 1,
        e.col >= 1,
    ensures
        diagnostic_text(file, source, e) == parts.0 + parts.1 + "\n"@ + parts.2 + "\n"@ + parts.3,
        parts.0.len() > 0 && parts.0.last() == '\n',
        forall|j: int| 0 <= j < parts.1.len() ==> parts.1[j] != '\n',
        forall|j: int| 0 <= j < parts.2.len() ==> parts.2[j] != '\n',
        parts.1.len() >= source_line(source, e.line).len(),
        parts.1.skip(parts.1.len() - source_line(source, e.line).len()) == source_line(
            source,
            e.line,
        ),
        parts.2 == repeat(
            ' ',
            (parts.1.len() - source_line(source, e.line).len() + e.col - 1) as nat,
        ) + "^"@,
{
    reveal_strlit("  无法解析\n");
    reveal_strlit("  ");
    reveal_strlit(" │ ");
    reveal_strlit("     ");
    reveal_strlit("^");
    reveal_strlit("\n");
    let line_no = dec(e.line as nat);
    let sl = source_line(source, e.line);
    let head = file + ":"@ + line_no + ":"@ + dec(e.col as nat) + "  无法解析\n"@;
    let q = "  "@ + line_no + " │ "@;
    let quoted = q + sl;
    let pad = (q.len() + e.col - 1) as nat;
    let caret = repeat(' ', pad) + "^"@;
    let tail = "原因："@ + reason_text(e.kind) + "\n"@ + "建议："@ + suggestion_text(e.kind);
    assert(repeat(' ', line_no.len()) + "     "@ + repeat(' ', (e.col - 1) as nat) + "^"@ =~= caret);
    assert(diagnostic_text(file, source, e) =~= head + quoted + "\n"@ + caret + "\n"@ + tail);
    lemma_dec_no_newline(e.line as nat);
    lemma_source_line_no_newline(source, e.line);
    assert forall|j: int| 0 <= j < quoted.len() implies quoted[j] != '\n' by {
        if j < 2 {
        } else if j < 2 + line_no.len() {
            assert(quoted[j] == line_no[j - 2]);
        } else if j < q.len() {
        } else {
            assert(quoted[j] == sl[j - q.len()]);
        }
    }
    assert(quoted.skip(quoted.len() - sl.len()) =~= sl);
    (head, quoted, caret, tail)
}

} // verus!

verus! {

// ---------------------------------------------------------------------------
// The pitch limit applies to shifted notes only
// ---------------------------------------------------------------------------

/// The outcome rejects a note for its pitch.
pub open spec fn rejects_pitch(o: OutcomeView) -> bool {
    o matches OutcomeView::Failed(e) && e.kind is PitchOutOfRange
}

proof fn lemma_lines_from_keep_out(s: Seq<char>, p: int, b: char)
    requires
        forall|x: int| 0 <= x < s.len() ==> s[x] != b,
    ensures
        forall|k: int, j: int|
            0 <= k < lines_from(s, p).len() && 0 <= j < lines_from(s, p)[k].len()
                ==> #[trigger] lines_from(s, p)[k][j] != b,
    decreases s.len() + 1 - p,
{
    if 0 <= p < s.len() {
        lemma_find_from_bounds(s, p, '\n');
        let e = find_from(s, p, '\n');
        let first = s.subrange(p, line_end(s, p));
        lemma_lines_from_keep_out(s, e + 1, b);
        let rest = lines_from(s, e + 1);
        assert(lines_from(s, p) == seq![first] + rest);
        assert forall|k: int, j: int|
            0 <= k < lines_from(s, p).len() && 0 <= j < lines_from(s, p)[k].len()
                implies #[trigger] lines_from(s, p)[k][j] != b by {
            if k == 0 {
                assert(lines_from(s, p)[k] == first);
                assert(first[j] == s[p + j]);
            } else {
                assert(lines_from(s, p)[k] == rest[k - 1]);
            }
        }
    }
}

proof fn lemma_scan_line_unshifted(
    km: KeymapView,
    v: Seq<crate::parser::NumberVerdict>,
    line: Seq<char>,
    lno: int,
    i: int,
    st: ParseState,
)
    requires
        0 <= i,
        forall|j: int| i <= j < line.len() ==> line[j] != '^' && line[j] != '_',
    ensures
        !(scan_line(km, v, line, lno, i, 0, st) matches LineStep::Stop(o) && rejects_pitch(o)),
    decreases line.len() - i,
{
    if i < line.len() {
        let c = line[i];
        let st1 = ParseState { last_line: lno, last_col: i + 1, ..st };
        if c == '#' || c == '@' {
        } else if crate::text::is_ws(c) || c == '=' || c == '-' {
            lemma_scan_line_unshifted(km, v, line, lno, i + 1, ParseState { cursor: st1.cursor + 2, ..st1 });
        } else if c == '.' {
        } else if km.order.contains(c) && km.resolve_fits(c, 0) {
            let k = run_len(line, i, c);
            let d = run_len(line, i + k, '.');
            lemma_run_len_bound(line, i, c);
            lemma_run_len_bound(line, i + k, '.');
            let dur = 2 * k + d;
            let n = NoteEvent {
                start_half_beats: st1.cursor as u64,
                dur_half_beats: dur as u64,
                midi: km.pitch(c, 0) as u8,
            };
            lemma_scan_line_unshifted(
                km,
                v,
                line,
                lno,
                i + k + d,
                ParseState { cursor: st1.cursor + dur, notes: st1.notes.push(n), saw_note: true, ..st1 },
            );
        }
    }
}

proof fn lemma_scan_lines_unshifted(
    km: KeymapView,
    v: Seq<crate::parser::NumberVerdict>,
    ls: Seq<Seq<char>>,
    k: int,
    st: ParseState,
)
    requires
        0 <= k,
        forall|m: int, j: int|
            k <= m < ls.len() && 0 <= j < ls[m].len() ==> #[trigger] ls[m][j] != '^' && ls[m][j]
                != '_',
    ensures
        !(scan_lines(km, v, ls, k, st) matches Some(o) && rejects_pitch(o)),
    decreases ls.len() - k,
{
    if k < ls.len() {
        assert forall|j: int| 0 <= j < ls[k].len() implies ls[k][j] != '^' && ls[k][j] != '_' by {
            assert(ls[k][j] == ls[k][j]);
        }
        lemma_scan_line_unshifted(km, v, ls[k], k + 1, 0, st);
        if let LineStep::Next(st2) = scan_line(km, v, ls[k], k + 1, 0, 0, st) {
            lemma_scan_lines_unshifted(km, v, ls, k + 1, st2);
        }
    }
}

/// Without any `^` or `_` in the text no note is octave-shifted, and no
/// note is ever rejected for its pitch: the C2–C7 limit applies to shifted
/// notes only.
pub proof fn law_unshifted_notes_never_rejected_for_pitch(
    text: Seq<char>,
    km: KeymapView,
    default_wave: Seq<char>,
    verdicts: Seq<crate::parser::NumberVerdict>,
)
    requires
        !text.contains('^'),
        !text.contains('_'),
    ensures
        !(parse_result(text, km, default_wave, verdicts) matches Some(o) && rejects_pitch(o)),
{
    assert forall|x: int| 0 <= x < text.len() implies text[x] != '^' by {
        if text[x] == '^' {
            assert(text.contains('^'));
        }
    }
    assert forall|x: int| 0 <= x < text.len() implies text[x] != '_' by {
        if text[x] == '_' {
            assert(text.contains('_'));
        }
    }
    lemma_lines_from_keep_out(text, 0, '^');
    lemma_lines_from_keep_out(text, 0, '_');
    lemma_scan_lines_unshifted(km, verdicts, lines(text), 0, initial_state(default_wave));
}

/// A text holding a single note character `c` of a valid key map parses to
/// exactly one note: at time 0, one beat long, at the key map's pitch for
/// `c` with no octave shift, whatever that pitch is (inside C2–C7 or not).
/// (`-` is excluded: it reads as a rest even where the key map lists it.)
pub proof fn law_single_note_sounds_its_pitch(
    c: char,
    km: KeymapView,
    default_wave: Seq<char>,
    verdicts: Seq<crate::parser::NumberVerdict>,
)
    requires
        km.wf(),
        km.order.contains(c),
        c != '-',
    ensures
        parse_result(seq![c], km, default_wave, verdicts) matches Some(OutcomeView::Parsed(s))
            && s.notes == seq![
            NoteEvent { start_half_beats: 0, dur_half_beats: 2, midi: km.pitch(c, 0) as u8 },
        ],
{
    let text = seq![c];
    let i = choose|i: int| 0 <= i < km.order.len() && km.order[i] == c;
    assert(!is_control(km.order[i]));
    assert(!crate::text::is_ws(c));
    assert(c != '\n');
    lemma_find_from_bounds(text, 0, '\n');
    assert(find_from(text, 1, '\n') == 1);
    assert(find_from(text, 0, '\n') == 1);
    assert(lines_from(text, 2) =~= Seq::<Seq<char>>::empty());
    assert(text.subrange(0, 1) =~= text);
    assert(lines(text) =~= seq![text]);
    lemma_resolve_fits(km, c, 0);
    let st0 = initial_state(default_wave);
    assert(run_len(text, 1, c) == 0);
    assert(run_len(text, 0, c) == 1);
    assert(run_len(text, 1, '.') == 0);
    let st1 = ParseState { last_line: 1, last_col: 1, ..st0 };
    let n = NoteEvent { start_half_beats: 0, dur_half_beats: 2, midi: km.pitch(c, 0) as u8 };
    let st2 = ParseState { cursor: 2, notes: st1.notes.push(n), saw_note: true, ..st1 };
    assert(scan_line(km, verdicts, text, 1, 1, 0, st2) == LineStep::Next(st2));
    assert(scan_line(km, verdicts, text, 1, 0, 0, st0) == LineStep::Next(st2));
    assert(scan_lines(km, verdicts, lines(text), 1, st2) == Some(finish(st2)));
    assert(st1.notes.push(n) =~= seq![n]);
}

/// A note character `c` of a valid key map under one `^` sounds an octave
/// above its unshifted pitch; the note is kept when that pitch lies within
/// C2–C7 (MIDI 36–96) and is rejected, at line 1 column 2, otherwise.
pub proof fn law_shifted_note_checked_against_limit(
    c: char,
    km: KeymapView,
    default_wave: Seq<char>,
    verdicts: Seq<crate::parser::NumberVerdict>,
)
    requires
        km.wf(),
        km.order.contains(c),
        c != '-',
    ensures
        PITCH_MIN <= km.pitch(c, 1) <= PITCH_MAX ==> (parse_result(
            seq!['^', c],
            km,
            default_wave,
            verdicts,
        ) matches Some(OutcomeView::Parsed(s)) && s.notes == seq![
            NoteEvent { start_half_beats: 0, dur_half_beats: 2, midi: km.pitch(c, 1) as u8 },
        ]),
        !(PITCH_MIN <= km.pitch(c, 1) <= PITCH_MAX) ==> parse_result(
            seq!['^', c],
            km,
            default_wave,
            verdicts,
        ) == Some(
            OutcomeView::Failed(
                ParseErrorView {
                    line: 1,
                    col: 2,
                    kind: ErrorKindView::PitchOutOfRange { c, midi: km.pitch(c, 1) as i32 },
                },
            ),
        ),
{
    let text = seq!['^', c];
    let i = choose|i: int| 0 <= i < km.order.len() && km.order[i] == c;
    assert(!is_control(km.order[i]));
    assert(!crate::text::is_ws(c));
    assert(c != '\n' && c != '^');
    lemma_find_from_bounds(text, 0, '\n');
    assert(find_from(text, 2, '\n') == 2);
    assert(find_from(text, 1, '\n') == 2);
    assert(find_from(text, 0, '\n') == 2);
    assert(lines_from(text, 3) =~= Seq::<Seq<char>>::empty());
    assert(text.subrange(0, 2) =~= text);
    assert(lines(text) =~= seq![text]);
    lemma_resolve_fits(km, c, 1);
    let st0 = initial_state(default_wave);
    assert(run_len(text, 2, c) == 0);
    assert(run_len(text, 1, c) == 1);
    assert(run_len(text, 2, '.') == 0);
    let st1 = ParseState { last_line: 1, last_col: 1, ..st0 };
    let st1b = ParseState { last_line: 1, last_col: 2, ..st1 };
    let midi = km.pitch(c, 1);
    let n = NoteEvent { start_half_beats: 0, dur_half_beats: 2, midi: midi as u8 };
    let st2 = ParseState { cursor: 2, notes: st1b.notes.push(n), saw_note: true, ..st1b };
    assert(scan_line(km, verdicts, text, 1, 0, 0, st0) == scan_line(km, verdicts, text, 1, 1, 1, st1));
    if PITCH_MIN <= midi <= PITCH_MAX {
        assert(scan_line(km, verdicts, text, 1, 2, 1, st2) == LineStep::Next(st2));
        assert(scan_line(km, verdicts, text, 1, 1, 1, st1) == LineStep::Next(st2));
        assert(scan_lines(km, verdicts, lines(text), 1, st2) == Some(finish(st2)));
        assert(st1b.notes.push(n) =~= seq![n]);
    }
}

} // verus!

verus! {

// ---------------------------------------------------------------------------
// Lines of a concatenated text
// ---------------------------------------------------------------------------

proof fn lemma_find_from_shift(a: Seq<char>, b: Seq<char>, q: int, c: char)
    requires
        0 <= q,
    ensures
        find_from(a + b, a.len() + q, c) == a.len() + find_from(b, q, c),
    decreases b.len() - q,
{
    if q < b.len() && b[q] != c {
        assert((a + b)[a.len() + q] == b[q]);
        lemma_find_from_shift(a, b, q + 1, c);
    } else if q < b.len() {
        assert((a + b)[a.len() + q] == b[q]);
    }
}

proof fn lemma_lines_from_shift(a: Seq<char>, b: Seq<char>, q: int)
    requires
        0 <= q,
    ensures
        lines_from(a + b, a.len() + q) == lines_from(b, q),
    decreases b.len() + 1 - q,
{
    let s = a + b;
    let p = a.len() + q;
    if q < b.len() {
        lemma_find_from_shift(a, b, q, '\n');
        lemma_find_from_bounds(b, q, '\n');
        let e = find_from(b, q, '\n');
        if e < b.len() && e > q {
            assert(s[a.len() + e - 1] == b[e - 1]);
        }
        assert(line_end(s, p) == a.len() + line_end(b, q));
        assert(s.subrange(p, line_end(s, p)) =~= b.subrange(q, line_end(b, q)));
        lemma_lines_from_shift(a, b, e + 1);
    }
}

proof fn lemma_find_from_prefix(a: Seq<char>, b: Seq<char>, from: int, c: char)
    requires
        0 <= from < a.len(),
        a.last() == c,
    ensures
        find_from(a + b, from, c) == find_from(a, from, c),
        find_from(a, from, c) < a.len(),
    decreases a.len() - from,
{
    assert((a + b)[from] == a[from]);
    if a[from] != c {
        lemma_find_from_prefix(a, b, from + 1, c);
    }
}

proof fn lemma_lines_from_concat(a: Seq<char>, b: Seq<char>, p: int)
    requires
        0 <= p <= a.len(),
        a.len() == 0 || a.last() == '\n',
    ensures
        lines_from(a + b, p) == lines_from(a, p) + lines(b),
    decreases a.len() - p,
{
    let s = a + b;
    if p == a.len() {
        lemma_lines_from_shift(a, b, 0);
        assert(lines_from(a, p) + lines(b) =~= lines(b));
    } else {
        lemma_find_from_prefix(a, b, p, '\n');
        lemma_find_from_bounds(a, p, '\n');
        let e = find_from(a, p, '\n');
        if e > p {
            assert(s[e - 1] == a[e - 1]);
        }
        assert(line_end(s, p) == line_end(a, p));
        assert(s.subrange(p, line_end(s, p)) =~= a.subrange(p, line_end(a, p)));
        lemma_lines_from_concat(a, b, e + 1);
        let first = a.subrange(p, line_end(a, p));
        assert(seq![first] + (lines_from(a, e + 1) + lines(b)) =~= (seq![first] + lines_from(
            a,
            e + 1,
        )) + lines(b));
    }
}

/// The usage count of a character adds up over the texts of a score: for a
/// text `a` that is empty or ends with a newline, followed by a text `b`, it
/// is its count in `a` plus its count in `b`.
pub proof fn law_usage_adds_over_texts(a: Seq<char>, b: Seq<char>, c: char)
    requires
        a.len() == 0 || a.last() == '\n',
    ensures
        usage(a + b, c) == usage(a, c) + usage(b, c),
{
    lemma_lines_from_concat(a, b, 0);
    law_usage_adds_over_lines(lines(a), lines(b), c);
}

} // verus!

verus! {

// ---------------------------------------------------------------------------
// The key usage listing
// ---------------------------------------------------------------------------

proof fn lemma_usage_list_prefix(order: Seq<char>, source: Seq<char>, j: int)
    requires
        0 <= j <= order.len(),
    ensures
        usage_list(order, source, j) == order.take(j).filter(|ch: char| usage(source, ch) > 0).map_values(
            |ch: char| (ch, usage(source, ch)),
        ),
    decreases j,
{
    reveal(Seq::filter);
    let pred = |ch: char| usage(source, ch) > 0;
    let f = |ch: char| (ch, usage(source, ch));
    if j == 0 {
        assert(order.take(0).filter(pred) =~= Seq::<char>::empty());
        assert(order.take(0).filter(pred).map_values(f) =~= Seq::<(char, nat)>::empty());
    } else {
        lemma_usage_list_prefix(order, source, j - 1);
        let t = order.take(j);
        assert(t.drop_last() =~= order.take(j - 1));
        assert(t.last() == order[j - 1]);
        let prev = order.take(j - 1).filter(pred);
        assert(t.filter(pred) == (if pred(t.last()) {
            t.drop_last().filter(pred).push(t.last())
        } else {
            t.drop_last().filter(pred)
        }));
        if pred(order[j - 1]) {
            assert(t.filter(pred) == prev.push(order[j - 1]));
            assert(prev.push(order[j - 1]).map_values(f) =~= prev.map_values(f).push(f(order[j - 1])));
        } else {
            assert(t.filter(pred) == prev);
        }
    }
}

/// The key usage listing is the key map's character order kept to the
/// characters the score uses (a usage count above zero), each paired with
/// its usage count: used characters appear once each, in key-map order, and
/// unused ones not at all.
pub proof fn law_usage_list_is_used_chars_in_order(order: Seq<char>, source: Seq<char>)
    ensures
        usage_list(order, source, order.len() as int) == order.filter(|ch: char| usage(source, ch) > 0).map_values(
            |ch: char| (ch, usage(source, ch)),
        ),
{
    lemma_usage_list_prefix(order, source, order.len() as int);
    assert(order.take(order.len() as int) =~= order);
}

} // verus!

verus! {

// ---------------------------------------------------------------------------
// Waveform names
// ---------------------------------------------------------------------------

proof fn lemma_lower_char_props(c: char)
    ensures
        is_ws(lower_char(c)) == is_ws(c),
        lower_char(lower_char(c)) == lower_char(c),
{
    if 'A' <= c <= 'Z' {
        let u = (c as u32) + 32;
        assert(0x61 <= u <= 0x7A);
        assert((u as char) as u32 == u);
    }
}

proof fn lemma_trim_start_props(s: Seq<char>)
    ensures
        trim_start(s).len() <= s.len(),
        trim_start(s).len() > 0 ==> !is_ws(trim_start(s)[0]),
    decreases s.len(),
{
    if s.len() > 0 && is_ws(s[0]) {
        lemma_trim_start_props(s.drop_first());
    }
}

proof fn lemma_trim_end_props(s: Seq<char>)
    ensures
        trim_end(s).len() <= s.len(),
        trim_end(s) == s.take(trim_end(s).len() as int),
        trim_end(s).len() > 0 ==> !is_ws(trim_end(s).last()),
    decreases s.len(),
{
    if s.len() > 0 && is_ws(s.last()) {
        lemma_trim_end_props(s.drop_last());
        assert(s.drop_last().take(trim_end(s).len() as int) =~= s.take(trim_end(s).len() as int));
    } else {
        assert(s.take(s.len() as int) =~= s);
    }
}

/// Only the trimmed, lower-cased text of a waveform value matters:
/// surrounding whitespace and ASCII case are ignored.
pub proof fn law_waveform_names_ignore_case_and_blanks(s: Seq<char>)
    ensures
        waveform_named(s) == waveform_named(lower(trim(s))),
{
    let tr = trim(s);
    lemma_trim_start_props(s);
    lemma_trim_end_props(trim_start(s));
    if tr.len() > 0 {
        assert(tr[0] == trim_start(s)[0]);
    }
    let t = lower(tr);
    if t.len() > 0 {
        lemma_lower_char_props(tr[0]);
        lemma_lower_char_props(tr.last());
        assert(t[0] == lower_char(tr[0]));
        assert(t.last() == lower_char(tr.last()));
        assert(trim_start(t) == t);
        assert(trim_end(t) == t);
    } else {
        assert(trim_start(t) == t);
        assert(trim_end(t) == t);
    }
    assert(trim(t) == t);
    assert forall|i: int| 0 <= i < t.len() implies #[trigger] lower(t)[i] == t[i] by {
        lemma_lower_char_props(tr[i]);
    }
    assert(lower(t) =~= t);
}

} // verus!
