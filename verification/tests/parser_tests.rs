use mm_core::config::{keymap, DEFAULT_BASE_MIDI, DEFAULT_CHAR_ORDER, DEFAULT_PITCH_TABLE, DEFAULT_WAVE};
use mm_core::diagnostics::format_error;
use mm_core::model::{Score, Waveform};
use mm_core::parser::{parse, NumberVerdict, ParseError, ParseErrorKind, ParseOutcome};

/// The caller's side of the number protocol: a float parse and range check.
fn judge(name: &str, value: &str) -> NumberVerdict {
    match value.parse::<f64>() {
        Err(_) => NumberVerdict::NotANumber,
        Ok(v) => {
            let (lo, hi) = if name == "bpm" { (20.0, 300.0) } else { (0.0, 1.0) };
            if (lo..=hi).contains(&v) {
                NumberVerdict::Accepted
            } else {
                NumberVerdict::OutOfRange
            }
        }
    }
}

fn parse_default(text: &str) -> Result<Score, ParseError> {
    let km = keymap(DEFAULT_CHAR_ORDER, &DEFAULT_PITCH_TABLE, DEFAULT_BASE_MIDI).expect("默认配置合法");
    let mut verdicts = Vec::new();
    loop {
        match parse(text, &km, DEFAULT_WAVE, &verdicts) {
            ParseOutcome::Parsed(s) => return Ok(s),
            ParseOutcome::Failed(e) => return Err(e),
            ParseOutcome::NeedsVerdict(q) => verdicts.push(judge(&q.name, &q.value)),
        }
    }
}

fn assert_kind(text: &str, kind: ParseErrorKind) {
    let e = parse_default(text).expect_err("应当解析失败");
    assert_eq!(e.kind, kind);
}

fn beats(half: u64) -> f64 {
    half as f64 / 2.0
}

fn bpm_of(s: &Score) -> f64 {
    s.params.bpm.as_deref().map(|t| t.parse::<f64>().unwrap()).unwrap_or(120.0)
}

fn volume_of(s: &Score) -> f64 {
    s.params.volume.as_deref().map(|t| t.parse::<f64>().unwrap()).unwrap_or(0.8)
}

#[test]
fn twinkle_parses_to_expected_notes() {
    let score = parse_default("ccjjllj hhggeec\n").expect("解析成功");
    assert_eq!(score.notes.len(), 8);
    let mids: Vec<u8> = score.notes.iter().map(|n| n.midi).collect();
    assert_eq!(mids, vec![60, 67, 69, 67, 65, 64, 62, 60]);
    assert_eq!(beats(score.notes[0].dur_half_beats), 2.0);
    assert_eq!(beats(score.notes[3].start_half_beats), 6.0);
    assert_eq!(beats(score.notes[4].start_half_beats), 8.0);
    assert_eq!(score.params.waveform, Waveform::Square);
}

#[test]
fn directive_controls_params() {
    let score = parse_default("@BPM=150\n@VOL=0.5\n@WAVE=saw\nccc\n").expect("解析成功");
    assert_eq!(bpm_of(&score), 150.0);
    assert_eq!(volume_of(&score), 0.5);
    assert_eq!(score.params.waveform, Waveform::Saw);
}

#[test]
fn bpm_out_of_range() {
    assert_kind("@BPM=500\ncc\n", ParseErrorKind::DirectiveValueOutOfRange {
        name: "bpm".to_string(),
        value: "500".to_string(),
        range: "20-300".to_string(),
    });
}

#[test]
fn duplicate_directive_rejected() {
    assert_kind("@BPM=120\n@BPM=130\ncc\n", ParseErrorKind::DuplicateDirective("bpm".to_string()));
}

#[test]
fn directive_after_note_rejected() {
    assert_kind("cc\n@BPM=120\n", ParseErrorKind::DirectiveAfterNotes("bpm".to_string()));
}

#[test]
fn unknown_directive_rejected() {
    assert_kind("@FOO=1\ncc\n", ParseErrorKind::UnknownDirective("foo".to_string()));
}

#[test]
fn empty_and_comment_only_are_errors() {
    assert_kind("", ParseErrorKind::EmptyScore);
    assert_kind("# 只有注释\n# 还是注释\n", ParseErrorKind::EmptyScore);
    assert_kind("   = - \n", ParseErrorKind::EmptyScore);
}

#[test]
fn unknown_char_reports_positions() {
    let e = parse_default("abc[def").expect_err("应当解析失败");
    assert_eq!(e.line, 1);
    assert_eq!(e.col, 4);
    assert_eq!(e.kind, ParseErrorKind::UnknownCharacter('['));
}

#[test]
fn lone_dot_rejected() {
    assert_kind(".abc\n", ParseErrorKind::LoneDot);
}

#[test]
fn tie_extends_duration() {
    let score = parse_default("aaa bb\n").expect("解析成功");
    assert_eq!(beats(score.notes[0].dur_half_beats), 3.0);
    assert_eq!(beats(score.notes[1].dur_half_beats), 2.0);
    assert_eq!(beats(score.notes[1].start_half_beats), 4.0);
}

#[test]
fn dot_extends_half_beat() {
    let score = parse_default("a. a..\n").expect("解析成功");
    assert_eq!(beats(score.notes[0].dur_half_beats), 1.5);
    assert_eq!(beats(score.notes[1].dur_half_beats), 2.0);
    assert_eq!(beats(score.notes[1].start_half_beats), 2.5);
}

#[test]
fn octave_marker_scopes_to_line_end() {
    let score = parse_default("^cd\n__cd\n").expect("解析成功");
    assert_eq!(score.notes[0].midi, 72);
    assert_eq!(score.notes[1].midi, 73);
    assert_eq!(score.notes[2].midi, 36);
    assert_eq!(score.notes[3].midi, 37);
}

#[test]
fn octave_shift_out_of_range() {
    assert_kind("___cc\n", ParseErrorKind::PitchOutOfRange { c: 'c', midi: 24 });
}

#[test]
fn diagnostic_shows_position_and_caret() {
    let src = "abc[def\n";
    let e = parse_default(src).expect_err("应当失败");
    assert_eq!(e.kind, ParseErrorKind::UnknownCharacter('['));
    let out = format_error("demo.txt", src, &e);
    assert!(out.contains("demo.txt:1:4"), "应含文件与行列：{}", out);
    assert!(out.contains("^"), "应含定位标记");
    assert!(out.contains("原因："), "应含原因");
    assert!(out.contains("建议："), "应含建议");
}

// ---------------------------------------------------------------------------
// Further cases
// ---------------------------------------------------------------------------

#[test]
fn number_queries_come_in_order() {
    let km = keymap(DEFAULT_CHAR_ORDER, &DEFAULT_PITCH_TABLE, DEFAULT_BASE_MIDI).unwrap();
    // the directive token stops at the first blank: "@BPM = 90" has no '='
    match parse("@BPM = 90\nc\n", &km, "sine", &[]) {
        ParseOutcome::Failed(e) => assert_eq!(e.kind, ParseErrorKind::UnknownDirective("BPM".to_string())),
        other => panic!("{other:?}"),
    }
    match parse("@BPM=90 \nc\n", &km, "sine", &[]) {
        ParseOutcome::NeedsVerdict(q) => {
            assert_eq!(q.name, "bpm");
            assert_eq!(q.value, "90");
        }
        other => panic!("{other:?}"),
    }
    let text = "@BPM=90\n@vol=1\nc\n";
    match parse(text, &km, "sine", &[NumberVerdict::Accepted]) {
        ParseOutcome::NeedsVerdict(q) => {
            assert_eq!(q.name, "vol");
            assert_eq!(q.value, "1");
        }
        other => panic!("{other:?}"),
    }
    match parse(text, &km, "sine", &[NumberVerdict::Accepted, NumberVerdict::Accepted]) {
        ParseOutcome::Parsed(s) => {
            assert_eq!(s.params.bpm.as_deref(), Some("90"));
            assert_eq!(s.params.volume.as_deref(), Some("1"));
            assert_eq!(s.params.waveform, Waveform::Sine);
        }
        other => panic!("{other:?}"),
    }
}

#[test]
fn directive_value_errors() {
    assert_kind(
        "@BPM=fast\nc\n",
        ParseErrorKind::DirectiveValueInvalid("bpm".to_string(), "fast".to_string()),
    );
    assert_kind("@VOL=1.5\nc\n", ParseErrorKind::DirectiveValueOutOfRange {
        name: "vol".to_string(),
        value: "1.5".to_string(),
        range: "0-1".to_string(),
    });
    assert_kind("@WAVE=triangle\nc\n", ParseErrorKind::DirectiveValueOutOfRange {
        name: "wave".to_string(),
        value: "triangle".to_string(),
        range: "sine | square | saw".to_string(),
    });
    // without '=' the token is reported as written
    assert_kind("@Tempo\nc\n", ParseErrorKind::UnknownDirective("Tempo".to_string()));
}

#[test]
fn error_positions_and_line_endings() {
    let e = parse_default("cc\r\n  [\n").expect_err("失败");
    assert_eq!((e.line, e.col), (2, 3));
    // empty score points at the last character looked at
    let e = parse_default("# a\n  \n").expect_err("失败");
    assert_eq!((e.line, e.col, e.kind), (2, 2, ParseErrorKind::EmptyScore));
    let e = parse_default("").expect_err("失败");
    assert_eq!((e.line, e.col), (1, 1));
}

#[test]
fn rests_and_comments() {
    let score = parse_default("c=-\td # e f\n").expect("成功");
    assert_eq!(score.notes.len(), 2);
    assert_eq!(beats(score.notes[1].start_half_beats), 4.0);
    let score = parse_default("c\nd\n").expect("成功");
    // line ends do not take time
    assert_eq!(beats(score.notes[1].start_half_beats), 1.0);
}

#[test]
fn config_wave_is_the_default_waveform() {
    let km = keymap(DEFAULT_CHAR_ORDER, &DEFAULT_PITCH_TABLE, DEFAULT_BASE_MIDI).unwrap();
    match parse("c", &km, " SAWTOOTH ", &[]) {
        ParseOutcome::Parsed(s) => assert_eq!(s.params.waveform, Waveform::Saw),
        other => panic!("{other:?}"),
    }
    match parse("c", &km, "organ", &[]) {
        ParseOutcome::Parsed(s) => assert_eq!(s.params.waveform, Waveform::Square),
        other => panic!("{other:?}"),
    }
}

#[test]
fn messages_and_suggestions() {
    let e = ParseError { line: 1, col: 1, kind: ParseErrorKind::PitchOutOfRange { c: 'c', midi: 24 } };
    assert_eq!(e.message(), "字符 'c' 经八度移位后音高 24 越出 C2–C7 范围");
    assert_eq!(e.suggestion(), "减少 ^/_ 的使用次数，或调整起始音高");
    let e = ParseError { line: 1, col: 1, kind: ParseErrorKind::PitchOutOfRange { c: 'c', midi: -5 } };
    assert_eq!(e.message(), "字符 'c' 经八度移位后音高 -5 越出 C2–C7 范围");
    let e = ParseError {
        line: 3,
        col: 1,
        kind: ParseErrorKind::DirectiveAfterNotes("bpm".to_string()),
    };
    assert_eq!(e.message(), "指令 @bpm 出现在音符之后，指令只允许位于文件头（首个音符之前）");
    assert_eq!(e.suggestion(), "将 @bpm 移动到文件顶部（首个音符字符之前）");
}

#[test]
fn diagnostic_full_text() {
    let src = "cc\n  ab[\n";
    let e = parse_default(src).expect_err("失败");
    let out = format_error("s.txt", src, &e);
    assert_eq!(
        out,
        "s.txt:2:5  无法解析\n  2 │   ab[\n          ^\n原因：字符 '[' 不是音符字符，且不属于保留语法（^ _ = . # @）\n建议：将其改为音符字符，或删除；可运行 mm keymap show 查看可选字符"
    );
}

#[test]
fn parsed_notes_follow_each_other() {
    let score = parse_default("ab.. c=d\n^e  ff.\n").expect("成功");
    for w in score.notes.windows(2) {
        assert!(w[0].start_half_beats + w[0].dur_half_beats <= w[1].start_half_beats);
    }
    assert!(score.notes.iter().all(|n| n.dur_half_beats >= 2));
}

#[test]
fn extra_verdicts_change_nothing() {
    let km = keymap(DEFAULT_CHAR_ORDER, &DEFAULT_PITCH_TABLE, DEFAULT_BASE_MIDI).unwrap();
    let text = "@BPM=100\nabc\n";
    let one = [NumberVerdict::Accepted];
    let more = [NumberVerdict::Accepted, NumberVerdict::OutOfRange, NumberVerdict::NotANumber];
    let a = format!("{:?}", parse(text, &km, "square", &one));
    let b = format!("{:?}", parse(text, &km, "square", &more));
    assert_eq!(a, b);
    assert!(a.starts_with("Parsed"));
}

#[test]
fn two_verdicts_end_the_questions() {
    let km = keymap(DEFAULT_CHAR_ORDER, &DEFAULT_PITCH_TABLE, DEFAULT_BASE_MIDI).unwrap();
    let two = [NumberVerdict::Accepted, NumberVerdict::Accepted];
    for text in ["@BPM=1\n@VOL=2\n@BPM=3\nc", "@VOL=1\n@BPM=2\n@VOL=3\nc", "@BPM=1\n@VOL=2\nc"] {
        assert!(!matches!(parse(text, &km, "square", &two), ParseOutcome::NeedsVerdict(_)));
    }
}

#[test]
fn many_octave_marks_stay_defined() {
    let km = keymap(DEFAULT_CHAR_ORDER, &DEFAULT_PITCH_TABLE, DEFAULT_BASE_MIDI).unwrap();
    let text = format!("{}c", "^".repeat(10));
    match mm_core::parser::try_parse(&text, &km, "square", &[]) {
        Some(ParseOutcome::Failed(e)) => {
            assert_eq!(e.kind, ParseErrorKind::PitchOutOfRange { c: 'c', midi: 180 });
            assert_eq!((e.line, e.col), (1, 11));
        }
        other => panic!("{other:?}"),
    }
}

#[test]
fn caret_stands_under_the_column() {
    for (src, col) in [("[", 1usize), ("abc[def", 4), ("cc\n  ab[\n", 5)] {
        let e = parse_default(src).expect_err("失败");
        assert_eq!(e.col, col);
        let out = format_error("f", src, &e);
        let ls: Vec<&str> = out.lines().collect();
        let quoted: Vec<char> = ls[1].chars().collect();
        let caret = ls[2].chars().position(|x| x == '^').unwrap();
        assert_eq!(quoted[caret], '[');
        assert_eq!(caret, e.line.to_string().len() + 5 + col - 1);
    }
}
