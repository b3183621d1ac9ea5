use mm_core::cli::{check_render_args, is_affirmative, keymap_table_lines, pitch_table_line, usage_line, used_note_chars, AppError};
use mm_core::keymap::Keymap;
use mm_core::model::{note_name, NoteEvent, Score, ScoreParams, Waveform};
use mm_core::parser::{ParseError, ParseErrorKind};
use mm_core::render::RenderError;

#[test]
fn note_names() {
    assert_eq!(note_name(48), "C3");
    assert_eq!(note_name(61), "C#4");
    assert_eq!(note_name(0), "C-1");
    assert_eq!(note_name(11), "B-1");
    assert_eq!(note_name(127), "G9");
    assert_eq!(note_name(255), "D#20");
}

#[test]
fn waveform_names_round_trip() {
    for w in [Waveform::Sine, Waveform::Square, Waveform::Saw] {
        assert_eq!(Waveform::from_str(w.name()), Some(w));
    }
    assert_eq!(Waveform::from_str(" Sin "), Some(Waveform::Sine));
    assert_eq!(Waveform::from_str("SQ"), Some(Waveform::Square));
    assert_eq!(Waveform::from_str("saw"), Some(Waveform::Saw));
    assert_eq!(Waveform::from_str("triangle"), None);
    assert_eq!(Waveform::default(), Waveform::Square);
    assert_eq!(Waveform::Saw.name(), "sawtooth");
}

#[test]
fn total_half_beats_is_latest_end() {
    let s = Score {
        notes: vec![NoteEvent::new(0, 4, 60), NoteEvent::new(6, 2, 65), NoteEvent::new(1, 1, 62)],
        params: ScoreParams::default(),
    };
    assert_eq!(s.total_half_beats(), 8);
    let empty = Score { notes: vec![], params: ScoreParams::default() };
    assert_eq!(empty.total_half_beats(), 0);
}

#[test]
fn app_errors() {
    let parse = AppError::Parse {
        file: "a.txt".to_string(),
        source: "[".to_string(),
        error: ParseError { line: 1, col: 1, kind: ParseErrorKind::UnknownCharacter('[') },
    };
    assert_eq!(parse.exit_code(), 1);
    assert_eq!(parse.message(), "解析失败");
    assert!(parse.report().starts_with("a.txt:1:1  无法解析\n  1 │ [\n      ^\n"));
    assert_eq!(AppError::Render("x".to_string()).exit_code(), 2);
    assert_eq!(AppError::Play("x".to_string()).exit_code(), 2);
    assert_eq!(AppError::Config("x".to_string()).exit_code(), 3);
    assert_eq!(AppError::Args("x".to_string()).exit_code(), 3);
    assert_eq!(AppError::Render("磁盘满".to_string()).message(), "渲染失败：磁盘满");
    assert_eq!(AppError::Args("x".to_string()).report(), "mm: 错误: 参数错误：x");
    assert_eq!(RenderError::Message("io".to_string()).message(), "io");
}

#[test]
fn render_argument_checks() {
    assert!(check_render_args(1, 44100, true).is_ok());
    assert!(check_render_args(3, 8000, false).is_ok());
    assert!(matches!(check_render_args(0, 44100, false), Err(AppError::Args(m)) if m == "render 至少需要一个谱面文件"));
    assert!(matches!(check_render_args(1, 192001, false), Err(AppError::Args(m)) if m == "采样率越界，合法范围 8000–192000"));
    assert!(matches!(check_render_args(2, 44100, true), Err(AppError::Args(m)) if m.starts_with("-o 仅适用于单个谱面")));
}

#[test]
fn overwrite_answers() {
    assert!(is_affirmative("y\n"));
    assert!(is_affirmative(" YES "));
    assert!(!is_affirmative("n"));
    assert!(!is_affirmative(""));
    assert!(!is_affirmative("yess"));
}

#[test]
fn keymap_listings() {
    let km = Keymap::default();
    let lines = keymap_table_lines(&km);
    assert_eq!(lines.len(), 11);
    assert_eq!(lines[0], "  0→C3    1→C#3   2→D3    3→D#3   4→E3    5→F3  ");
    assert_eq!(lines[10], "  Y→C8    Z→C#8 ");
    assert_eq!(pitch_table_line(&km), "音高表: [0, 1, 2, 3, 4, 5, 6, 7, 8, 9, 10, 11]");
    assert_eq!(usage_line(&km, 'c', 3), "  'c' x3    → C4 (MIDI 60)");
}

#[test]
fn used_characters_in_keymap_order() {
    let km = Keymap::default();
    let src = "@BPM=120\ncc a # zz\n  # only comment\nb@\n";
    let used = used_note_chars(src, &km);
    assert_eq!(used, vec![('a', 1), ('b', 1), ('c', 2)]);
}
