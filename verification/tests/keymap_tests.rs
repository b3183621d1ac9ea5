use mm_core::config::{keymap, validate, ConfigError, DEFAULT_BASE_MIDI, DEFAULT_CHAR_ORDER, DEFAULT_PITCH_TABLE};
use mm_core::keymap::{is_control_char, Keymap, KeymapError};

#[test]
fn default_resolution_matches_prd() {
    let km = Keymap::default();
    // '0'→C3, 'c'→C4, 'h'→F4, 'j'→G4, 'l'→A4
    assert_eq!(km.resolve('0', 0), Some(48)); // C3
    assert_eq!(km.resolve('c', 0), Some(60)); // C4
    assert_eq!(km.resolve('h', 0), Some(65)); // F4
    assert_eq!(km.resolve('j', 0), Some(67)); // G4
    assert_eq!(km.resolve('l', 0), Some(69)); // A4
}

#[test]
fn octave_shift_moves_by_octave() {
    let km = Keymap::default();
    assert_eq!(km.resolve('c', 1), Some(72)); // 60 + 12
    assert_eq!(km.resolve('c', -1), Some(48)); // 60 - 12
    assert_eq!(km.resolve('c', 2), Some(84));
}

#[test]
fn non_note_char_is_none() {
    let km = Keymap::default();
    assert_eq!(km.resolve('@', 0), None);
    assert_eq!(km.is_note_char('['), false);
}

#[test]
fn rejects_duplicate_and_control_chars() {
    let e = Keymap::new(vec!['a', 'b', 'a'], vec![0], 48);
    assert!(matches!(e, Err(KeymapError::DuplicateChar('a'))));
    let e = Keymap::new(vec!['a', '^'], vec![0], 48);
    assert!(matches!(e, Err(KeymapError::ReservedChar('^'))));
}

#[test]
fn keymap_rejects_empty_tables_and_bad_base() {
    assert!(matches!(Keymap::new(vec![], vec![0], 48), Err(KeymapError::EmptyCharOrder)));
    assert!(matches!(Keymap::new(vec!['a'], vec![], 48), Err(KeymapError::EmptyPitchTable)));
    assert!(matches!(Keymap::new(vec!['a'], vec![0], 128), Err(KeymapError::BaseMidiOutOfRange)));
    assert!(matches!(Keymap::new(vec!['a', ' '], vec![0], 48), Err(KeymapError::WhitespaceInOrder)));
    // the first offending character decides
    assert!(matches!(Keymap::new(vec!['a', 'a', '^'], vec![0], 48), Err(KeymapError::DuplicateChar('a'))));
    assert!(matches!(Keymap::new(vec!['^', 'a', 'a'], vec![0], 48), Err(KeymapError::ReservedChar('^'))));
}

#[test]
fn default_keymap_tables() {
    let km = Keymap::default();
    assert_eq!(km.char_order().len(), 62);
    assert_eq!(km.pitch_table(), &[0, 1, 2, 3, 4, 5, 6, 7, 8, 9, 10, 11]);
    assert_eq!(km.base_midi(), 48);
    assert_eq!(km.index_of('0'), Some(0));
    assert_eq!(km.index_of('Z'), Some(61));
    assert_eq!(km.index_of('-'), None);
    assert!(km.is_note_char('Z'));
}

#[test]
fn each_table_pass_is_one_octave_up() {
    let km = Keymap::default();
    // 'c' is index 12, 'o' is index 24, 'A' is index 36
    assert_eq!(km.resolve('o', 0), Some(72));
    assert_eq!(km.resolve('A', 0), Some(84));
    assert_eq!(km.resolve('Z', 0), Some(109));
}

#[test]
fn custom_table_resolution() {
    // pentatonic table, base C4
    let km = Keymap::new(vec!['a', 'b', 'c', 'd', 'e', 'f'], vec![0, 2, 4, 7, 9], 60).unwrap();
    assert_eq!(km.resolve('a', 0), Some(60));
    assert_eq!(km.resolve('e', 0), Some(69));
    assert_eq!(km.resolve('f', 0), Some(72));
    assert_eq!(km.resolve('f', -2), Some(48));
    // negative table entries below the base
    let km = Keymap::new(vec!['x'], vec![-3], 0).unwrap();
    assert_eq!(km.resolve('x', 0), Some(-3));
}

#[test]
fn control_chars() {
    for c in ['^', '_', '=', '.', '#', '@', ' ', '\t', '\u{3000}'] {
        assert!(is_control_char(c), "{c:?}");
    }
    for c in ['a', '-', 'v', '[', '0'] {
        assert!(!is_control_char(c), "{c:?}");
    }
}

#[test]
fn keymap_error_messages() {
    assert_eq!(KeymapError::DuplicateChar('a').message(), "字符排序表中存在重复字符 'a'");
    assert_eq!(KeymapError::ReservedChar('^').message(), "字符 '^' 与保留语法字符冲突");
    assert_eq!(KeymapError::BaseMidiOutOfRange.message(), "起始音高 base_midi 越界（0–127）");
}

#[test]
fn config_keymap_and_validate() {
    let km = keymap(DEFAULT_CHAR_ORDER, &DEFAULT_PITCH_TABLE, DEFAULT_BASE_MIDI).unwrap();
    assert_eq!(km.resolve('c', 0), Some(60));
    assert_eq!(
        keymap("aba", &[0], 48).err(),
        Some(ConfigError::Invalid("字符排序表中存在重复字符 'a'".to_string()))
    );
    assert_eq!(validate(DEFAULT_CHAR_ORDER, &DEFAULT_PITCH_TABLE, 48, true, true, 44100, "square"), Ok(()));
    assert_eq!(
        validate(DEFAULT_CHAR_ORDER, &DEFAULT_PITCH_TABLE, 48, false, true, 44100, "square"),
        Err(ConfigError::Invalid("bpm 越界，合法范围 20-300".to_string()))
    );
    assert_eq!(
        validate(DEFAULT_CHAR_ORDER, &DEFAULT_PITCH_TABLE, 48, true, false, 44100, "square"),
        Err(ConfigError::Invalid("volume 越界，合法范围 0-1".to_string()))
    );
    assert_eq!(
        validate(DEFAULT_CHAR_ORDER, &DEFAULT_PITCH_TABLE, 48, true, true, 7999, "square"),
        Err(ConfigError::Invalid("sample_rate 越界，合法范围 8000–192000".to_string()))
    );
    assert_eq!(
        validate(DEFAULT_CHAR_ORDER, &DEFAULT_PITCH_TABLE, 48, true, true, 192000, "triangle"),
        Err(ConfigError::Invalid("wave 必须是 sine / square / saw 之一".to_string()))
    );
    // the key map is checked first
    assert_eq!(
        validate("a^", &[0], 48, false, false, 1, "x"),
        Err(ConfigError::Invalid("字符 '^' 与保留语法字符冲突".to_string()))
    );
    assert_eq!(ConfigError::Io("x".to_string()).message(), "配置文件不可读：x");
    assert_eq!(ConfigError::Parse("y".to_string()).message(), "配置文件格式错误：y");
    assert_eq!(ConfigError::Invalid("z".to_string()).message(), "配置内容非法：z");
}
