//! Configuration: key mapping and default parameters.
use vstd::prelude::*;
use crate::keymap::{keymap_error_text, keymap_problem, Keymap, KeymapView};
use crate::model::{waveform_named, Waveform};
use crate::text::{chars_of, owned, push_str};

verus! {

/// Default character order: digits, lower-case letters, upper-case letters.
pub const DEFAULT_CHAR_ORDER: &'static str = "0123456789abcdefghijklmnopqrstuvwxyzABCDEFGHIJKLMNOPQRSTUVWXYZ";

/// The 12 semitones, from the lowest up.
pub const DEFAULT_PITCH_TABLE: [i8; 12] = [0, 1, 2, 3, 4, 5, 6, 7, 8, 9, 10, 11];

/// C3 in scientific pitch notation.
pub const DEFAULT_BASE_MIDI: u8 = 48;

pub const DEFAULT_WAVE: &'static str = "square";

pub const DEFAULT_SAMPLE_RATE: u32 = 44100;

} // verus!

verus! {

/// Why a configuration cannot be used.
#[derive(Debug, Clone, PartialEq)]
pub enum ConfigError {
    /// The file could not be read.
    Io(String),
    /// The file is not well-formed.
    Parse(String),
    /// A field holds a value outside its domain.
    Invalid(String),
}

pub enum ConfigErrorView {
    Io(Seq<char>),
    Parse(Seq<char>),
    Invalid(Seq<char>),
}

impl View for ConfigError {
    type V = ConfigErrorView;

    open spec fn view(&self) -> ConfigErrorView {
        match self {
            ConfigError::Io(m) => ConfigErrorView::Io(m@),
            ConfigError::Parse(m) => ConfigErrorView::Parse(m@),
            ConfigError::Invalid(m) => ConfigErrorView::Invalid(m@),
        }
    }
}

/// Message text of a configuration error.
pub open spec fn config_error_text(e: ConfigErrorView) -> Seq<char> {
    match e {
        ConfigErrorView::Io(m) => "配置文件不可读："@ + m,
        ConfigErrorView::Parse(m) => "配置文件格式错误："@ + m,
        ConfigErrorView::Invalid(m) => "配置内容非法："@ + m,
    }
}

impl ConfigError {
    /// The error's message.
    pub fn message(&self) -> (res: String)
        ensures
            res@ == config_error_text(self@),
    {
        let (mut s, m) = match self {
            ConfigError::Io(m) => (owned("配置文件不可读："), m),
            ConfigError::Parse(m) => (owned("配置文件格式错误："), m),
            ConfigError::Invalid(m) => (owned("配置内容非法："), m),
        };
        push_str(&mut s, m.as_str());
        s
    }
}

/// Copy of a pitch table.
fn table_vec(t: &[i8]) -> (res: Vec<i8>)
    ensures
        res@ == t@,
{
    let mut v: Vec<i8> = Vec::new();
    let mut i: usize = 0;
    while i < t.len()
        invariant
            i <= t.len(),
            v@ == t@.take(i as int),
        decreases t.len() - i,
    {
        v.push(t[i]);
        i += 1;
        assert(v@ =~= t@.take(i as int));
    }
    assert(t@.take(i as int) =~= t@);
    v
}

/// Builds the key map the configuration describes.
pub fn keymap(char_order: &str, pitch_table: &[i8], base_midi: u8) -> (res: Result<Keymap, ConfigError>)
    ensures
        match keymap_problem(char_order@, pitch_table@, base_midi) {
            None => res matches Ok(km) && km@ == (KeymapView {
                order: char_order@,
                table: pitch_table@,
                base_midi,
            }),
            Some(e) => res matches Err(ce) && ce@ == ConfigErrorView::Invalid(keymap_error_text(e)),
        },
{
    match Keymap::new(chars_of(char_order), table_vec(pitch_table), base_midi) {
        Ok(km) => Ok(km),
        Err(e) => Err(ConfigError::Invalid(e.message())),
    }
}

/// The first invalid field of a configuration, as the text of the
/// `Invalid` error reported for it.  The `bpm` and `volume` fields are
/// floating-point numbers: whether each lies in its range (20–300 and 0–1)
/// is given as `bpm_in_range` / `volume_in_range`.
pub open spec fn config_problem(
    char_order: Seq<char>,
    pitch_table: Seq<i8>,
    base_midi: u8,
    bpm_in_range: bool,
    volume_in_range: bool,
    sample_rate: u32,
    wave: Seq<char>,
) -> Option<Seq<char>> {
    match keymap_problem(char_order, pitch_table, base_midi) {
        Some(e) => Some(keymap_error_text(e)),
        None => if !bpm_in_range {
            Some("bpm 越界，合法范围 20-300"@)
        } else if !volume_in_range {
            Some("volume 越界，合法范围 0-1"@)
        } else if !(8000 <= sample_rate <= 192000) {
            Some("sample_rate 越界，合法范围 8000–192000"@)
        } else if waveform_named(wave) is None {
            Some("wave 必须是 sine / square / saw 之一"@)
        } else {
            None
        },
    }
}

/// Checks every field of a configuration, in the order key map, bpm,
/// volume, sample rate, waveform, and reports the first invalid one.
pub fn validate(
    char_order: &str,
    pitch_table: &[i8],
    base_midi: u8,
    bpm_in_range: bool,
    volume_in_range: bool,
    sample_rate: u32,
    wave: &str,
) -> (res: Result<(), ConfigError>)
    ensures
        match config_problem(
            char_order@,
            pitch_table@,
            base_midi,
            bpm_in_range,
            volume_in_range,
            sample_rate,
            wave@,
        ) {
            None => res is Ok,
            Some(t) => res matches Err(ce) && ce@ == ConfigErrorView::Invalid(t),
        },
{
    keymap(char_order, pitch_table, base_midi)?;
    if !bpm_in_range {
        return Err(ConfigError::Invalid(owned("bpm 越界，合法范围 20-300")));
    }
    if !volume_in_range {
        return Err(ConfigError::Invalid(owned("volume 越界，合法范围 0-1")));
    }
    if !(8000 <= sample_rate && sample_rate <= 192000) {
        return Err(ConfigError::Invalid(owned("sample_rate 越界，合法范围 8000–192000")));
    }
    if Waveform::from_str(wave).is_none() {
        return Err(ConfigError::Invalid(owned("wave 必须是 sine / square / saw 之一")));
    }
    Ok(())
}

} // verus!
