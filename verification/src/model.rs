//! Timeline data model: the note events a score parses to and its
//! score-level parameters.
//!
//! Times are counted in half beats (a beat is a quarter note), which is
//! exact for every start and length the score syntax can express.
use vstd::prelude::*;
use crate::text::{chars_of, dec, dec_int, lower, lower_chars, owned, push_dec, push_one, spells, trim, trim_chars};

verus! {

/// One sounding unit on the timeline.
#[derive(Clone, Copy, Debug, PartialEq, Eq, Structural)]
pub struct NoteEvent {
    /// Start, in half beats.
    pub start_half_beats: u64,
    /// Length, in half beats.
    pub dur_half_beats: u64,
    /// MIDI pitch.
    pub midi: u8,
}

impl NoteEvent {
    pub fn new(start_half_beats: u64, dur_half_beats: u64, midi: u8) -> (res: Self)
        ensures
            res == (NoteEvent { start_half_beats, dur_half_beats, midi }),
    {
        NoteEvent { start_half_beats, dur_half_beats, midi }
    }

    /// End of the note, in half beats.
    pub open spec fn end(self) -> int {
        self.start_half_beats + self.dur_half_beats
    }
}

/// Oscillator waveform of the single built-in voice.
#[derive(Clone, Copy, Debug, PartialEq, Eq, Structural)]
pub enum Waveform {
    Sine,
    Square,
    Saw,
}

/// The waveform a directive or configuration string names, if any.
pub open spec fn waveform_named(s: Seq<char>) -> Option<Waveform> {
    let t = lower(trim(s));
    if t == "sine"@ || t == "sin"@ {
        Some(Waveform::Sine)
    } else if t == "square"@ || t == "sq"@ {
        Some(Waveform::Square)
    } else if t == "saw"@ || t == "sawtooth"@ {
        Some(Waveform::Saw)
    } else {
        None
    }
}

/// Display name of a waveform.
pub open spec fn waveform_name(w: Waveform) -> Seq<char> {
    match w {
        Waveform::Sine => "sine"@,
        Waveform::Square => "square"@,
        Waveform::Saw => "sawtooth"@,
    }
}

impl Default for Waveform {
    fn default() -> (res: Self)
        ensures
            res == Waveform::Square,
    {
        Waveform::Square
    }
}

impl Waveform {
    /// Parses a waveform name from a directive or configuration value:
    /// surrounding whitespace and ASCII case are ignored.
    pub fn from_str(s: &str) -> (res: Option<Self>)
        ensures
            res == waveform_named(s@),
    {
        let v = chars_of(s);
        let t = trim_chars(&v);
        let l = lower_chars(&t);
        if spells(&l, "sine") || spells(&l, "sin") {
            Some(Waveform::Sine)
        } else if spells(&l, "square") || spells(&l, "sq") {
            Some(Waveform::Square)
        } else if spells(&l, "saw") || spells(&l, "sawtooth") {
            Some(Waveform::Saw)
        } else {
            None
        }
    }

    pub fn name(self) -> (res: &'static str)
        ensures
            res@ == waveform_name(self),
    {
        match self {
            Waveform::Sine => "sine",
            Waveform::Square => "square",
            Waveform::Saw => "sawtooth",
        }
    }
}

/// Score-level parameters.
///
/// `bpm` and `volume` hold the value text of an `@BPM` / `@VOL` directive
/// that the score carried (a number the caller has judged in range); `None`
/// means the configured default applies.
#[derive(Clone, Debug)]
pub struct ScoreParams {
    pub bpm: Option<String>,
    pub volume: Option<String>,
    pub waveform: Waveform,
}

pub struct ScoreParamsView {
    pub bpm: Option<Seq<char>>,
    pub volume: Option<Seq<char>>,
    pub waveform: Waveform,
}

pub open spec fn opt_view(o: Option<String>) -> Option<Seq<char>> {
    match o {
        Some(s) => Some(s@),
        None => None,
    }
}

impl View for ScoreParams {
    type V = ScoreParamsView;

    open spec fn view(&self) -> ScoreParamsView {
        ScoreParamsView {
            bpm: opt_view(self.bpm),
            volume: opt_view(self.volume),
            waveform: self.waveform,
        }
    }
}

impl Default for ScoreParams {
    fn default() -> (res: Self)
        ensures
            res.bpm is None,
            res.volume is None,
            res.waveform == Waveform::Square,
    {
        ScoreParams { bpm: None, volume: None, waveform: Waveform::Square }
    }
}

/// The result of a full parse: note timeline and score-level parameters.
#[derive(Clone, Debug)]
pub struct Score {
    pub notes: Vec<NoteEvent>,
    pub params: ScoreParams,
}

pub struct ScoreView {
    pub notes: Seq<NoteEvent>,
    pub params: ScoreParamsView,
}

impl View for Score {
    type V = ScoreView;

    open spec fn view(&self) -> ScoreView {
        ScoreView { notes: self.notes@, params: self.params@ }
    }
}

/// Latest end among `notes`, and 0 for none.
pub open spec fn latest_end(notes: Seq<NoteEvent>) -> int
    decreases notes.len(),
{
    if notes.len() == 0 {
        0
    } else {
        let rest = latest_end(notes.drop_last());
        if notes.last().end() > rest {
            notes.last().end()
        } else {
            rest
        }
    }
}

impl Score {
    /// Half beat at which the last note ends (start plus length), used to
    /// size a rendering.
    pub fn total_half_beats(&self) -> (res: u128)
        ensures
            res == latest_end(self.notes@),
            forall|i: int| 0 <= i < self.notes@.len() ==> self.notes@[i].end() <= res,
    {
        let mut best: u128 = 0;
        let mut i: usize = 0;
        while i < self.notes.len()
            invariant
                i <= self.notes.len(),
                best == latest_end(self.notes@.take(i as int)),
                forall|k: int| 0 <= k < i ==> self.notes@[k].end() <= best,
            decreases self.notes.len() - i,
        {
            let n = self.notes[i];
            let e = n.start_half_beats as u128 + n.dur_half_beats as u128;
            assert(self.notes@.take(i + 1).drop_last() =~= self.notes@.take(i as int));
            if e > best {
                best = e;
            }
            i += 1;
        }
        assert(self.notes@.take(i as int) =~= self.notes@);
        best
    }
}

/// Name of a pitch class (0 is C).
pub open spec fn pitch_class_name(k: int) -> Seq<char> {
    if k == 0 {
        "C"@
    } else if k == 1 {
        "C#"@
    } else if k == 2 {
        "D"@
    } else if k == 3 {
        "D#"@
    } else if k == 4 {
        "E"@
    } else if k == 5 {
        "F"@
    } else if k == 6 {
        "F#"@
    } else if k == 7 {
        "G"@
    } else if k == 8 {
        "G#"@
    } else if k == 9 {
        "A"@
    } else if k == 10 {
        "A#"@
    } else {
        "B"@
    }
}

/// Readable notation of a MIDI pitch (48 is `C3`, 61 is `C#4`).
pub open spec fn note_name_of(midi: u8) -> Seq<char> {
    pitch_class_name((midi % 12) as int) + dec_int(midi / 12 - 1)
}

/// Converts a MIDI pitch to readable notation (48 → `C3`, 61 → `C#4`).
pub fn note_name(midi: u8) -> (res: String)
    ensures
        res@ == note_name_of(midi),
{
    let k = midi % 12;
    let name = if k == 0 {
        "C"
    } else if k == 1 {
        "C#"
    } else if k == 2 {
        "D"
    } else if k == 3 {
        "D#"
    } else if k == 4 {
        "E"
    } else if k == 5 {
        "F"
    } else if k == 6 {
        "F#"
    } else if k == 7 {
        "G"
    } else if k == 8 {
        "G#"
    } else if k == 9 {
        "A"
    } else if k == 10 {
        "A#"
    } else {
        "B"
    };
    let mut s = owned(name);
    let oct = midi / 12;
    if oct == 0 {
        push_one(&mut s, '-');
        push_dec(&mut s, 1);
        assert(dec_int(midi / 12 - 1) == seq!['-'] + dec(1));
        assert(s@ =~= note_name_of(midi));
    } else {
        push_dec(&mut s, (oct - 1) as u64);
    }
    s
}

} // verus!
