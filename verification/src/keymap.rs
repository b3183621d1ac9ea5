//! Key mapping: character order × pitch table.
//!
//! `order[i]` sounds at `base_midi + (i / table.len() + octaves) * 12 +
//! table[i % table.len()]`: every full pass through the pitch table moves one
//! octave up, and `octaves` is the net count of `^` / `_` marks in effect.
use vstd::prelude::*;
use vstd::seq_lib::group_seq_properties;
use vstd::set_lib::{lemma_int_range, lemma_len_subset, set_int_range};
use crate::config::{DEFAULT_BASE_MIDI, DEFAULT_CHAR_ORDER, DEFAULT_PITCH_TABLE};
use crate::text::{chars_of, find_from, is_whitespace, is_ws, lemma_find_from_bounds, owned, push_one, push_str};

verus! {

/// Why a character order, pitch table and base pitch do not form a key map.
#[derive(Clone, Copy, Debug, PartialEq, Eq, Structural)]
pub enum KeymapError {
    EmptyCharOrder,
    DuplicateChar(char),
    ReservedChar(char),
    WhitespaceInOrder,
    EmptyPitchTable,
    BaseMidiOutOfRange,
}

/// Message text of a key map error.
pub open spec fn keymap_error_text(e: KeymapError) -> Seq<char> {
    match e {
        KeymapError::EmptyCharOrder => "字符排序表为空"@,
        KeymapError::DuplicateChar(c) => "字符排序表中存在重复字符 '"@ + seq![c] + "'"@,
        KeymapError::ReservedChar(c) => "字符 '"@ + seq![c] + "' 与保留语法字符冲突"@,
        KeymapError::WhitespaceInOrder => "字符排序表中包含空白字符"@,
        KeymapError::EmptyPitchTable => "音高表为空"@,
        KeymapError::BaseMidiOutOfRange => "起始音高 base_midi 越界（0–127）"@,
    }
}

impl KeymapError {
    /// The error's message.
    pub fn message(&self) -> (res: String)
        ensures
            res@ == keymap_error_text(*self),
    {
        match *self {
            KeymapError::EmptyCharOrder => owned("字符排序表为空"),
            KeymapError::DuplicateChar(c) => {
                let mut s = owned("字符排序表中存在重复字符 '");
                push_one(&mut s, c);
                push_str(&mut s, "'");
                s
            },
            KeymapError::ReservedChar(c) => {
                let mut s = owned("字符 '");
                push_one(&mut s, c);
                push_str(&mut s, "' 与保留语法字符冲突");
                s
            },
            KeymapError::WhitespaceInOrder => owned("字符排序表中包含空白字符"),
            KeymapError::EmptyPitchTable => owned("音高表为空"),
            KeymapError::BaseMidiOutOfRange => owned("起始音高 base_midi 越界（0–127）"),
        }
    }
}

/// Characters reserved for the score syntax: `^ _ = . # @` and whitespace.
pub open spec fn is_control(c: char) -> bool {
    c == '^' || c == '_' || c == '=' || c == '.' || c == '#' || c == '@' || is_ws(c)
}

/// Is `c` reserved for the score syntax (and so never a note character)?
pub fn is_control_char(c: char) -> (res: bool)
    ensures
        res == is_control(c),
{
    c == '^' || c == '_' || c == '=' || c == '.' || c == '#' || c == '@' || is_whitespace(c)
}

/// The abstract content of a key map.
pub struct KeymapView {
    pub order: Seq<char>,
    pub table: Seq<i8>,
    pub base_midi: u8,
}

/// First problem of `order` at or after position `i`, in the order in which
/// the characters are checked.
pub open spec fn order_problem(order: Seq<char>, i: int) -> Option<KeymapError>
    decreases order.len() - i,
{
    if i < 0 || i >= order.len() {
        None
    } else if is_ws(order[i]) {
        Some(KeymapError::WhitespaceInOrder)
    } else if is_control(order[i]) {
        Some(KeymapError::ReservedChar(order[i]))
    } else if order.take(i).contains(order[i]) {
        Some(KeymapError::DuplicateChar(order[i]))
    } else {
        order_problem(order, i + 1)
    }
}

/// What `Keymap::new` rejects its arguments for, if anything.
pub open spec fn keymap_problem(order: Seq<char>, table: Seq<i8>, base_midi: u8) -> Option<KeymapError> {
    if order.len() == 0 {
        Some(KeymapError::EmptyCharOrder)
    } else if table.len() == 0 {
        Some(KeymapError::EmptyPitchTable)
    } else if base_midi > 127 {
        Some(KeymapError::BaseMidiOutOfRange)
    } else {
        order_problem(order, 0)
    }
}

impl KeymapView {
    /// A valid key map: both tables non-empty, base pitch a MIDI pitch, and
    /// the order made of distinct characters none of which is reserved.
    pub open spec fn wf(self) -> bool {
        &&& self.order.len() > 0
        &&& self.table.len() > 0
        &&& self.base_midi <= 127
        &&& forall|i: int| 0 <= i < self.order.len() ==> !is_control(#[trigger] self.order[i])
        &&& self.order.no_duplicates()
        &&& self.order.len() <= 0x110000
    }

    /// Position of `c` in the character order (`order.len()` when absent).
    pub open spec fn index(self, c: char) -> int {
        find_from(self.order, 0, c)
    }

    /// Octave count of `c` after `octaves` shifts.
    pub open spec fn octave(self, c: char, octaves: int) -> int {
        self.index(c) / (self.table.len() as int) + octaves
    }

    /// Octave offset of `c` in semitones, as the 32-bit value computed for it.
    pub open spec fn octave_semis(self, c: char, octaves: int) -> i32 {
        (self.octave(c, octaves) * 12) as i32
    }

    /// The arithmetic of resolving `c` stays within its 64-bit and 32-bit
    /// integer types.
    pub open spec fn resolve_fits(self, c: char, octaves: int) -> bool {
        let oct = self.octave(c, octaves);
        let partial = self.base_midi + self.octave_semis(c, octaves);
        &&& i64::MIN <= oct <= i64::MAX
        &&& i64::MIN <= oct * 12 <= i64::MAX
        &&& i32::MIN <= partial <= i32::MAX
        &&& i32::MIN <= partial + self.table[self.index(c) % (self.table.len() as int)] <= i32::MAX
    }

    /// MIDI pitch of note character `c` under `octaves` shifts.
    pub open spec fn pitch(self, c: char, octaves: int) -> int {
        self.base_midi + self.octave_semis(c, octaves) + self.table[self.index(c)
            % (self.table.len() as int)]
    }
}

/// Key map: character order → pitch.
#[derive(Debug)]
pub struct Keymap {
    order: Vec<char>,
    table: Vec<i8>,
    base_midi: u8,
}

impl View for Keymap {
    type V = KeymapView;

    closed spec fn view(&self) -> KeymapView {
        KeymapView { order: self.order@, table: self.table@, base_midi: self.base_midi }
    }
}

impl Clone for Keymap {
    fn clone(&self) -> (res: Self)
        ensures
            res@ == self@,
    {
        proof {
            use_type_invariant(self);
        }
        let order = crate::text::slice_chars(self.order.as_slice(), 0, self.order.len());
        let mut table: Vec<i8> = Vec::new();
        let mut i: usize = 0;
        while i < self.table.len()
            invariant
                i <= self.table.len(),
                table@ == self.table@.take(i as int),
            decreases self.table.len() - i,
        {
            table.push(self.table[i]);
            i += 1;
            assert(table@ =~= self.table@.take(i as int));
        }
        assert(table@ =~= self.table@);
        assert(order@ =~= self.order@);
        Keymap { order, table, base_midi: self.base_midi }
    }
}

/// Distinct characters number at most 0x110000.
proof fn lemma_distinct_chars_bound(s: Seq<char>)
    requires
        s.no_duplicates(),
    ensures
        s.len() <= 0x110000,
{
    broadcast use group_seq_properties;

    let f = |c: char| (c as u32) as int;
    assert forall|c: char| 0 <= #[trigger] f(c) < 0x110000 by {
        vstd::utf8::char_is_scalar(c);
    }
    assert(vstd::relations::injective(f)) by {
        assert forall|a: char, b: char| #[trigger] f(a) == #[trigger] f(b) implies a == b by {
            vstd::utf8::char_u32_cast(a, a as u32);
            vstd::utf8::char_u32_cast(b, b as u32);
        }
    }
    s.lemma_no_duplicates_injective(f);
    let m = s.map_values(f);
    m.unique_seq_to_set();
    lemma_int_range(0, 0x110000);
    assert forall|x: int| m.to_set().contains(x) implies set_int_range(0, 0x110000).contains(x) by {
        let k = choose|k: int| 0 <= k < m.len() && m[k] == x;
        assert(m[k] == f(s[k]));
    }
    lemma_len_subset(m.to_set(), set_int_range(0, 0x110000));
}

/// Appending a new character keeps a sequence free of repetitions.
proof fn lemma_push_distinct(s: Seq<char>, c: char)
    requires
        s.no_duplicates(),
        !s.contains(c),
    ensures
        s.push(c).no_duplicates(),
{
    let t = s.push(c);
    assert forall|a: int, b: int| 0 <= a < t.len() && 0 <= b < t.len() && a != b implies #[trigger] t[a]
        != #[trigger] t[b] by {
        if a == s.len() {
            assert(t[b] == s[b]);
        } else if b == s.len() {
            assert(t[a] == s[a]);
        } else {
            assert(t[a] == s[a] && t[b] == s[b]);
        }
    }
}

/// An order with no problem at any position from `i` on has no reserved
/// character and no repetition there.
proof fn lemma_order_ok(order: Seq<char>, i: int)
    requires
        0 <= i <= order.len(),
        order_problem(order, i) is None,
        forall|k: int| 0 <= k < i ==> !is_control(#[trigger] order[k]),
        order.take(i).no_duplicates(),
    ensures
        forall|k: int| 0 <= k < order.len() ==> !is_control(#[trigger] order[k]),
        order.no_duplicates(),
    decreases order.len() - i,
{
    if i == order.len() {
        assert(order.take(i) =~= order);
    } else {
        let c = order[i];
        assert(order.take(i + 1) =~= order.take(i).push(c));
        lemma_push_distinct(order.take(i), c);
        lemma_order_ok(order, i + 1);
    }
}

impl Keymap {
    /// The invariant every key map keeps.
    #[verifier::type_invariant]
    pub open spec fn inv(&self) -> bool {
        self@.wf()
    }

    /// Builds a key map, checking both tables, the base pitch, and each
    /// character of the order in turn.
    pub fn new(order: Vec<char>, table: Vec<i8>, base_midi: u8) -> (res: Result<Self, KeymapError>)
        ensures
            match res {
                Ok(km) => keymap_problem(order@, table@, base_midi) is None && km@ == (KeymapView {
                    order: order@,
                    table: table@,
                    base_midi,
                }),
                Err(e) => keymap_problem(order@, table@, base_midi) == Some(e),
            },
    {
        if order.len() == 0 {
            return Err(KeymapError::EmptyCharOrder);
        }
        if table.len() == 0 {
            return Err(KeymapError::EmptyPitchTable);
        }
        if base_midi > 127 {
            return Err(KeymapError::BaseMidiOutOfRange);
        }
        let mut i: usize = 0;
        while i < order.len()
            invariant
                i <= order.len(),
                order.len() > 0,
                table.len() > 0,
                base_midi <= 127,
                order_problem(order@, 0) == order_problem(order@, i as int),
                forall|k: int| 0 <= k < i ==> !is_control(#[trigger] order@[k]),
                order@.take(i as int).no_duplicates(),
            decreases order.len() - i,
        {
            let c = order[i];
            assert(c == order@[i as int]);
            if is_whitespace(c) {
                assert(order_problem(order@, i as int) == Some(KeymapError::WhitespaceInOrder));
                return Err(KeymapError::WhitespaceInOrder);
            }
            if is_control_char(c) {
                assert(order_problem(order@, i as int) == Some(KeymapError::ReservedChar(c)));
                return Err(KeymapError::ReservedChar(c));
            }
            let mut j: usize = 0;
            while j < i
                invariant
                    j <= i < order.len(),
                    c == order@[i as int],
                    !is_ws(c),
                    !is_control(c),
                    order.len() > 0,
                    table.len() > 0,
                    base_midi <= 127,
                    order_problem(order@, 0) == order_problem(order@, i as int),
                    forall|k: int| 0 <= k < j ==> order@[k] != c,
                decreases i - j,
            {
                if order[j] == c {
                    assert(order@.take(i as int)[j as int] == c);
                    assert(order_problem(order@, i as int) == Some(KeymapError::DuplicateChar(c)));
                    return Err(KeymapError::DuplicateChar(c));
                }
                j += 1;
            }
            assert(!order@.take(i as int).contains(c));
            assert(order@.take(i + 1) =~= order@.take(i as int).push(c));
            proof {
                lemma_push_distinct(order@.take(i as int), c);
            }
            i += 1;
        }
        proof {
            lemma_order_ok(order@, i as int);
            lemma_distinct_chars_bound(order@);
        }
        Ok(Keymap { order, table, base_midi })
    }

    /// The built-in map: 62 characters `0-9 a-z A-Z` over the 12 semitones,
    /// starting at C3.
    pub fn default() -> (res: Self)
        ensures
            res@ == (KeymapView {
                order: DEFAULT_CHAR_ORDER@,
                table: DEFAULT_PITCH_TABLE@,
                base_midi: DEFAULT_BASE_MIDI,
            }),
    {
        let order = chars_of(DEFAULT_CHAR_ORDER);
        let mut table: Vec<i8> = Vec::new();
        let mut i: usize = 0;
        while i < 12
            invariant
                i <= 12,
                table@ == DEFAULT_PITCH_TABLE@.take(i as int),
            decreases 12 - i,
        {
            table.push(DEFAULT_PITCH_TABLE[i]);
            i += 1;
            assert(table@ =~= DEFAULT_PITCH_TABLE@.take(i as int));
        }
        assert(table@ =~= DEFAULT_PITCH_TABLE@);
        proof {
            reveal_strlit("0123456789abcdefghijklmnopqrstuvwxyzABCDEFGHIJKLMNOPQRSTUVWXYZ");
            assert(order@.no_duplicates());
            assert forall|k: int| 0 <= k < order@.len() implies !is_control(#[trigger] order@[k]) by {}
            lemma_distinct_chars_bound(order@);
        }
        Keymap { order, table, base_midi: DEFAULT_BASE_MIDI }
    }

    /// Is `c` a note character?
    pub fn is_note_char(&self, c: char) -> (res: bool)
        ensures
            res == self@.order.contains(c),
    {
        self.index_of(c).is_some()
    }

    /// Position of `c` in the character order, if it is there.
    pub fn index_of(&self, c: char) -> (res: Option<usize>)
        ensures
            res is Some == self@.order.contains(c),
            res matches Some(i) ==> i == self@.index(c) && i < self@.order.len() && self@.order[i as int] == c,
    {
        let mut i: usize = 0;
        while i < self.order.len()
            invariant
                i <= self.order.len(),
                find_from(self.order@, 0, c) == find_from(self.order@, i as int, c),
                forall|k: int| 0 <= k < i ==> self.order@[k] != c,
            decreases self.order.len() - i,
        {
            if self.order[i] == c {
                return Some(i);
            }
            i += 1;
        }
        None
    }

    /// Resolves character `c` to a MIDI pitch, `octaves` being the net
    /// count of `^` / `_` shifts; `None` when `c` is not a note character.
    pub fn resolve(&self, c: char, octaves: i64) -> (res: Option<i32>)
        requires
            self@.order.contains(c) ==> self@.resolve_fits(c, octaves as int),
        ensures
            res is Some == self@.order.contains(c),
            res matches Some(p) ==> p == self@.pitch(c, octaves as int),
    {
        proof {
            use_type_invariant(self);
        }
        let idx = match self.index_of(c) {
            Some(i) => i,
            None => return None,
        };
        let len = self.table.len();
        let q = (idx / len) as i64;
        let semi = idx % len;
        let oct = q + octaves;
        let t = (oct * 12) as i32;
        let p = self.base_midi as i32 + t;
        Some(p + self.table[semi] as i32)
    }

    /// Does resolving note character `c` under `octaves` shifts stay within
    /// the integer types its computation uses?
    pub fn resolve_in_range(&self, c: char, octaves: i64) -> (res: bool)
        ensures
            self@.order.contains(c) ==> res == self@.resolve_fits(c, octaves as int),
    {
        proof {
            use_type_invariant(self);
        }
        let idx = match self.index_of(c) {
            Some(i) => i,
            None => return true,
        };
        let len = self.table.len();
        let q = (idx / len) as i128;
        let oct = q + octaves as i128;
        if oct < i64::MIN as i128 || oct > i64::MAX as i128 {
            return false;
        }
        let prod = oct * 12;
        if prod < i64::MIN as i128 || prod > i64::MAX as i128 {
            return false;
        }
        let t = #[verifier::truncate] (prod as i32);
        let partial = self.base_midi as i64 + t as i64;
        if partial < i32::MIN as i64 || partial > i32::MAX as i64 {
            return false;
        }
        let full = partial + self.table[idx % len] as i64;
        full >= i32::MIN as i64 && full <= i32::MAX as i64
    }

    pub fn base_midi(&self) -> (res: u8)
        ensures
            res == self@.base_midi,
    {
        self.base_midi
    }

    pub fn char_order(&self) -> (res: &[char])
        ensures
            res@ == self@.order,
    {
        self.order.as_slice()
    }

    pub fn pitch_table(&self) -> (res: &[i8])
        ensures
            res@ == self@.table,
    {
        self.table.as_slice()
    }
}

/// A key map is valid exactly when `Keymap::new` accepts it.
pub proof fn lemma_accepted_keymap_is_valid(order: Seq<char>, table: Seq<i8>, base_midi: u8)
    requires
        keymap_problem(order, table, base_midi) is None,
    ensures
        (KeymapView { order, table, base_midi }).wf(),
{
    assert(order.take(0) =~= Seq::<char>::empty());
    lemma_order_ok(order, 0);
    lemma_distinct_chars_bound(order);
}

} // verus!

verus! {

/// With at most 2^27 octave shifts in either direction, resolving any note
/// character of a valid key map stays within its integer types, and the
/// octave offset is computed without wrapping.
pub proof fn lemma_resolve_fits(km: KeymapView, c: char, octaves: int)
    requires
        km.wf(),
        km.order.contains(c),
        -0x0800_0000 <= octaves <= 0x0800_0000,
    ensures
        km.resolve_fits(c, octaves),
        km.octave_semis(c, octaves) == km.octave(c, octaves) * 12,
        km.pitch(c, octaves) == km.base_midi + km.octave(c, octaves) * 12 + km.table[km.index(c)
            % (km.table.len() as int)],
{
    let idx = km.index(c);
    let tl = km.table.len() as int;
    lemma_find_from_bounds(km.order, 0, c);
    if idx >= km.order.len() {
        let k = choose|k: int| 0 <= k < km.order.len() && km.order[k] == c;
        lemma_find_from_first(km.order, 0, c, k);
    }
    assert(0 <= idx < km.order.len());
    assert(0 <= idx / tl <= idx) by (nonlinear_arith)
        requires
            0 <= idx,
            1 <= tl,
    ;
    assert(0 <= idx % tl < tl) by (nonlinear_arith)
        requires
            0 <= idx,
            1 <= tl,
    ;
}

/// `find_from` stops at or before any occurrence at or after `from`.
proof fn lemma_find_from_first(s: Seq<char>, from: int, c: char, k: int)
    requires
        0 <= from <= k < s.len(),
        s[k] == c,
    ensures
        find_from(s, from, c) <= k,
    decreases k - from,
{
    if s[from] != c {
        lemma_find_from_first(s, from + 1, c, k);
    }
}

} // verus!
