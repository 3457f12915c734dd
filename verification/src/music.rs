//! Key signatures, scale degrees, time signatures and note naming.
//!
//! A key signature converts between absolute pitch (semitones) and
//! scale-relative degrees (1 through 7, plus an octave): `from_degree`
//! normalises out-of-range degrees by carrying octaves, then looks the
//! degree up in the major-scale semitone table; `to_degree` is the inverse
//! lookup and reports chromatic (non-scale) pitches as `None`.

use vstd::prelude::*;
use vstd::arithmetic::div_mod::lemma_fundamental_div_mod_converse;
use vstd::string::StringExecFns;

verus! {

#[derive(Clone, Copy, Debug, PartialEq, Eq, Structural)]
pub enum KeyMode {
    Major,
    Minor,
}

#[derive(Clone, Copy, Debug, PartialEq, Eq, Structural)]
pub struct KeySignature {
    pub root: u32,
    pub mode: KeyMode,
}

/// A scale-relative pitch: degree 1 through 7 within an octave.
#[derive(Clone, Copy, Debug, PartialEq, Eq, Structural)]
pub struct Degree {
    pub degree: i32,
    pub octave: i32,
}

/// Semitone offset of a major-scale degree above the root.
pub open spec fn major_scale_offset(degree: int) -> int
    recommends
        1 <= degree <= 7,
{
    if degree == 1 {
        0
    } else if degree == 2 {
        2
    } else if degree == 3 {
        4
    } else if degree == 4 {
        5
    } else if degree == 5 {
        7
    } else if degree == 6 {
        9
    } else {
        11
    }
}

/// The degree shift a mode applies before the major-scale table lookup.
pub open spec fn degree_shift(mode: KeyMode) -> int {
    match mode {
        KeyMode::Major => 0,
        KeyMode::Minor => 2,
    }
}

/// The scale degree whose major-scale offset is `pc`, if any.
pub open spec fn scale_degree_of(pc: int) -> Option<int> {
    if pc == 0 {
        Some(1)
    } else if pc == 2 {
        Some(2)
    } else if pc == 4 {
        Some(3)
    } else if pc == 5 {
        Some(4)
    } else if pc == 7 {
        Some(5)
    } else if pc == 9 {
        Some(6)
    } else if pc == 11 {
        Some(7)
    } else {
        None
    }
}

/// Truncating (round-toward-zero) division by a positive divisor.
pub open spec fn trunc_div(n: int, d: int) -> int
    recommends
        d > 0,
{
    if n >= 0 {
        n / d
    } else {
        -((-n) / d)
    }
}

/// Remainder matching [`trunc_div`].
pub open spec fn trunc_mod(n: int, d: int) -> int
    recommends
        d > 0,
{
    if n >= 0 {
        n % d
    } else {
        -((-n) % d)
    }
}

impl KeySignature {
    pub fn new(root: u32, mode: KeyMode) -> (r: Self)
        ensures
            r.root == root,
            r.mode == mode,
    {
        Self { root, mode }
    }

    /// The absolute pitch of a scale degree in a given octave.
    ///
    /// Degrees outside 1..=7 wrap, carrying octave shifts; minor mode
    /// shifts the requested degree down by two before the major-table
    /// lookup.
    pub open spec fn spec_from_degree(self, degree: int, octave: int) -> int {
        let d0 = degree - degree_shift(self.mode) - 1;
        major_scale_offset(d0 % 7 + 1) + 12 * (d0 / 7) + self.root + 12 * octave
    }

    pub fn from_degree(&self, degree: i32, octave: i32) -> (r: u32)
        requires
            0 <= self.spec_from_degree(degree as int, octave as int) <= u32::MAX,
        ensures
            r == self.spec_from_degree(degree as int, octave as int),
    {
        let shift: i64 = match self.mode {
            KeyMode::Major => 0,
            KeyMode::Minor => 2,
        };
        let d0: i64 = degree as i64 - shift - 1;

        let mut octave_offset: i64 = 0;
        let mut d: i64 = d0;
        while d < 0
            invariant
                7 * octave_offset + d == d0,
                d >= i32::MIN - 3,
                octave_offset <= 0,
            decreases 7 - d,
        {
            d = d + 7;
            octave_offset = octave_offset - 1;
        }
        octave_offset = octave_offset + d / 7;
        d = d % 7;
        proof {
            lemma_fundamental_div_mod_converse(d0 as int, 7, octave_offset as int, d as int);
        }

        let offset: i64 = match d {
            0 => 0,
            1 => 2,
            2 => 4,
            3 => 5,
            4 => 7,
            5 => 9,
            _ => 11,
        };

        let value: i64 = offset + 12 * octave_offset + self.root as i64 + 12 * octave as i64;
        value as u32
    }

    /// The scale degree and octave of an absolute pitch, or `None` when the
    /// pitch is chromatic relative to this key.
    ///
    /// The pitch offset from the root is split with truncating division, so
    /// offsets below the root mostly read as chromatic; this mirrors the
    /// editor's behaviour, which only ever converts pitches at or above the
    /// root.
    pub open spec fn spec_to_degree(self, note: int) -> Option<Degree> {
        let n = note - self.root;
        match scale_degree_of(trunc_mod(n, 12)) {
            Some(deg) => Some(
                Degree { degree: deg as i32, octave: trunc_div(n, 12) as i32 },
            ),
            None => None,
        }
    }

    pub fn to_degree(&self, note: i32) -> (r: Option<Degree>)
        ensures
            r == self.spec_to_degree(note as int),
    {
        let n: i64 = note as i64 - self.root as i64;

        let (q, m): (i64, i64) = if n >= 0 {
            (n / 12, n % 12)
        } else {
            (-((-n) / 12), -((-n) % 12))
        };
        assert(q == trunc_div(n as int, 12) && m == trunc_mod(n as int, 12));

        let degree: i64 = match m {
            0 => 1,
            2 => 2,
            4 => 3,
            5 => 4,
            7 => 5,
            9 => 6,
            11 => 7,
            _ => {
                return None;
            },
        };

        Some(Degree { degree: degree as i32, octave: q as i32 })
    }
}

#[derive(Clone, Copy, Debug, PartialEq, Eq, Structural)]
pub struct TimeSignature {
    numerator: u32,
    denominator: u32,
}

impl TimeSignature {
    pub closed spec fn spec_numerator(self) -> u32 {
        self.numerator
    }

    pub closed spec fn spec_denominator(self) -> u32 {
        self.denominator
    }

    /// Common time: four quarter-note beats per measure.
    pub fn common() -> (r: Self)
        ensures
            r.spec_numerator() == 4,
            r.spec_denominator() == 4,
    {
        Self { numerator: 4, denominator: 4 }
    }

    pub fn beats_per_measure(&self) -> (r: u32)
        requires
            self.spec_denominator() >= 4,
        ensures
            r == self.spec_numerator() as int / (self.spec_denominator() as int / 4),
    {
        self.numerator / (self.denominator / 4)
    }
}

/// The letter name of a pitch class, 0 through 11 semitones above C.
pub open spec fn pitch_class_name(pc: int) -> Seq<char>
    recommends
        0 <= pc < 12,
{
    if pc == 0 {
        seq!['C']
    } else if pc == 1 {
        seq!['C', '#']
    } else if pc == 2 {
        seq!['D']
    } else if pc == 3 {
        seq!['D', '#']
    } else if pc == 4 {
        seq!['E']
    } else if pc == 5 {
        seq!['F']
    } else if pc == 6 {
        seq!['F', '#']
    } else if pc == 7 {
        seq!['G']
    } else if pc == 8 {
        seq!['G', '#']
    } else if pc == 9 {
        seq!['A']
    } else if pc == 10 {
        seq!['A', '#']
    } else {
        seq!['B']
    }
}

/// Decimal digits of an octave number as written by [`note_name`].
pub open spec fn octave_digits(octave: int) -> Seq<char>
    recommends
        0 <= octave <= 21,
{
    if octave < 10 {
        seq![('0' as u8 + octave as u8) as char]
    } else if octave < 20 {
        seq!['1', ('0' as u8 + (octave - 10) as u8) as char]
    } else {
        seq!['2', ('0' as u8 + (octave - 20) as u8) as char]
    }
}

/// The display name of a MIDI pitch: pitch-class letter, then the octave
/// number when `show_octave` is set.
pub open spec fn spec_note_name(note: u8, show_octave: bool) -> Seq<char> {
    if show_octave {
        pitch_class_name(note as int % 12) + octave_digits(note as int / 12)
    } else {
        pitch_class_name(note as int % 12)
    }
}

pub fn note_name(note: u8, show_octave: bool) -> (r: String)
    ensures
        r@ == spec_note_name(note, show_octave),
{
    let pc = note % 12;
    let octave = note / 12;

    let mut s = String::new();
    match pc {
        0 => s.append("C"),
        1 => s.append("C#"),
        2 => s.append("D"),
        3 => s.append("D#"),
        4 => s.append("E"),
        5 => s.append("F"),
        6 => s.append("F#"),
        7 => s.append("G"),
        8 => s.append("G#"),
        9 => s.append("A"),
        10 => s.append("A#"),
        _ => s.append("B"),
    }
    proof {
        reveal_strlit("C");
        reveal_strlit("C#");
        reveal_strlit("D");
        reveal_strlit("D#");
        reveal_strlit("E");
        reveal_strlit("F");
        reveal_strlit("F#");
        reveal_strlit("G");
        reveal_strlit("G#");
        reveal_strlit("A");
        reveal_strlit("A#");
        reveal_strlit("B");
        assert(s@ == pitch_class_name(note as int % 12));
    }

    if show_octave {
        match octave {
            0 => s.append("0"),
            1 => s.append("1"),
            2 => s.append("2"),
            3 => s.append("3"),
            4 => s.append("4"),
            5 => s.append("5"),
            6 => s.append("6"),
            7 => s.append("7"),
            8 => s.append("8"),
            9 => s.append("9"),
            10 => s.append("10"),
            11 => s.append("11"),
            12 => s.append("12"),
            13 => s.append("13"),
            14 => s.append("14"),
            15 => s.append("15"),
            16 => s.append("16"),
            17 => s.append("17"),
            18 => s.append("18"),
            19 => s.append("19"),
            20 => s.append("20"),
            _ => s.append("21"),
        }
        proof {
            reveal_strlit("0");
            reveal_strlit("1");
            reveal_strlit("2");
            reveal_strlit("3");
            reveal_strlit("4");
            reveal_strlit("5");
            reveal_strlit("6");
            reveal_strlit("7");
            reveal_strlit("8");
            reveal_strlit("9");
            reveal_strlit("10");
            reveal_strlit("11");
            reveal_strlit("12");
            reveal_strlit("13");
            reveal_strlit("14");
            reveal_strlit("15");
            reveal_strlit("16");
            reveal_strlit("17");
            reveal_strlit("18");
            reveal_strlit("19");
            reveal_strlit("20");
            reveal_strlit("21");
            assert(s@ =~= pitch_class_name(note as int % 12) + octave_digits(note as int / 12));
        }
    }

    s
}

/// Whether a pitch falls on one of the five black keys of its octave.
pub open spec fn spec_is_black_key(note: int) -> bool {
    let pc = trunc_mod(note, 12);
    pc == 1 || pc == 3 || pc == 6 || pc == 8 || pc == 10
}

pub fn is_black_key(note: i32) -> (r: bool)
    ensures
        r == spec_is_black_key(note as int),
{
    let n: i64 = if note >= 0 {
        (note as i64) % 12
    } else {
        -((-(note as i64)) % 12)
    };
    n == 1 || n == 3 || n == 6 || n == 8 || n == 10
}

impl KeySignature {
    /// The key's display name: root pitch-class letter, a space, then the
    /// mode name. The root is read modulo 256, as an eight-bit pitch.
    pub open spec fn spec_name(self) -> Seq<char> {
        let mode = match self.mode {
            KeyMode::Major => seq!['M', 'a', 'j', 'o', 'r'],
            KeyMode::Minor => seq!['M', 'i', 'n', 'o', 'r'],
        };
        spec_note_name((self.root % 256) as u8, false) + seq![' '] + mode
    }

    pub fn name(&self) -> (r: String)
        ensures
            r@ == self.spec_name(),
    {
        let mut s = note_name((self.root % 256) as u8, false);
        s.append(" ");
        match self.mode {
            KeyMode::Major => s.append("Major"),
            KeyMode::Minor => s.append("Minor"),
        }
        proof {
            reveal_strlit(" ");
            reveal_strlit("Major");
            reveal_strlit("Minor");
            assert(s@ =~= self.spec_name());
        }
        s
    }
}

} // verus!
