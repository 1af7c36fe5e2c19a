//! The key table: the 15 standard circle-of-fifths signatures, as a
//! per-pitch accidental override with a default octave.

use vstd::prelude::*;
use crate::accidental::Accidental;
use crate::note::Pitch;
use crate::parse::error::ParserError;

verus! {

/// Major or minor.
#[derive(Debug, Copy, Clone, PartialEq, Eq, Structural)]
pub enum Mode {
    Major,
    Minor,
}

impl Mode {
    /// The mode named by the marker `c`: `M` is major, `m` minor.
    pub fn try_from_char(c: char) -> (r: Result<Mode, ParserError>)
        ensures
            c == 'M' ==> r == Ok::<Mode, ParserError>(Mode::Major),
            c == 'm' ==> r == Ok::<Mode, ParserError>(Mode::Minor),
            c != 'M' && c != 'm' ==> r == Err::<Mode, ParserError>(ParserError::InvalidMode),
    {
        match c {
            'M' => Ok(Mode::Major),
            'm' => Ok(Mode::Minor),
            _ => Err(ParserError::InvalidMode),
        }
    }
}

/// The position of a pitch in the canonical sharp order F,C,G,D,A,E,B.
/// The flat order B,E,A,D,G,C,F is its mirror, `6 - sharp_pos`.
pub open spec fn sharp_pos(p: Pitch) -> int {
    match p {
        Pitch::F => 0,
        Pitch::C => 1,
        Pitch::G => 2,
        Pitch::D => 3,
        Pitch::A => 4,
        Pitch::E => 5,
        Pitch::B => 6,
    }
}

/// The circle-of-fifths position of a key signature: the number of
/// sharps (positive) or flats (negative), or `None` for a triple outside
/// the 15 standard signatures.
pub open spec fn spec_fifths(tonic: Pitch, acc: Accidental, mode: Mode) -> Option<int> {
    match mode {
        Mode::Major => match (tonic, acc) {
            (Pitch::C, Accidental::Natural) => Some(0int),
            (Pitch::G, Accidental::Natural) => Some(1int),
            (Pitch::D, Accidental::Natural) => Some(2int),
            (Pitch::A, Accidental::Natural) => Some(3int),
            (Pitch::E, Accidental::Natural) => Some(4int),
            (Pitch::B, Accidental::Natural) => Some(5int),
            (Pitch::F, Accidental::Sharp) => Some(6int),
            (Pitch::C, Accidental::Sharp) => Some(7int),
            (Pitch::F, Accidental::Natural) => Some(-1int),
            (Pitch::B, Accidental::Flat) => Some(-2int),
            (Pitch::E, Accidental::Flat) => Some(-3int),
            (Pitch::A, Accidental::Flat) => Some(-4int),
            (Pitch::D, Accidental::Flat) => Some(-5int),
            (Pitch::G, Accidental::Flat) => Some(-6int),
            (Pitch::C, Accidental::Flat) => Some(-7int),
            _ => None,
        },
        Mode::Minor => match (tonic, acc) {
            (Pitch::A, Accidental::Natural) => Some(0int),
            (Pitch::E, Accidental::Natural) => Some(1int),
            (Pitch::B, Accidental::Natural) => Some(2int),
            (Pitch::F, Accidental::Sharp) => Some(3int),
            (Pitch::C, Accidental::Sharp) => Some(4int),
            (Pitch::G, Accidental::Sharp) => Some(5int),
            (Pitch::D, Accidental::Sharp) => Some(6int),
            (Pitch::A, Accidental::Sharp) => Some(7int),
            (Pitch::D, Accidental::Natural) => Some(-1int),
            (Pitch::G, Accidental::Natural) => Some(-2int),
            (Pitch::C, Accidental::Natural) => Some(-3int),
            (Pitch::F, Accidental::Natural) => Some(-4int),
            (Pitch::B, Accidental::Flat) => Some(-5int),
            (Pitch::E, Accidental::Flat) => Some(-6int),
            (Pitch::A, Accidental::Flat) => Some(-7int),
            _ => None,
        },
    }
}

/// The accidental a signature at circle position `n` assigns to pitch
/// `p`: the first `n` pitches of the sharp order carry a sharp, or the
/// first `-n` pitches of the flat order carry a flat; every other pitch
/// is natural.
pub open spec fn sig_of(n: int, p: Pitch) -> Accidental {
    if n >= 1 && sharp_pos(p) < n {
        Accidental::Sharp
    } else if n <= -1 && 6 - sharp_pos(p) < -n {
        Accidental::Flat
    } else {
        Accidental::Natural
    }
}

/// A key signature: a fixed per-pitch accidental table, described by its
/// circle-of-fifths position, plus the default octave for notes that
/// carry no explicit octave.
#[derive(Debug, Copy, Clone, PartialEq, Eq, Structural)]
pub struct Key {
    /// The default octave.
    pub oct: i32,
    /// The circle-of-fifths position: sharps if positive, flats if
    /// negative, in `-7 ..= 7`.
    pub fifths: i32,
}

impl Key {
    /// The circle position is one of the 15 standard signatures.
    pub open spec fn wf(self) -> bool {
        -7 <= self.fifths <= 7
    }

    /// The accidental this key assigns to `p`.
    pub open spec fn spec_get(self, p: Pitch) -> Accidental {
        sig_of(self.fifths as int, p)
    }

    /// The accidental this key assigns to `pitch`; `Natural` for any
    /// pitch the signature does not override.
    pub fn get(&self, pitch: &Pitch) -> (r: Accidental)
        requires
            self.wf(),
        ensures
            r == self.spec_get(*pitch),
    {
        let sp: i32 = match *pitch {
            Pitch::F => 0,
            Pitch::C => 1,
            Pitch::G => 2,
            Pitch::D => 3,
            Pitch::A => 4,
            Pitch::E => 5,
            Pitch::B => 6,
        };
        if self.fifths >= 1 && sp < self.fifths {
            Accidental::Sharp
        } else if self.fifths <= -1 && 6 - sp < -self.fifths {
            Accidental::Flat
        } else {
            Accidental::Natural
        }
    }

    /// The key for the (tonic, accidental, mode) triple, carrying `oct`
    /// as its default octave; `InvalidKey` for any triple outside the 15
    /// standard signatures.
    pub fn try_new(tonic: Pitch, oct: i32, acc: Accidental, mode: Mode) -> (r: Result<
        Key,
        ParserError,
    >)
        ensures
            r == match spec_fifths(tonic, acc, mode) {
                Some(n) => Ok::<Key, ParserError>(Key { oct, fifths: n as i32 }),
                None => Err::<Key, ParserError>(ParserError::InvalidKey),
            },
            r is Ok ==> r->Ok_0.wf() && r->Ok_0.oct == oct,
    {
        let n: i32 = match mode {
            Mode::Major => match (tonic, acc) {
                (Pitch::C, Accidental::Natural) => 0,
                (Pitch::G, Accidental::Natural) => 1,
                (Pitch::D, Accidental::Natural) => 2,
                (Pitch::A, Accidental::Natural) => 3,
                (Pitch::E, Accidental::Natural) => 4,
                (Pitch::B, Accidental::Natural) => 5,
                (Pitch::F, Accidental::Sharp) => 6,
                (Pitch::C, Accidental::Sharp) => 7,
                (Pitch::F, Accidental::Natural) => -1,
                (Pitch::B, Accidental::Flat) => -2,
                (Pitch::E, Accidental::Flat) => -3,
                (Pitch::A, Accidental::Flat) => -4,
                (Pitch::D, Accidental::Flat) => -5,
                (Pitch::G, Accidental::Flat) => -6,
                (Pitch::C, Accidental::Flat) => -7,
                _ => {
                    return Err(ParserError::InvalidKey);
                },
            },
            Mode::Minor => match (tonic, acc) {
                (Pitch::A, Accidental::Natural) => 0,
                (Pitch::E, Accidental::Natural) => 1,
                (Pitch::B, Accidental::Natural) => 2,
                (Pitch::F, Accidental::Sharp) => 3,
                (Pitch::C, Accidental::Sharp) => 4,
                (Pitch::G, Accidental::Sharp) => 5,
                (Pitch::D, Accidental::Sharp) => 6,
                (Pitch::A, Accidental::Sharp) => 7,
                (Pitch::D, Accidental::Natural) => -1,
                (Pitch::G, Accidental::Natural) => -2,
                (Pitch::C, Accidental::Natural) => -3,
                (Pitch::F, Accidental::Natural) => -4,
                (Pitch::B, Accidental::Flat) => -5,
                (Pitch::E, Accidental::Flat) => -6,
                (Pitch::A, Accidental::Flat) => -7,
                _ => {
                    return Err(ParserError::InvalidKey);
                },
            },
        };
        Ok(Key { oct, fifths: n })
    }
}

impl Default for Key {
    /// The default key: no accidentals (C major / A minor), octave 4.
    fn default() -> (r: Key)
        ensures
            r == (Key { oct: 4, fifths: 0 }),
            r.wf(),
    {
        Key { oct: 4, fifths: 0 }
    }
}

} // verus!
