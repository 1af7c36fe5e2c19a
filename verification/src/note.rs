//! Pitches, the diatonic distance table, and resolved note events.

use vstd::prelude::*;
use crate::accidental::Accidental;
use crate::duration::Duration;

verus! {

/// One of the seven letter classes.
#[derive(Debug, Copy, Clone, PartialEq, Eq, Hash, Structural)]
pub enum Pitch {
    A,
    B,
    C,
    D,
    E,
    F,
    G,
}

/// The semitone position of a pitch within the C major scale: the fixed
/// diatonic spacing C-D-E-F-G-A-B with the E-F and B-C pairs one half
/// step apart and all others two.
pub open spec fn semitone(p: Pitch) -> int {
    match p {
        Pitch::C => 0,
        Pitch::D => 2,
        Pitch::E => 4,
        Pitch::F => 5,
        Pitch::G => 7,
        Pitch::A => 9,
        Pitch::B => 11,
    }
}

/// What `pitch_distance` returns: the signed number of half steps from
/// `p1` up to `p2` along the diatonic scale.
pub open spec fn spec_pitch_distance(p1: Pitch, p2: Pitch) -> int {
    semitone(p2) - semitone(p1)
}

impl Pitch {
    /// The pitch named by `c`, for the seven letters `A` through `G`.
    pub fn try_from_char(c: char) -> (r: Option<Pitch>)
        ensures
            r == Pitch::spec_from_char(c),
    {
        match c {
            'A' => Some(Pitch::A),
            'B' => Some(Pitch::B),
            'C' => Some(Pitch::C),
            'D' => Some(Pitch::D),
            'E' => Some(Pitch::E),
            'F' => Some(Pitch::F),
            'G' => Some(Pitch::G),
            _ => None,
        }
    }

    /// The pitch named by `c`, if any.
    pub open spec fn spec_from_char(c: char) -> Option<Pitch> {
        if c == 'A' {
            Some(Pitch::A)
        } else if c == 'B' {
            Some(Pitch::B)
        } else if c == 'C' {
            Some(Pitch::C)
        } else if c == 'D' {
            Some(Pitch::D)
        } else if c == 'E' {
            Some(Pitch::E)
        } else if c == 'F' {
            Some(Pitch::F)
        } else if c == 'G' {
            Some(Pitch::G)
        } else {
            None
        }
    }

    /// This pitch's semitone position in the C major scale.
    pub fn semitone_of(self) -> (r: i32)
        ensures
            r as int == semitone(self),
    {
        match self {
            Pitch::C => 0,
            Pitch::D => 2,
            Pitch::E => 4,
            Pitch::F => 5,
            Pitch::G => 7,
            Pitch::A => 9,
            Pitch::B => 11,
        }
    }
}

/// The signed number of half steps from `p1` to `p2` along the diatonic
/// scale, by the fixed semitone-distance table.
pub fn pitch_distance(p1: Pitch, p2: Pitch) -> (r: i32)
    ensures
        r as int == spec_pitch_distance(p1, p2),
{
    p2.semitone_of() - p1.semitone_of()
}

/// The distance from a pitch to itself is zero.
pub proof fn lemma_pitch_distance_self(p: Pitch)
    ensures
        spec_pitch_distance(p, p) == 0,
{
}

/// The diatonic distance is antisymmetric.
pub proof fn lemma_pitch_distance_antisymmetric(p1: Pitch, p2: Pitch)
    ensures
        spec_pitch_distance(p1, p2) == -spec_pitch_distance(p2, p1),
{
}

/// A resolved event: a note with its pitch class, octave, accidental and
/// duration, or a rest carrying only a duration.  Immutable once built.
#[derive(Debug, Copy, Clone, PartialEq, Eq, Structural)]
pub enum Note {
    Note(Pitch, i32, Accidental, Duration),
    Rest(Duration),
}

impl Note {
    /// The duration this event lasts.
    pub open spec fn spec_duration(self) -> Duration {
        match self {
            Note::Note(_, _, _, d) => d,
            Note::Rest(d) => d,
        }
    }

    /// The duration this event lasts.
    pub fn duration(&self) -> (r: Duration)
        ensures
            r == self.spec_duration(),
    {
        match *self {
            Note::Note(_, _, _, d) => d,
            Note::Rest(d) => d,
        }
    }
}

} // verus!
