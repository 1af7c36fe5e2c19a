//! The accidental algebra: a signed semitone offset with closed addition.

use vstd::prelude::*;

verus! {

/// A pitch modifier expressed as a signed semitone offset, canonicalized
/// into named buckets: exactly -1 is `Flat`, 0 is `Natural`, +1 is `Sharp`;
/// larger magnitudes are carried by `NFlat`/`NSharp`, whose payload counts
/// by absolute magnitude.
#[derive(Debug, Copy, Clone, PartialEq, Eq, Structural)]
pub enum Accidental {
    NFlat(i32),
    Flat,
    Natural,
    Sharp,
    NSharp(i32),
}

impl Accidental {
    /// The semitone offset this accidental denotes; `NFlat`/`NSharp`
    /// payloads count by absolute magnitude.
    pub open spec fn spec_offset(self) -> int {
        match self {
            Accidental::NFlat(n) => -(vstd::math::abs(n as int) as int),
            Accidental::Flat => -1,
            Accidental::Natural => 0,
            Accidental::Sharp => 1,
            Accidental::NSharp(n) => vstd::math::abs(n as int) as int,
        }
    }

    /// A payload of `i32::MIN` has no absolute value in `i32`, so its
    /// offset cannot be computed; every other value is fine.
    pub open spec fn offset_in_range(self) -> bool {
        match self {
            Accidental::NFlat(n) => n > i32::MIN,
            Accidental::NSharp(n) => n > i32::MIN,
            _ => true,
        }
    }

    /// The canonical bucket for offset `n`.
    pub open spec fn canonical_of(n: int) -> Accidental {
        if n == -1 {
            Accidental::Flat
        } else if n == 0 {
            Accidental::Natural
        } else if n == 1 {
            Accidental::Sharp
        } else if n < 0 {
            Accidental::NFlat((-n) as i32)
        } else {
            Accidental::NSharp(n as i32)
        }
    }

    /// Whether this value is the canonical spelling of its offset: the
    /// multi-step buckets are used only for magnitudes of two or more.
    pub open spec fn is_canonical(self) -> bool {
        match self {
            Accidental::NFlat(n) => n >= 2,
            Accidental::NSharp(n) => n >= 2,
            _ => true,
        }
    }

    /// What `combine` returns: the canonical bucket of the summed offsets.
    pub open spec fn spec_combine(a: Accidental, b: Accidental) -> Accidental {
        Accidental::canonical_of(a.spec_offset() + b.spec_offset())
    }

    /// The semitone offset as an executable value.
    pub fn offset(self) -> (r: i32)
        requires
            self.offset_in_range(),
        ensures
            r as int == self.spec_offset(),
    {
        match self {
            Accidental::NFlat(n) => if n >= 0 { -n } else { n },
            Accidental::Flat => -1,
            Accidental::Natural => 0,
            Accidental::Sharp => 1,
            Accidental::NSharp(n) => if n >= 0 { n } else { -n },
        }
    }

    /// Sum the offsets of two accidentals and re-canonicalize.
    pub fn combine(self, rhs: Accidental) -> (r: Accidental)
        requires
            self.offset_in_range(),
            rhs.offset_in_range(),
            i32::MIN < self.spec_offset() + rhs.spec_offset() <= i32::MAX,
        ensures
            r == Accidental::spec_combine(self, rhs),
            r.spec_offset() == self.spec_offset() + rhs.spec_offset(),
            r.is_canonical(),
            r.offset_in_range(),
    {
        let n = self.offset() + rhs.offset();
        if n == -1 {
            Accidental::Flat
        } else if n == 0 {
            Accidental::Natural
        } else if n == 1 {
            Accidental::Sharp
        } else if n < 0 {
            Accidental::NFlat(-n)
        } else {
            Accidental::NSharp(n)
        }
    }
}

/// The canonical bucket of an in-range offset denotes that very offset,
/// and is canonical.
pub proof fn lemma_canonical_offset(n: int)
    requires
        i32::MIN < n <= i32::MAX,
    ensures
        Accidental::canonical_of(n).spec_offset() == n,
        Accidental::canonical_of(n).is_canonical(),
        Accidental::canonical_of(n).offset_in_range(),
{
}

/// Combining accidentals is commutative.
pub proof fn lemma_combine_commutative(a: Accidental, b: Accidental)
    ensures
        Accidental::spec_combine(a, b) == Accidental::spec_combine(b, a),
{
}

/// Combining accidentals is associative whenever the partial and total
/// offset sums fit in `i32`.
pub proof fn lemma_combine_associative(a: Accidental, b: Accidental, c: Accidental)
    requires
        i32::MIN < a.spec_offset() + b.spec_offset() <= i32::MAX,
        i32::MIN < b.spec_offset() + c.spec_offset() <= i32::MAX,
        i32::MIN < a.spec_offset() + b.spec_offset() + c.spec_offset() <= i32::MAX,
    ensures
        Accidental::spec_combine(Accidental::spec_combine(a, b), c)
            == Accidental::spec_combine(a, Accidental::spec_combine(b, c)),
{
    lemma_canonical_offset(a.spec_offset() + b.spec_offset());
    lemma_canonical_offset(b.spec_offset() + c.spec_offset());
}

/// `Natural` is an identity for combining, on canonical accidentals.
/// (A non-canonical spelling such as `NSharp(1)` is re-canonicalized to
/// `Sharp`, so the identity holds only up to offset for those.)
pub proof fn lemma_combine_natural_identity(a: Accidental)
    requires
        a.is_canonical(),
        a.offset_in_range(),
    ensures
        Accidental::spec_combine(a, Accidental::Natural) == a,
        Accidental::spec_combine(Accidental::Natural, a) == a,
{
}

} // verus!
