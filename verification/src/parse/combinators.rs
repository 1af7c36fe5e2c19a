//! The token grammar: pitch letters, octave markers and numbers,
//! accidental runs, and duration specs.
//!
//! Each parser is pure: it takes the input characters, a position, and
//! the relevant defaults, and returns the position after what it
//! consumed together with the resolved value, or a grammar error.  Each
//! is specified exactly by a spec function over the character sequence.

use vstd::prelude::*;
use vstd::arithmetic::power2::pow2;
use crate::accidental::Accidental;
use crate::duration::Duration;
use crate::duration::DurationBuilder;
use crate::duration::exponent_of;
use crate::duration::is_pow2;
use crate::frac::Fraction;
use crate::note::Note;
use crate::note::Pitch;
use crate::parse::error::ParserError;

verus! {

/// An ASCII decimal digit.
pub open spec fn is_digit(c: char) -> bool {
    '0' <= c && c <= '9'
}

/// The value of a decimal digit.
pub open spec fn digit_val(c: char) -> int {
    c as int - '0' as int
}

/// An accidental marker: sharp, flat, or explicit natural.
pub open spec fn is_acc_char(c: char) -> bool {
    c == '#' || c == 'b' || c == 'n'
}

/// An octave marker: one octave up, or one octave down.
pub open spec fn is_oct_marker(c: char) -> bool {
    c == '^' || c == '_'
}

/// The class of characters a run may consist of.
pub open spec fn digit_f() -> spec_fn(char) -> bool {
    |c: char| is_digit(c)
}

/// The accidental-marker class as a function value.
pub open spec fn acc_f() -> spec_fn(char) -> bool {
    |c: char| is_acc_char(c)
}

/// The dot class as a function value.
pub open spec fn dot_f() -> spec_fn(char) -> bool {
    |c: char| c == '.'
}

/// The octave-marker class as a function value.
pub open spec fn oct_marker_f() -> spec_fn(char) -> bool {
    |c: char| is_oct_marker(c)
}

/// The end of the maximal run of characters of class `f` starting at
/// `pos`.
pub open spec fn run_end(s: Seq<char>, pos: int, f: spec_fn(char) -> bool) -> int
    decreases s.len() - pos,
{
    if pos < 0 || pos >= s.len() {
        pos
    } else if f(s[pos]) {
        run_end(s, pos + 1, f)
    } else {
        pos
    }
}

/// A run stays within bounds, consists of class members, and stops only
/// at the end of input or at a non-member.
pub proof fn lemma_run_end(s: Seq<char>, pos: int, f: spec_fn(char) -> bool)
    requires
        0 <= pos <= s.len(),
    ensures
        pos <= run_end(s, pos, f) <= s.len(),
        forall|j: int| pos <= j < run_end(s, pos, f) ==> f(#[trigger] s[j]),
        run_end(s, pos, f) < s.len() ==> !f(s[run_end(s, pos, f)]),
    decreases s.len() - pos,
{
    if pos < s.len() && f(s[pos]) {
        lemma_run_end(s, pos + 1, f);
    }
}

/// The number of occurrences of `c` in `s[pos .. end]`.
pub open spec fn count_char_in(s: Seq<char>, pos: int, end: int, c: char) -> int
    decreases end - pos,
{
    if end <= pos {
        0
    } else {
        count_char_in(s, pos, end - 1, c) + if s[end - 1] == c {
            1int
        } else {
            0int
        }
    }
}

/// The number denoted by the digit run `s[pos .. end]`, most significant
/// digit first.
pub open spec fn digits_val(s: Seq<char>, pos: int, end: int) -> int
    decreases end - pos,
{
    if end <= pos {
        0
    } else {
        digits_val(s, pos, end - 1) * 10 + digit_val(s[end - 1])
    }
}

/// Over a digit run, the value is non-negative and never shrinks as the
/// run extends.
pub proof fn lemma_digits_val_grows(s: Seq<char>, pos: int, mid: int, end: int)
    requires
        pos <= mid <= end,
        forall|j: int| pos <= j < end ==> is_digit(#[trigger] s[j]),
    ensures
        0 <= digits_val(s, pos, mid) <= digits_val(s, pos, end),
    decreases end - mid,
{
    if mid == end {
        lemma_digits_val_nonneg(s, pos, end);
    } else {
        lemma_digits_val_grows(s, pos, mid, end - 1);
        lemma_digits_val_nonneg(s, pos, end - 1);
        assert(digits_val(s, pos, end - 1) * 10 >= digits_val(s, pos, end - 1)) by (nonlinear_arith)
            requires digits_val(s, pos, end - 1) >= 0;
    }
}

/// The value of a digit run is non-negative.
pub proof fn lemma_digits_val_nonneg(s: Seq<char>, pos: int, end: int)
    requires
        forall|j: int| pos <= j < end ==> is_digit(#[trigger] s[j]),
    ensures
        digits_val(s, pos, end) >= 0,
    decreases end - pos,
{
    if pos < end {
        lemma_digits_val_nonneg(s, pos, end - 1);
        assert(digits_val(s, pos, end - 1) * 10 >= 0) by (nonlinear_arith)
            requires digits_val(s, pos, end - 1) >= 0;
    }
}

/// What `scan_u64` returns: the end of the digit run at `pos` and its
/// value, `None` when the run is empty or the value exceeds `cap`.
pub open spec fn spec_scan_u64(s: Seq<char>, pos: int, cap: u64) -> Option<(int, u64)> {
    let e = run_end(s, pos, digit_f());
    if e == pos || digits_val(s, pos, e) > cap {
        None
    } else {
        Some((e, digits_val(s, pos, e) as u64))
    }
}

/// Read the digit run at `pos` as a number, refusing an empty run or a
/// value above `cap`.
pub fn scan_u64(s: &Vec<char>, pos: usize, cap: u64) -> (r: Option<(usize, u64)>)
    requires
        pos <= s@.len(),
        cap <= u32::MAX as u64 + 1,
    ensures
        match (r, spec_scan_u64(s@, pos as int, cap)) {
            (Some((p, v)), Some((sp, sv))) => p as int == sp && v == sv,
            (None, None) => true,
            _ => false,
        },
        r is Some ==> pos < r->Some_0.0 <= s@.len(),
        r is Some ==> r->Some_0.0 == run_end(s@, pos as int, digit_f()),
        r is Some ==> r->Some_0.1 <= cap,
{
    proof {
        lemma_run_end(s@, pos as int, digit_f());
    }
    let ghost e = run_end(s@, pos as int, digit_f());
    let mut i: usize = pos;
    let mut v: u64 = 0;
    let mut over: bool = false;
    while i < s.len() && '0' <= s[i] && s[i] <= '9'
        invariant
            pos <= i <= e <= s@.len(),
            e == run_end(s@, pos as int, digit_f()),
            forall|j: int| pos <= j < e ==> is_digit(#[trigger] s@[j]),
            e < s@.len() ==> !is_digit(s@[e]),
            cap <= u32::MAX as u64 + 1,
            !over ==> v == digits_val(s@, pos as int, i as int) && v <= cap,
            over ==> digits_val(s@, pos as int, i as int) > cap,
        decreases s@.len() - i,
    {
        proof {
            if i as int == e {
                assert(!is_digit(s@[i as int]));
                assert(false);
            }
        }
        let d: u64 = (s[i] as u32 - '0' as u32) as u64;
        if !over {
            let nv = v * 10 + d;
            if nv > cap {
                over = true;
            } else {
                v = nv;
            }
        } else {
            proof {
                lemma_digits_val_grows(s@, pos as int, i as int, i + 1);
            }
        }
        i = i + 1;
    }
    proof {
        if (i as int) < e {
            assert(is_digit(s@[i as int]));
            assert(false);
        }
    }
    if i == pos {
        None
    } else if over {
        None
    } else {
        Some((i, v))
    }
}

/// Scan the run of octave markers at `pos`, counting ups and downs.
fn scan_markers(s: &Vec<char>, pos: usize) -> (r: (usize, usize, usize))
    requires
        pos <= s@.len(),
    ensures
        r.0 as int == run_end(s@, pos as int, oct_marker_f()),
        r.1 as int == count_char_in(s@, pos as int, r.0 as int, '^'),
        r.2 as int == count_char_in(s@, pos as int, r.0 as int, '_'),
        pos <= r.0 <= s@.len(),
        r.1 <= r.0 - pos && r.2 <= r.0 - pos,
{
    proof {
        lemma_run_end(s@, pos as int, oct_marker_f());
    }
    let ghost e = run_end(s@, pos as int, oct_marker_f());
    let mut i: usize = pos;
    let mut ups: usize = 0;
    let mut downs: usize = 0;
    while i < s.len() && (s[i] == '^' || s[i] == '_')
        invariant
            pos <= i <= e <= s@.len(),
            e == run_end(s@, pos as int, oct_marker_f()),
            forall|j: int| pos <= j < e ==> is_oct_marker(#[trigger] s@[j]),
            e < s@.len() ==> !is_oct_marker(s@[e]),
            ups as int == count_char_in(s@, pos as int, i as int, '^'),
            downs as int == count_char_in(s@, pos as int, i as int, '_'),
            ups <= i - pos,
            downs <= i - pos,
        decreases s@.len() - i,
    {
        proof {
            if i as int == e {
                assert(!is_oct_marker(s@[i as int]));
                assert(false);
            }
        }
        if s[i] == '^' {
            ups = ups + 1;
        } else {
            downs = downs + 1;
        }
        i = i + 1;
    }
    proof {
        if (i as int) < e {
            assert(is_oct_marker(s@[i as int]));
            assert(false);
        }
    }
    (i, ups, downs)
}

/// Scan the run of accidental markers at `pos`, counting each kind.
fn scan_acc(s: &Vec<char>, pos: usize) -> (r: (usize, usize, usize, usize))
    requires
        pos <= s@.len(),
    ensures
        r.0 as int == run_end(s@, pos as int, acc_f()),
        r.1 as int == count_char_in(s@, pos as int, r.0 as int, '#'),
        r.2 as int == count_char_in(s@, pos as int, r.0 as int, 'b'),
        r.3 as int == count_char_in(s@, pos as int, r.0 as int, 'n'),
        pos <= r.0 <= s@.len(),
        r.1 <= r.0 - pos && r.2 <= r.0 - pos && r.3 <= r.0 - pos,
{
    proof {
        lemma_run_end(s@, pos as int, acc_f());
    }
    let ghost e = run_end(s@, pos as int, acc_f());
    let mut i: usize = pos;
    let mut ns: usize = 0;
    let mut nb: usize = 0;
    let mut nn: usize = 0;
    while i < s.len() && (s[i] == '#' || s[i] == 'b' || s[i] == 'n')
        invariant
            pos <= i <= e <= s@.len(),
            e == run_end(s@, pos as int, acc_f()),
            forall|j: int| pos <= j < e ==> is_acc_char(#[trigger] s@[j]),
            e < s@.len() ==> !is_acc_char(s@[e]),
            ns as int == count_char_in(s@, pos as int, i as int, '#'),
            nb as int == count_char_in(s@, pos as int, i as int, 'b'),
            nn as int == count_char_in(s@, pos as int, i as int, 'n'),
            ns <= i - pos,
            nb <= i - pos,
            nn <= i - pos,
        decreases s@.len() - i,
    {
        proof {
            if i as int == e {
                assert(!is_acc_char(s@[i as int]));
                assert(false);
            }
        }
        if s[i] == '#' {
            ns = ns + 1;
        } else if s[i] == 'b' {
            nb = nb + 1;
        } else {
            nn = nn + 1;
        }
        i = i + 1;
    }
    proof {
        if (i as int) < e {
            assert(is_acc_char(s@[i as int]));
            assert(false);
        }
    }
    (i, ns, nb, nn)
}

/// Scan the run of dots at `pos`.
fn scan_dots(s: &Vec<char>, pos: usize) -> (r: usize)
    requires
        pos <= s@.len(),
    ensures
        r as int == run_end(s@, pos as int, dot_f()),
        pos <= r <= s@.len(),
{
    proof {
        lemma_run_end(s@, pos as int, dot_f());
    }
    let ghost e = run_end(s@, pos as int, dot_f());
    let mut i: usize = pos;
    while i < s.len() && s[i] == '.'
        invariant
            pos <= i <= e <= s@.len(),
            e == run_end(s@, pos as int, dot_f()),
            forall|j: int| pos <= j < e ==> #[trigger] s@[j] == '.',
            e < s@.len() ==> s@[e] != '.',
        decreases s@.len() - i,
    {
        i = i + 1;
    }
    proof {
        if (i as int) < e {
            assert(s@[i as int] == '.');
            assert(false);
        }
    }
    i
}

/// What the octave parser returns: the position after an optional signed
/// integer, and its value; `(pos, None)` when there is no number there,
/// or when it does not fit an `i32`.
pub open spec fn spec_octave(s: Seq<char>, pos: int) -> (int, Option<i32>) {
    let neg = pos < s.len() && s[pos] == '-';
    let signed = pos < s.len() && (s[pos] == '-' || s[pos] == '+');
    let dstart = if signed {
        pos + 1
    } else {
        pos
    };
    match spec_scan_u64(s, dstart, 0x8000_0000) {
        None => (pos, None::<i32>),
        Some((e, v)) => if neg {
            if v == 0x8000_0000 {
                (e, Some(i32::MIN))
            } else if v < 0x8000_0000 {
                (e, Some((-(v as int)) as i32))
            } else {
                (pos, None::<i32>)
            }
        } else if v <= 0x7fff_ffff {
            (e, Some(v as i32))
        } else {
            (pos, None::<i32>)
        },
    }
}

/// The optional explicit octave number at `pos`: an optional sign and a
/// digit run.
fn octave_opt(s: &Vec<char>, pos: usize) -> (r: (usize, Option<i32>))
    requires
        pos <= s@.len(),
    ensures
        r.0 as int == spec_octave(s@, pos as int).0,
        r.1 == spec_octave(s@, pos as int).1,
        pos <= r.0 <= s@.len(),
{
    let neg = pos < s.len() && s[pos] == '-';
    let signed = pos < s.len() && (s[pos] == '-' || s[pos] == '+');
    let dstart = if signed {
        pos + 1
    } else {
        pos
    };
    match scan_u64(s, dstart, 0x8000_0000) {
        None => (pos, None),
        Some((e, v)) => {
            if neg {
                if v == 0x8000_0000 {
                    (e, Some(i32::MIN))
                } else if v < 0x8000_0000 {
                    (e, Some(-(v as i32)))
                } else {
                    (pos, None)
                }
            } else if v <= 0x7fff_ffff {
                (e, Some(v as i32))
            } else {
                (pos, None)
            }
        },
    }
}

/// The octave of a token: the explicit signed integer at `pos` if one is
/// there, else `default`.
pub fn octave(s: &Vec<char>, pos: usize, default: i32) -> (r: (usize, i32))
    requires
        pos <= s@.len(),
    ensures
        r.0 as int == spec_octave(s@, pos as int).0,
        r.1 == match spec_octave(s@, pos as int).1 {
            Some(o) => o,
            None => default,
        },
        pos <= r.0 <= s@.len(),
{
    let (p, o) = octave_opt(s, pos);
    match o {
        Some(v) => (p, v),
        None => (p, default),
    }
}

/// What the accidental parser returns for the marker run at `pos`: the
/// key-supplied default for an empty run; `Sharp`/`Flat` for a single
/// marker and `NSharp(k)`/`NFlat(k)` for a same-kind run of `k >= 2`; an
/// explicit `Natural` for one `n`; `AccidentalConflict` for mixed kinds
/// or repeated `n`.
pub open spec fn spec_accidental(s: Seq<char>, pos: int, default: Accidental) -> Result<
    (int, Accidental),
    ParserError,
> {
    let e = run_end(s, pos, acc_f());
    let ns = count_char_in(s, pos, e, '#');
    let nb = count_char_in(s, pos, e, 'b');
    let nn = count_char_in(s, pos, e, 'n');
    if ns == 0 && nb == 0 && nn == 0 {
        Ok((pos, default))
    } else if ns > 0 && nb == 0 && nn == 0 {
        Ok((e, if ns == 1 { Accidental::Sharp } else { Accidental::NSharp(ns as i32) }))
    } else if nb > 0 && ns == 0 && nn == 0 {
        Ok((e, if nb == 1 { Accidental::Flat } else { Accidental::NFlat(nb as i32) }))
    } else if nn == 1 && ns == 0 && nb == 0 {
        Ok((e, Accidental::Natural))
    } else {
        Err(ParserError::AccidentalConflict)
    }
}

/// The accidental run at `pos`, resolved against `default`.
pub fn accidental(s: &Vec<char>, pos: usize, default: Accidental) -> (r: Result<
    (usize, Accidental),
    ParserError,
>)
    requires
        pos <= s@.len(),
        s@.len() < 0x8000_0000,
    ensures
        match (r, spec_accidental(s@, pos as int, default)) {
            (Ok((p, a)), Ok((sp, sa))) => p as int == sp && a == sa && pos <= p <= s@.len(),
            (Err(e), Err(se)) => e == se,
            _ => false,
        },
{
    let (e, ns, nb, nn) = scan_acc(s, pos);
    if ns == 0 && nb == 0 && nn == 0 {
        Ok((pos, default))
    } else if ns > 0 && nb == 0 && nn == 0 {
        Ok((e, if ns == 1 { Accidental::Sharp } else { Accidental::NSharp(ns as i32) }))
    } else if nb > 0 && ns == 0 && nn == 0 {
        Ok((e, if nb == 1 { Accidental::Flat } else { Accidental::NFlat(nb as i32) }))
    } else if nn == 1 && ns == 0 && nb == 0 {
        Ok((e, Accidental::Natural))
    } else {
        Err(ParserError::AccidentalConflict)
    }
}

/// What one duration term denotes: an optional power-of-two denominator
/// (4 when absent) followed by zero or more dots.  A denominator that is
/// not a power of two is an `InvalidDurationDenominator`; a dotted
/// fraction too fine for the field width is a `DurationOverflow`.
pub open spec fn spec_term(s: Seq<char>, pos: int, b: DurationBuilder) -> Result<
    (int, Duration),
    ParserError,
> {
    let scanned = spec_scan_u64(s, pos, u32::MAX as u64);
    let dpos = match scanned {
        Some((e, _)) => e,
        None => pos,
    };
    let denom = match scanned {
        Some((_, v)) => v as u32,
        None => 4u32,
    };
    let de = run_end(s, dpos, dot_f());
    let dots = de - dpos;
    if !is_pow2(denom as int) {
        Err(ParserError::InvalidDurationDenominator)
    } else if dots > 30 || denom * pow2(dots as nat) > u32::MAX {
        Err(ParserError::DurationOverflow)
    } else {
        Ok((de, b.spec_build(denom, dots as u32)))
    }
}

/// A term's end lies between its start and the end of input.
pub proof fn lemma_term_pos(s: Seq<char>, pos: int, b: DurationBuilder)
    requires
        0 <= pos <= s.len(),
    ensures
        match spec_term(s, pos, b) {
            Ok((p, _)) => pos <= p <= s.len(),
            Err(_) => true,
        },
{
    lemma_run_end(s, pos, digit_f());
    let scanned = spec_scan_u64(s, pos, u32::MAX as u64);
    let dpos = match scanned {
        Some((e, _)) => e,
        None => pos,
    };
    lemma_run_end(s, dpos, dot_f());
}

/// What a tie chain denotes: while a `~` follows, a further term is
/// parsed and its fraction added exactly to the accumulated duration.
pub open spec fn spec_terms(s: Seq<char>, pos: int, b: DurationBuilder, acc: Duration) -> Result<
    (int, Duration),
    ParserError,
>
    decreases s.len() - pos
        when 0 <= pos <= s.len()
        via spec_terms_dec
{
    if pos < s.len() && s[pos] == '~' {
        match spec_term(s, pos + 1, b) {
            Err(e) => Err(e),
            Ok((p2, d)) => match Fraction::spec_add(acc.fraction, d.fraction) {
                None => Err(ParserError::DurationOverflow),
                Some(f) => spec_terms(
                    s,
                    p2,
                    b,
                    Duration { whole_note: acc.whole_note, fraction: f },
                ),
            },
        }
    } else {
        Ok((pos, acc))
    }
}

#[via_fn]
proof fn spec_terms_dec(s: Seq<char>, pos: int, b: DurationBuilder, acc: Duration) {
    if pos < s.len() && s[pos] == '~' {
        lemma_term_pos(s, pos + 1, b);
    }
}

/// What a duration spec denotes: if a `/` stands at `pos`, one or more
/// terms joined by `~`, summed exactly; otherwise the default un-dotted
/// quarter `1/4`.
pub open spec fn spec_duration(s: Seq<char>, pos: int, b: DurationBuilder) -> Result<
    (int, Duration),
    ParserError,
> {
    if pos < s.len() && s[pos] == '/' {
        match spec_term(s, pos + 1, b) {
            Err(e) => Err(e),
            Ok((p, d)) => spec_terms(s, p, b, d),
        }
    } else {
        Ok((pos, b.spec_build(4, 0)))
    }
}

/// One duration term: an optional denominator and a dot run.
fn term(s: &Vec<char>, pos: usize, builder: &DurationBuilder) -> (r: Result<
    (usize, Duration),
    ParserError,
>)
    requires
        pos <= s@.len(),
        builder.whole_note.wf(),
    ensures
        match (r, spec_term(s@, pos as int, *builder)) {
            (Ok((p, d)), Ok((sp, sd))) => p as int == sp && d == sd && pos <= p <= s@.len()
                && d.wf() && d.whole_note == builder.whole_note,
            (Err(e), Err(se)) => e == se,
            _ => false,
        },
{
    let scanned = scan_u64(s, pos, u32::MAX as u64);
    let (dpos, denom): (usize, u32) = match scanned {
        Some((e, v)) => (e, v as u32),
        None => (pos, 4u32),
    };
    let de = scan_dots(s, dpos);
    let dots = de - dpos;
    match exponent_of(denom) {
        None => Err(ParserError::InvalidDurationDenominator),
        Some(j) => {
            if dots > 30 || j + (dots as u32) > 31 {
                proof {
                    if dots <= 30 {
                        vstd::arithmetic::power2::lemma_pow2_adds(j as nat, dots as nat);
                        vstd::arithmetic::power2::lemma2_to64();
                        if 32 < j + dots {
                            vstd::arithmetic::power2::lemma_pow2_strictly_increases(32, (j + dots) as nat);
                        }
                        assert(denom * pow2(dots as nat) == pow2((j + dots) as nat));
                        assert(pow2((j + dots) as nat) > u32::MAX);
                    }
                }
                Err(ParserError::DurationOverflow)
            } else {
                proof {
                    vstd::arithmetic::power2::lemma_pow2_adds(j as nat, dots as nat);
                    vstd::arithmetic::power2::lemma2_to64();
                    if j + dots < 32 {
                        vstd::arithmetic::power2::lemma_pow2_strictly_increases((j + dots) as nat, 32);
                    }
                    assert(denom * pow2(dots as nat) == pow2((j + dots) as nat));
                    assert(pow2((j + dots) as nat) <= u32::MAX);
                }
                Ok((de, builder.build(denom, dots as u32)))
            }
        },
    }
}

/// The duration spec at `pos`: `/` introduces one or more terms joined
/// by `~`, which are summed exactly; absent, the duration is one
/// un-dotted quarter.
pub fn duration(s: &Vec<char>, pos: usize, builder: &DurationBuilder) -> (r: Result<
    (usize, Duration),
    ParserError,
>)
    requires
        pos <= s@.len(),
        builder.whole_note.wf(),
    ensures
        match (r, spec_duration(s@, pos as int, *builder)) {
            (Ok((p, d)), Ok((sp, sd))) => p as int == sp && d == sd && pos <= p <= s@.len()
                && d.wf() && d.whole_note == builder.whole_note,
            (Err(e), Err(se)) => e == se,
            _ => false,
        },
{
    if pos < s.len() && s[pos] == '/' {
        let first = term(s, pos + 1, builder);
        match first {
            Err(e) => Err(e),
            Ok((p0, d0)) => {
                let mut cur: usize = p0;
                let mut acc: Duration = d0;
                loop
                    invariant
                        pos < cur <= s@.len(),
                        acc.wf(),
                        acc.whole_note == builder.whole_note,
                        builder.whole_note.wf(),
                        spec_duration(s@, pos as int, *builder) == spec_terms(
                            s@,
                            cur as int,
                            *builder,
                            acc,
                        ),
                    decreases s@.len() - cur,
                {
                    if cur < s.len() && s[cur] == '~' {
                        match term(s, cur + 1, builder) {
                            Err(e) => {
                                return Err(e);
                            },
                            Ok((p2, d2)) => {
                                match acc.fraction.checked_add(d2.fraction) {
                                    None => {
                                        return Err(ParserError::DurationOverflow);
                                    },
                                    Some(f) => {
                                        acc = Duration {
                                            whole_note: acc.whole_note,
                                            fraction: f,
                                        };
                                        cur = p2;
                                    },
                                }
                            },
                        }
                    } else {
                        return Ok((cur, acc));
                    }
                }
            },
        }
    } else {
        proof {
            vstd::arithmetic::power2::lemma2_to64();
            assert(is_pow2(4) && 4 * pow2(0) <= u32::MAX) by {
                assert(4 == pow2(2));
            }
        }
        Ok((pos, builder.build(4, 0)))
    }
}

/// What the note grammar denotes: leading octave markers, a pitch
/// letter, an optional explicit octave, an accidental run resolved
/// against the key, and a duration spec.  `Ok(None)` when no pitch
/// letter stands where one is expected, or when the marker-adjusted
/// octave leaves the `i32` range.
pub open spec fn spec_note(s: Seq<char>, pos: int, key: crate::key::Key, b: DurationBuilder)
    -> Result<Option<(int, Note)>, ParserError> {
    let me = run_end(s, pos, oct_marker_f());
    let ups = count_char_in(s, pos, me, '^');
    let downs = count_char_in(s, pos, me, '_');
    if me >= s.len() || Pitch::spec_from_char(s[me]) is None {
        Ok(None)
    } else {
        let p = Pitch::spec_from_char(s[me])->Some_0;
        let opos = spec_octave(s, me + 1).0;
        let oopt = spec_octave(s, me + 1).1;
        let oct_i = match oopt {
            Some(o) => o as int,
            None => key.oct + ups - downs,
        };
        if oct_i < i32::MIN || oct_i > i32::MAX {
            Ok(None)
        } else {
            match spec_accidental(s, opos, key.spec_get(p)) {
                Err(e) => Err(e),
                Ok((ap, acc)) => match spec_duration(s, ap, b) {
                    Err(e) => Err(e),
                    Ok((dp, dur)) => Ok(Some((dp, Note::Note(p, oct_i as i32, acc, dur)))),
                },
            }
        }
    }
}

/// The note token at `pos`, resolved against the current key and
/// duration builder.
pub fn note(s: &Vec<char>, pos: usize, key: &crate::key::Key, builder: &DurationBuilder) -> (r:
    Result<Option<(usize, Note)>, ParserError>)
    requires
        pos <= s@.len(),
        s@.len() < 0x8000_0000,
        key.wf(),
        builder.whole_note.wf(),
    ensures
        match (r, spec_note(s@, pos as int, *key, *builder)) {
            (Ok(Some((p, n))), Ok(Some((sp, sn)))) => p as int == sp && n == sn && pos <= p
                <= s@.len() && n.spec_duration().wf() && n.spec_duration().whole_note
                == builder.whole_note,
            (Ok(None), Ok(None)) => true,
            (Err(e), Err(se)) => e == se,
            _ => false,
        },
{
    let (me, ups, downs) = scan_markers(s, pos);
    if me >= s.len() {
        return Ok(None);
    }
    let pc = Pitch::try_from_char(s[me]);
    match pc {
        None => Ok(None),
        Some(p) => {
            let (opos, oopt) = octave_opt(s, me + 1);
            proof {
                assert(ups <= s@.len() && downs <= s@.len());
            }
            let oct_i: i64 = match oopt {
                Some(o) => o as i64,
                None => key.oct as i64 + ups as i64 - downs as i64,
            };
            if oct_i < i32::MIN as i64 || oct_i > i32::MAX as i64 {
                return Ok(None);
            }
            let oct: i32 = oct_i as i32;
            match accidental(s, opos, key.get(&p)) {
                Err(e) => Err(e),
                Ok((ap, acc)) => match duration(s, ap, builder) {
                    Err(e) => Err(e),
                    Ok((dp, dur)) => Ok(Some((dp, Note::Note(p, oct, acc, dur)))),
                },
            }
        },
    }
}

/// What the rest grammar denotes: `R` with the same duration-spec suffix
/// as a note.
pub open spec fn spec_rest(s: Seq<char>, pos: int, b: DurationBuilder) -> Result<
    Option<(int, Note)>,
    ParserError,
> {
    if pos < s.len() && s[pos] == 'R' {
        match spec_duration(s, pos + 1, b) {
            Err(e) => Err(e),
            Ok((p, d)) => Ok(Some((p, Note::Rest(d)))),
        }
    } else {
        Ok(None)
    }
}

/// The rest token at `pos`.
pub fn rest(s: &Vec<char>, pos: usize, builder: &DurationBuilder) -> (r: Result<
    Option<(usize, Note)>,
    ParserError,
>)
    requires
        pos <= s@.len(),
        builder.whole_note.wf(),
    ensures
        match (r, spec_rest(s@, pos as int, *builder)) {
            (Ok(Some((p, n))), Ok(Some((sp, sn)))) => p as int == sp && n == sn && pos <= p
                <= s@.len() && n.spec_duration().wf() && n.spec_duration().whole_note
                == builder.whole_note,
            (Ok(None), Ok(None)) => true,
            (Err(e), Err(se)) => e == se,
            _ => false,
        },
{
    if pos < s.len() && s[pos] == 'R' {
        match duration(s, pos + 1, builder) {
            Err(e) => Err(e),
            Ok((p, d)) => Ok(Some((p, Note::Rest(d)))),
        }
    } else {
        Ok(None)
    }
}

} // verus!
