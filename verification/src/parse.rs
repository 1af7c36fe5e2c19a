//! The notation parser: directive grammar and the score assembler.
//!
//! The input text is split into whitespace-delimited tokens, processed
//! strictly left to right.  For each token the five grammars are tried
//! in order: note or rest, key directive, bar line, tempo directive,
//! time-signature literal.  Note and rest tokens append to the
//! in-progress measure; every directive, and the end of input, flushes
//! the measure and validates its summed duration against the active time
//! signature.

pub mod combinators;
pub mod error;

use vstd::prelude::*;
use crate::accidental::Accidental;
use crate::duration::Duration;
use crate::duration::DurationBuilder;
use crate::duration::spec_sum_durations;
use crate::duration::sum_durations;
use crate::frac::Fraction;
use crate::key::Key;
use crate::key::Mode;
use crate::key::spec_fifths;
use crate::note::Note;
use crate::note::Pitch;
use crate::parse::combinators::run_end;
use crate::parse::combinators::lemma_run_end;
use crate::parse::combinators::spec_scan_u64;
use crate::parse::combinators::scan_u64;
use crate::parse::combinators::spec_octave;
use crate::parse::combinators::octave;
use crate::parse::combinators::spec_accidental;
use crate::parse::combinators::accidental;
use crate::parse::combinators::spec_note;
use crate::parse::combinators::note;
use crate::parse::combinators::spec_rest;
use crate::parse::combinators::rest;
use crate::parse::error::ParserError;

verus! {

/// Token-separating whitespace.
pub open spec fn is_ws(c: char) -> bool {
    c == ' ' || c == '\n' || c == '\t' || c == '\r'
}

/// The whitespace class as a function value.
pub open spec fn ws_f() -> spec_fn(char) -> bool {
    |c: char| is_ws(c)
}

/// The non-whitespace class as a function value.
pub open spec fn non_ws_f() -> spec_fn(char) -> bool {
    |c: char| !is_ws(c)
}

/// The pitch letter at `pos`, if one stands there.
pub fn pitch(s: &Vec<char>, pos: usize) -> (r: Option<(usize, Pitch)>)
    requires
        pos <= s@.len(),
    ensures
        match r {
            Some((p, pc)) => pos < s@.len() && Pitch::spec_from_char(s@[pos as int])
                == Some(pc) && p == pos + 1,
            None => pos >= s@.len() || Pitch::spec_from_char(s@[pos as int]) is None,
        },
{
    if pos < s.len() {
        match Pitch::try_from_char(s[pos]) {
            Some(p) => Some((pos + 1, p)),
            None => None,
        }
    } else {
        None
    }
}

/// The bar line at `pos`, if one stands there.
pub fn bar_line(s: &Vec<char>, pos: usize) -> (r: Option<usize>)
    requires
        pos <= s@.len(),
    ensures
        match r {
            Some(p) => pos < s@.len() && s@[pos as int] == '|' && p == pos + 1,
            None => pos >= s@.len() || s@[pos as int] != '|',
        },
{
    if pos < s.len() && s[pos] == '|' {
        Some(pos + 1)
    } else {
        None
    }
}

/// What the key directive denotes: the literal `K:`, a pitch letter, an
/// optional octave (default 4), an optional accidental run, and an
/// optional mode marker (`M` major by default, `m` minor), resolved
/// through the key table.  `Ok(None)` when the token does not start with
/// `K:` followed by a pitch letter.
pub open spec fn spec_key(s: Seq<char>, pos: int) -> Result<Option<(int, Key)>, ParserError> {
    if !(pos + 2 <= s.len() && s[pos] == 'K' && s[pos + 1] == ':') {
        Ok(None)
    } else {
        let p0 = pos + 2;
        if p0 >= s.len() || Pitch::spec_from_char(s[p0]) is None {
            Ok(None)
        } else {
            let tonic = Pitch::spec_from_char(s[p0])->Some_0;
            let op = spec_octave(s, p0 + 1).0;
            let oopt = spec_octave(s, p0 + 1).1;
            let oct = match oopt {
                Some(o) => o,
                None => 4i32,
            };
            match spec_accidental(s, op, Accidental::Natural) {
                Err(e) => Err(e),
                Ok((ap, acc)) => {
                    if ap < s.len() && s[ap] != 'M' && s[ap] != 'm' {
                        Err(ParserError::InvalidMode)
                    } else {
                        let mode = if ap < s.len() && s[ap] == 'm' {
                            Mode::Minor
                        } else {
                            Mode::Major
                        };
                        let mp = if ap < s.len() {
                            ap + 1
                        } else {
                            ap
                        };
                        match spec_fifths(tonic, acc, mode) {
                            Some(n) => Ok(Some((mp, Key { oct, fifths: n as i32 }))),
                            None => Err(ParserError::InvalidKey),
                        }
                    }
                },
            }
        }
    }
}

/// The key directive at `pos`.
pub fn parse_key(s: &Vec<char>, pos: usize) -> (r: Result<Option<(usize, Key)>, ParserError>)
    requires
        pos <= s@.len(),
        s@.len() < 0x8000_0000,
    ensures
        match (r, spec_key(s@, pos as int)) {
            (Ok(Some((p, k))), Ok(Some((sp, sk)))) => p as int == sp && k == sk && pos < p
                <= s@.len() && k.wf(),
            (Ok(None), Ok(None)) => true,
            (Err(e), Err(se)) => e == se,
            _ => false,
        },
{
    if !(pos + 2 <= s.len() && s[pos] == 'K' && s[pos + 1] == ':') {
        return Ok(None);
    }
    let p0 = pos + 2;
    if p0 >= s.len() {
        return Ok(None);
    }
    let tonic = match Pitch::try_from_char(s[p0]) {
        Some(t) => t,
        None => {
            return Ok(None);
        },
    };
    let (op, oct) = octave(s, p0 + 1, 4);
    match accidental(s, op, Accidental::Natural) {
        Err(e) => Err(e),
        Ok((ap, acc)) => {
            if ap < s.len() && s[ap] != 'M' && s[ap] != 'm' {
                return Err(ParserError::InvalidMode);
            }
            let mode = if ap < s.len() && s[ap] == 'm' {
                Mode::Minor
            } else {
                Mode::Major
            };
            let mp = if ap < s.len() {
                ap + 1
            } else {
                ap
            };
            match Key::try_new(tonic, oct, acc, mode) {
                Ok(k) => Ok(Some((mp, k))),
                Err(e) => Err(e),
            }
        },
    }
}

/// What the tempo directive denotes: the literal `BPM:` followed by an
/// unsigned integer.
pub open spec fn spec_bpm(s: Seq<char>, pos: int) -> Option<(int, u32)> {
    if pos + 4 <= s.len() && s[pos] == 'B' && s[pos + 1] == 'P' && s[pos + 2] == 'M' && s[pos + 3]
        == ':' {
        match spec_scan_u64(s, pos + 4, u32::MAX as u64) {
            None => None,
            Some((e, v)) => Some((e, v as u32)),
        }
    } else {
        None
    }
}

/// The tempo directive at `pos`.
pub fn bpm(s: &Vec<char>, pos: usize) -> (r: Option<(usize, u32)>)
    requires
        pos <= s@.len(),
        s@.len() < 0x8000_0000,
    ensures
        match (r, spec_bpm(s@, pos as int)) {
            (Some((p, v)), Some((sp, sv))) => p as int == sp && v == sv && pos < p <= s@.len(),
            (None, None) => true,
            _ => false,
        },
{
    if pos + 4 <= s.len() && s[pos] == 'B' && s[pos + 1] == 'P' && s[pos + 2] == 'M' && s[pos + 3]
        == ':' {
        match scan_u64(s, pos + 4, u32::MAX as u64) {
            None => None,
            Some((e, v)) => Some((e, v as u32)),
        }
    } else {
        None
    }
}

/// What a time-signature literal denotes: `numerator/denominator`, both
/// unsigned integers, as a reduced exact fraction.  A zero denominator
/// is no time signature.
pub open spec fn spec_timesig(s: Seq<char>, pos: int) -> Option<(int, Fraction)> {
    match spec_scan_u64(s, pos, u32::MAX as u64) {
        None => None,
        Some((e1, n)) => if e1 < s.len() && s[e1] == '/' {
            match spec_scan_u64(s, e1 + 1, u32::MAX as u64) {
                None => None,
                Some((e2, d)) => if d == 0 {
                    None
                } else {
                    Some((e2, Fraction::spec_new(n as u32, d as u32)))
                },
            }
        } else {
            None
        },
    }
}

/// The time-signature literal at `pos`.
pub fn parse_measure(s: &Vec<char>, pos: usize) -> (r: Option<(usize, Fraction)>)
    requires
        pos <= s@.len(),
    ensures
        match (r, spec_timesig(s@, pos as int)) {
            (Some((p, f)), Some((sp, sf))) => p as int == sp && f == sf && pos < p <= s@.len()
                && f.wf(),
            (None, None) => true,
            _ => false,
        },
{
    match scan_u64(s, pos, u32::MAX as u64) {
        None => None,
        Some((e1, n)) => {
            if e1 < s.len() && s[e1] == '/' {
                match scan_u64(s, e1 + 1, u32::MAX as u64) {
                    None => None,
                    Some((e2, d)) => {
                        if d == 0 {
                            None
                        } else {
                            Some((e2, Fraction::new(n as u32, d as u32)))
                        }
                    },
                }
            } else {
                None
            }
        },
    }
}

/// The durations of the events of a measure.
pub open spec fn measure_durations(m: Seq<Note>) -> Seq<Duration> {
    m.map_values(|n: Note| n.spec_duration())
}

/// What a flush does: an empty in-progress measure passes as it is; a
/// non-empty one has its durations summed exactly and compared with the
/// active time signature, moving into the completed events on a match
/// and raising `MeasureMismatch` otherwise.  Returns the new completed
/// events and the new completed-measure count.
pub open spec fn spec_flush(sig: Fraction, measure: Seq<Note>, completed: Seq<Note>, n: int)
    -> Result<(Seq<Note>, int), ParserError> {
    if measure.len() == 0 {
        Ok((completed, n))
    } else {
        match spec_sum_durations(measure_durations(measure)) {
            Err(e) => Err(e),
            Ok(total) => if total.fraction.same_value(sig) {
                Ok((completed + measure, n + 1))
            } else {
                Err(
                    ParserError::MeasureMismatch {
                        expected: sig,
                        actual: total.fraction,
                        index: n as usize,
                    },
                )
            },
        }
    }
}

/// Validate and flush the in-progress measure.
fn flush(sig: &Fraction, measure: &mut Vec<Note>, completed: &mut Vec<Note>, n_meas: &mut usize)
    -> (r: Result<(), ParserError>)
    requires
        forall|i: int|
            0 <= i < old(measure)@.len() ==> (#[trigger] old(measure)@[i]).spec_duration().wf(),
        old(n_meas) <= 0x7fff_ffff,
    ensures
        match (r, spec_flush(*sig, old(measure)@, old(completed)@, *old(n_meas) as int)) {
            (Ok(()), Ok((c2, n2))) => final(completed)@ == c2 && *final(n_meas) as int == n2
                && final(measure)@ == Seq::<Note>::empty(),
            (Err(e), Err(se)) => e == se,
            _ => false,
        },
{
    if measure.len() == 0 {
        proof {
            assert(measure@ =~= Seq::<Note>::empty());
        }
        return Ok(());
    }
    let mut ds: Vec<Duration> = Vec::new();
    let mut i: usize = 0;
    while i < measure.len()
        invariant
            0 <= i <= measure@.len(),
            measure@ == old(measure)@,
            ds@ == measure_durations(measure@).take(i as int),
            forall|k: int|
                0 <= k < measure@.len() ==> (#[trigger] measure@[k]).spec_duration().wf(),
        decreases measure@.len() - i,
    {
        let d = measure[i].duration();
        ds.push(d);
        proof {
            assert(ds@ =~= measure_durations(measure@).take(i + 1));
        }
        i = i + 1;
    }
    proof {
        assert(ds@ =~= measure_durations(measure@));
        assert(forall|k: int| 0 <= k < ds@.len() ==> (#[trigger] ds@[k]).wf());
    }
    match sum_durations(&ds) {
        Err(e) => Err(e),
        Ok(total) => {
            if total.fraction.eq_value(*sig) {
                completed.append(measure);
                *n_meas = *n_meas + 1;
                Ok(())
            } else {
                Err(
                    ParserError::MeasureMismatch {
                        expected: *sig,
                        actual: total.fraction,
                        index: *n_meas,
                    },
                )
            }
        },
    }
}

/// Whether `c` is token-separating whitespace.
pub fn is_space(c: char) -> (r: bool)
    ensures
        r == is_ws(c),
{
    c == ' ' || c == '\n' || c == '\t' || c == '\r'
}

/// The first non-whitespace position at or after `pos`.
fn skip_ws(s: &Vec<char>, pos: usize) -> (r: usize)
    requires
        pos <= s@.len(),
    ensures
        r as int == run_end(s@, pos as int, ws_f()),
        pos <= r <= s@.len(),
        r < s@.len() ==> !is_ws(s@[r as int]),
{
    proof {
        lemma_run_end(s@, pos as int, ws_f());
    }
    let ghost e = run_end(s@, pos as int, ws_f());
    let mut i: usize = pos;
    while i < s.len() && is_space(s[i])
        invariant
            pos <= i <= e <= s@.len(),
            e == run_end(s@, pos as int, ws_f()),
            forall|j: int| pos <= j < e ==> is_ws(#[trigger] s@[j]),
            e < s@.len() ==> !is_ws(s@[e]),
        decreases s@.len() - i,
    {
        proof {
            if i as int == e {
                assert(!is_ws(s@[i as int]));
                assert(false);
            }
        }
        i = i + 1;
    }
    proof {
        if (i as int) < e {
            assert(is_ws(s@[i as int]));
            assert(false);
        }
    }
    i
}

/// The end of the token starting at `pos`.
fn token_end(s: &Vec<char>, pos: usize) -> (r: usize)
    requires
        pos < s@.len(),
        !is_ws(s@[pos as int]),
    ensures
        r as int == run_end(s@, pos as int, non_ws_f()),
        pos < r <= s@.len(),
{
    proof {
        lemma_run_end(s@, pos as int, non_ws_f());
    }
    let ghost e = run_end(s@, pos as int, non_ws_f());
    let mut i: usize = pos;
    while i < s.len() && !is_space(s[i])
        invariant
            pos <= i <= e <= s@.len(),
            e == run_end(s@, pos as int, non_ws_f()),
            forall|j: int| pos <= j < e ==> !is_ws(#[trigger] s@[j]),
            e < s@.len() ==> is_ws(s@[e]),
        decreases s@.len() - i,
    {
        proof {
            if i as int == e {
                assert(is_ws(s@[i as int]));
                assert(false);
            }
        }
        i = i + 1;
    }
    proof {
        if (i as int) < e {
            assert(!is_ws(s@[i as int]));
            assert(false);
        }
    }
    i
}

/// What the assembler computes from position `pos` onward, carrying the
/// parse context: the current key, duration builder and time signature,
/// the in-progress measure, the completed events, and the number of
/// completed measures.  Each whitespace-delimited token is tried against
/// the five grammars in order — note or rest, key directive, bar line,
/// tempo directive, time-signature literal — and must be consumed whole
/// by the first that matches; a token matching none is an
/// `InvalidToken`.  Directives and the end of input flush the measure.
pub open spec fn spec_run(
    s: Seq<char>,
    pos: int,
    key: Key,
    b: DurationBuilder,
    sig: Fraction,
    measure: Seq<Note>,
    completed: Seq<Note>,
    n: int,
) -> Result<Seq<Note>, ParserError>
    decreases s.len() - pos
        when 0 <= pos <= s.len()
        via spec_run_dec
{
    let p = run_end(s, pos, ws_f());
    if p >= s.len() {
        match spec_flush(sig, measure, completed, n) {
            Ok((c2, _)) => Ok(c2),
            Err(e) => Err(e),
        }
    } else {
        let e = run_end(s, p, non_ws_f());
        match spec_note(s, p, key, b) {
            Err(er) => Err(er),
            Ok(note_r) => match spec_rest(s, p, b) {
                Err(er) => Err(er),
                Ok(rest_r) => {
                    let nr = if note_r is Some {
                        note_r
                    } else {
                        rest_r
                    };
                    if nr is Some && nr->Some_0.0 == e {
                        spec_run(s, e, key, b, sig, measure.push(nr->Some_0.1), completed, n)
                    } else {
                        match spec_key(s, p) {
                            Err(er) => Err(er),
                            Ok(kr) => if kr is Some && kr->Some_0.0 == e {
                                spec_run(s, e, kr->Some_0.1, b, sig, measure, completed, n)
                            } else if p + 1 == e && s[p] == '|' {
                                match spec_flush(sig, measure, completed, n) {
                                    Err(er) => Err(er),
                                    Ok((c2, n2)) => spec_run(
                                        s,
                                        e,
                                        key,
                                        b,
                                        sig,
                                        Seq::empty(),
                                        c2,
                                        n2,
                                    ),
                                }
                            } else {
                                let br = spec_bpm(s, p);
                                let tr = spec_timesig(s, p);
                                if br is Some && br->Some_0.0 == e && br->Some_0.1 >= 1 {
                                    match spec_flush(sig, measure, completed, n) {
                                        Err(er) => Err(er),
                                        Ok((c2, n2)) => spec_run(
                                            s,
                                            e,
                                            key,
                                            DurationBuilder {
                                                whole_note: Fraction::spec_new(
                                                    240,
                                                    br->Some_0.1,
                                                ),
                                            },
                                            sig,
                                            Seq::empty(),
                                            c2,
                                            n2,
                                        ),
                                    }
                                } else if tr is Some && tr->Some_0.0 == e && !(br is Some
                                    && br->Some_0.0 == e) {
                                    match spec_flush(sig, measure, completed, n) {
                                        Err(er) => Err(er),
                                        Ok((c2, n2)) => spec_run(
                                            s,
                                            e,
                                            key,
                                            b,
                                            tr->Some_0.1,
                                            Seq::empty(),
                                            c2,
                                            n2,
                                        ),
                                    }
                                } else {
                                    Err(ParserError::InvalidToken { from: p as usize, to: e as usize })
                                }
                            },
                        }
                    }
                },
            },
        }
    }
}

#[via_fn]
proof fn spec_run_dec(
    s: Seq<char>,
    pos: int,
    key: Key,
    b: DurationBuilder,
    sig: Fraction,
    measure: Seq<Note>,
    completed: Seq<Note>,
    n: int,
) {
    let p = run_end(s, pos, ws_f());
    lemma_run_end(s, pos, ws_f());
    if p < s.len() {
        lemma_run_end(s, p, non_ws_f());
        assert(!is_ws(s[p]));
        assert(run_end(s, p, non_ws_f()) == run_end(s, p + 1, non_ws_f()));
        lemma_run_end(s, p + 1, non_ws_f());
    }
}

/// What `parse` returns for the input `s`: the assembler run from the
/// initial state — default key (no accidentals, octave 4), default tempo
/// 120 beats per minute, default time signature 4/4, nothing parsed yet.
pub open spec fn spec_parse(s: Seq<char>) -> Result<Seq<Note>, ParserError> {
    spec_run(
        s,
        0,
        Key { oct: 4, fifths: 0 },
        DurationBuilder { whole_note: Fraction::spec_new(240, 120) },
        Fraction::spec_new(4, 4),
        Seq::empty(),
        Seq::empty(),
        0,
    )
}

/// The characters of `s`, in order.
fn chars_of(s: &str) -> (r: Vec<char>)
    ensures
        r@ == s@,
{
    let n = s.unicode_len();
    let mut v: Vec<char> = Vec::new();
    let mut i: usize = 0;
    while i < n
        invariant
            i <= n,
            n == s@.len(),
            v@ == s@.take(i as int),
        decreases n - i,
    {
        let c = s.get_char(i);
        v.push(c);
        proof {
            assert(v@ =~= s@.take(i + 1));
        }
        i = i + 1;
    }
    proof {
        assert(v@ =~= s@);
    }
    v
}

/// Compile the notation text into its time-ordered sequence of resolved
/// note and rest events, or the single error that aborted the parse.
/// Character positions and marker counts are held in `i32`-sized values,
/// so the input must stay below `2^31` characters.
pub fn parse(txt: &str) -> (r: Result<Vec<Note>, ParserError>)
    requires
        txt@.len() < 0x8000_0000,
    ensures
        match (r, spec_parse(txt@)) {
            (Ok(v), Ok(sq)) => v@ == sq,
            (Err(e), Err(se)) => e == se,
            _ => false,
        },
{
    let s = chars_of(txt);
    let mut key = Key::default();
    let mut builder = DurationBuilder::from_bpm(120);
    let mut sig = Fraction::new(4, 4);
    let mut measure: Vec<Note> = Vec::new();
    let mut completed: Vec<Note> = Vec::new();
    let mut n_meas: usize = 0;
    let mut pos: usize = 0;
    loop
        invariant
            pos <= s@.len(),
            s@ == txt@,
            s@.len() < 0x8000_0000,
            key.wf(),
            builder.whole_note.wf(),
            sig.wf(),
            forall|i: int|
                0 <= i < measure@.len() ==> (#[trigger] measure@[i]).spec_duration().wf(),
            completed@.len() + measure@.len() <= pos,
            n_meas <= completed@.len(),
            spec_run(
                s@,
                pos as int,
                key,
                builder,
                sig,
                measure@,
                completed@,
                n_meas as int,
            ) == spec_parse(txt@),
        decreases s@.len() - pos,
    {
        let p = skip_ws(&s, pos);
        if p >= s.len() {
            match flush(&sig, &mut measure, &mut completed, &mut n_meas) {
                Err(e) => {
                    return Err(e);
                },
                Ok(()) => {
                    return Ok(completed);
                },
            }
        }
        let e = token_end(&s, p);
        match note(&s, p, &key, &builder) {
            Err(er) => {
                return Err(er);
            },
            Ok(note_r) => {
                match rest(&s, p, &builder) {
                    Err(er) => {
                        return Err(er);
                    },
                    Ok(rest_r) => {
                        let nr = if note_r.is_some() {
                            note_r
                        } else {
                            rest_r
                        };
                        match nr {
                            Some((q, nt)) => {
                                if q == e {
                                    measure.push(nt);
                                    pos = e;
                                    continue;
                                }
                            },
                            None => {},
                        }
                    },
                }
            },
        }
        match parse_key(&s, p) {
            Err(er) => {
                return Err(er);
            },
            Ok(Some((q, k))) => {
                if q == e {
                    key = k;
                    pos = e;
                    continue;
                }
            },
            Ok(None) => {},
        }
        match bar_line(&s, p) {
            Some(q) => {
                if q == e {
                    match flush(&sig, &mut measure, &mut completed, &mut n_meas) {
                        Err(er) => {
                            return Err(er);
                        },
                        Ok(()) => {},
                    }
                    pos = e;
                    continue;
                }
            },
            None => {},
        }
        let bres = bpm(&s, p);
        let tres = parse_measure(&s, p);
        match bres {
            Some((q, v)) => {
                if q == e {
                    if v == 0 {
                        return Err(ParserError::InvalidToken { from: p, to: e });
                    }
                    match flush(&sig, &mut measure, &mut completed, &mut n_meas) {
                        Err(er) => {
                            return Err(er);
                        },
                        Ok(()) => {},
                    }
                    builder = DurationBuilder::from_bpm(v);
                    pos = e;
                    continue;
                }
            },
            None => {},
        }
        match tres {
            Some((q, f)) => {
                if q == e {
                    match flush(&sig, &mut measure, &mut completed, &mut n_meas) {
                        Err(er) => {
                            return Err(er);
                        },
                        Ok(()) => {},
                    }
                    sig = f;
                    pos = e;
                    continue;
                }
            },
            None => {},
        }
        return Err(ParserError::InvalidToken { from: p, to: e });
    }
}

} // verus!
