use notation::accidental::Accidental;
use notation::duration::Duration;
use notation::duration::DurationBuilder;
use notation::duration::exponent_of;
use notation::duration::sum_durations;
use notation::frac::Fraction;
use notation::key::Key;
use notation::key::Mode;
use notation::note::Note;
use notation::note::Pitch;
use notation::note::pitch_distance;
use notation::parse::error::ParserError;
use notation::parse::parse;

fn secs(d: &Duration) -> f32 {
    let (n, den) = d.secs_ratio();
    n as f32 / den as f32
}

fn frac(num: u32, den: u32) -> Fraction {
    Fraction::new(num, den)
}

#[test]
fn test_bpm_builder() {
    let dur = DurationBuilder::from_bpm(120);
    assert_eq!(secs(&dur.build(4, 0)), 0.5);
    assert_eq!(secs(&dur.build(4, 1)), 0.75);
    assert_eq!(secs(&dur.build(1, 0)), 2.0);
    let chain = vec![dur.build(4, 0), dur.build(4, 1), dur.build(1, 0)];
    assert_eq!(secs(&sum_durations(&chain).unwrap()), 3.25);

    let dur = DurationBuilder::from_bpm(80);
    assert_eq!(secs(&dur.build(4, 0)), 0.75);
    assert_eq!(secs(&dur.build(1, 0)), 3.0);
}

#[test]
fn combine_is_commutative_on_samples() {
    let pairs = [
        (Accidental::Sharp, Accidental::Flat),
        (Accidental::NSharp(3), Accidental::Flat),
        (Accidental::NFlat(2), Accidental::Sharp),
        (Accidental::Natural, Accidental::NSharp(5)),
    ];
    for (a, b) in pairs {
        assert_eq!(a.combine(b), b.combine(a));
    }
}

#[test]
fn combine_is_associative_on_samples() {
    let triples = [
        (Accidental::Sharp, Accidental::Flat, Accidental::NSharp(2)),
        (Accidental::NFlat(4), Accidental::Sharp, Accidental::Sharp),
        (Accidental::Natural, Accidental::Flat, Accidental::Flat),
    ];
    for (a, b, c) in triples {
        assert_eq!(a.combine(b).combine(c), a.combine(b.combine(c)));
    }
}

#[test]
fn combine_natural_is_identity() {
    for a in [
        Accidental::NFlat(3),
        Accidental::Flat,
        Accidental::Natural,
        Accidental::Sharp,
        Accidental::NSharp(2),
    ] {
        assert_eq!(a.combine(Accidental::Natural), a);
        assert_eq!(Accidental::Natural.combine(a), a);
    }
}

#[test]
fn combine_canonicalizes() {
    assert_eq!(Accidental::Sharp.combine(Accidental::Flat), Accidental::Natural);
    assert_eq!(Accidental::Sharp.combine(Accidental::Sharp), Accidental::NSharp(2));
    assert_eq!(Accidental::NSharp(2).combine(Accidental::Flat), Accidental::Sharp);
    assert_eq!(Accidental::NFlat(2).combine(Accidental::Sharp), Accidental::Flat);
    assert_eq!(Accidental::NFlat(3).offset(), -3);
    assert_eq!(Accidental::NSharp(4).offset(), 4);
}

#[test]
fn pitch_distance_zero_on_same_pitch() {
    for p in [Pitch::A, Pitch::B, Pitch::C, Pitch::D, Pitch::E, Pitch::F, Pitch::G] {
        assert_eq!(pitch_distance(p, p), 0);
    }
}

#[test]
fn pitch_distance_is_antisymmetric() {
    let all = [Pitch::A, Pitch::B, Pitch::C, Pitch::D, Pitch::E, Pitch::F, Pitch::G];
    for p1 in all {
        for p2 in all {
            assert_eq!(pitch_distance(p1, p2), -pitch_distance(p2, p1));
        }
    }
}

#[test]
fn pitch_distance_table() {
    assert_eq!(pitch_distance(Pitch::E, Pitch::F), 1);
    assert_eq!(pitch_distance(Pitch::B, Pitch::C), -11);
    assert_eq!(pitch_distance(Pitch::C, Pitch::D), 2);
    assert_eq!(pitch_distance(Pitch::A, Pitch::B), 2);
    assert_eq!(pitch_distance(Pitch::C, Pitch::A), 9);
    assert_eq!(pitch_distance(Pitch::F, Pitch::B), 6);
}

#[test]
fn quarter_note_seconds_follows_tempo() {
    // 240.0 / bpm / 4 seconds for an un-dotted quarter
    assert_eq!(secs(&DurationBuilder::from_bpm(120).build(4, 0)), 0.5);
    assert_eq!(secs(&DurationBuilder::from_bpm(80).build(4, 0)), 0.75);
    assert_eq!(secs(&DurationBuilder::from_bpm(60).build(4, 0)), 1.0);
    assert_eq!(secs(&DurationBuilder::from_bpm(240).build(4, 0)), 0.25);
}

#[test]
fn dotted_duration_is_geometric_sum() {
    let dur = DurationBuilder::from_bpm(120);
    // one dot: 0.5 + 0.25
    assert_eq!(secs(&dur.build(4, 1)), 0.75);
    assert_eq!(dur.build(4, 1).fraction, frac(3, 8));
    // two dots: 0.5 + 0.25 + 0.125
    assert_eq!(secs(&dur.build(4, 2)), 0.875);
    let chain = vec![dur.build(4, 0), dur.build(4, 1), dur.build(1, 0)];
    assert_eq!(secs(&sum_durations(&chain).unwrap()), 3.25);
}

#[test]
fn sum_stays_in_lowest_terms() {
    let dur = DurationBuilder::from_bpm(120);
    let chain = vec![dur.build(8, 0), dur.build(8, 0)];
    let total = sum_durations(&chain).unwrap();
    // 1/8 + 1/8 reduces to 1/4 exactly
    assert_eq!(total.fraction, Fraction { num: 1, den: 4 });
    let chain = vec![dur.build(4, 1), dur.build(8, 0)];
    // 3/8 + 1/8 == 1/2
    assert_eq!(sum_durations(&chain).unwrap().fraction, Fraction { num: 1, den: 2 });
}

#[test]
fn sum_refuses_mixed_bases() {
    let a = DurationBuilder::from_bpm(120).build(4, 0);
    let b = DurationBuilder::from_bpm(60).build(4, 0);
    assert_eq!(sum_durations(&vec![a, b]), Err(ParserError::MismatchedDurationBasis));
}

#[test]
fn key_lookup_g_major() {
    let k = Key::try_new(Pitch::G, 4, Accidental::Natural, Mode::Major).unwrap();
    assert_eq!(k.get(&Pitch::F), Accidental::Sharp);
    for p in [Pitch::A, Pitch::B, Pitch::C, Pitch::D, Pitch::E, Pitch::G] {
        assert_eq!(k.get(&p), Accidental::Natural);
    }
    let k = Key::try_new(Pitch::E, 4, Accidental::Natural, Mode::Minor).unwrap();
    assert_eq!(k.get(&Pitch::F), Accidental::Sharp);
    for p in [Pitch::A, Pitch::B, Pitch::C, Pitch::D, Pitch::E, Pitch::G] {
        assert_eq!(k.get(&p), Accidental::Natural);
    }
}

#[test]
fn key_lookup_flat_keys() {
    let k = Key::try_new(Pitch::F, 4, Accidental::Natural, Mode::Major).unwrap();
    assert_eq!(k.get(&Pitch::B), Accidental::Flat);
    assert_eq!(k.get(&Pitch::E), Accidental::Natural);
    let k = Key::try_new(Pitch::E, 4, Accidental::Flat, Mode::Major).unwrap();
    assert_eq!(k.get(&Pitch::B), Accidental::Flat);
    assert_eq!(k.get(&Pitch::E), Accidental::Flat);
    assert_eq!(k.get(&Pitch::A), Accidental::Flat);
    assert_eq!(k.get(&Pitch::D), Accidental::Natural);
}

#[test]
fn key_rejects_invalid_signatures() {
    assert_eq!(
        Key::try_new(Pitch::D, 4, Accidental::Sharp, Mode::Major),
        Err(ParserError::InvalidKey)
    );
    assert_eq!(
        Key::try_new(Pitch::G, 4, Accidental::Flat, Mode::Minor),
        Err(ParserError::InvalidKey)
    );
}

#[test]
fn mode_markers() {
    assert_eq!(Mode::try_from_char('M'), Ok(Mode::Major));
    assert_eq!(Mode::try_from_char('m'), Ok(Mode::Minor));
    assert_eq!(Mode::try_from_char('x'), Err(ParserError::InvalidMode));
}

fn quarter_at_120() -> Duration {
    Duration { whole_note: Fraction { num: 2, den: 1 }, fraction: Fraction { num: 1, den: 4 } }
}

#[test]
fn parse_c_major_scale() {
    // seven quarter notes fill a 7/4 measure exactly
    let notes = parse("K:CM 7/4 C D E F G A B |").unwrap();
    let expected: Vec<Note> = [Pitch::C, Pitch::D, Pitch::E, Pitch::F, Pitch::G, Pitch::A, Pitch::B]
        .iter()
        .map(|&p| Note::Note(p, 4, Accidental::Natural, quarter_at_120()))
        .collect();
    assert_eq!(notes, expected);
}

#[test]
fn parse_scale_without_resizing_measure_mismatches() {
    // under the default 4/4, seven quarter notes do not fill the measure
    let r = parse("K:CM C D E F G A B |");
    assert_eq!(
        r,
        Err(ParserError::MeasureMismatch {
            expected: frac(4, 4),
            actual: frac(7, 4),
            index: 0,
        })
    );
}

#[test]
fn parse_whole_note_fills_four_four() {
    let notes = parse("4/4 C/1 |").unwrap();
    assert_eq!(notes.len(), 1);
    assert_eq!(
        notes[0],
        Note::Note(
            Pitch::C,
            4,
            Accidental::Natural,
            Duration { whole_note: Fraction { num: 2, den: 1 }, fraction: Fraction { num: 1, den: 1 } }
        )
    );
}

#[test]
fn parse_mixed_accidentals_conflict() {
    assert_eq!(parse("A#b"), Err(ParserError::AccidentalConflict));
    assert_eq!(parse("Cnn"), Err(ParserError::AccidentalConflict));
}

#[test]
fn parse_non_power_of_two_denominator() {
    assert_eq!(parse("C/3"), Err(ParserError::InvalidDurationDenominator));
    assert_eq!(parse("R/6"), Err(ParserError::InvalidDurationDenominator));
}

#[test]
fn parse_three_quarters_under_four_four() {
    assert_eq!(
        parse("C C C |"),
        Err(ParserError::MeasureMismatch {
            expected: frac(4, 4),
            actual: frac(3, 4),
            index: 0,
        })
    );
}

#[test]
fn parse_key_applies_implicitly_and_naturals_override() {
    // G major sharpens F; an explicit natural marker overrides the key
    let notes = parse("K:GM 2/4 F Fn |").unwrap();
    assert_eq!(notes[0], Note::Note(Pitch::F, 4, Accidental::Sharp, quarter_at_120()));
    assert_eq!(notes[1], Note::Note(Pitch::F, 4, Accidental::Natural, quarter_at_120()));
}

#[test]
fn parse_octaves_and_markers() {
    let notes = parse("4/4 ^C _C C7 C |").unwrap();
    assert_eq!(notes[0], Note::Note(Pitch::C, 5, Accidental::Natural, quarter_at_120()));
    assert_eq!(notes[1], Note::Note(Pitch::C, 3, Accidental::Natural, quarter_at_120()));
    assert_eq!(notes[2], Note::Note(Pitch::C, 7, Accidental::Natural, quarter_at_120()));
    assert_eq!(notes[3], Note::Note(Pitch::C, 4, Accidental::Natural, quarter_at_120()));
}

#[test]
fn parse_key_directive_carries_default_octave() {
    let notes = parse("K:C5M 4/4 C C C C |").unwrap();
    for n in &notes {
        assert_eq!(*n, Note::Note(Pitch::C, 5, Accidental::Natural, quarter_at_120()));
    }
}

#[test]
fn parse_tied_durations_sum() {
    let notes = parse("2/4 C/4~4 |").unwrap();
    assert_eq!(notes.len(), 1);
    assert_eq!(notes[0].duration().fraction, Fraction { num: 1, den: 2 });
}

#[test]
fn parse_dotted_measure() {
    let notes = parse("C/2. C/4 |").unwrap();
    assert_eq!(notes[0].duration().fraction, frac(3, 4));
    assert_eq!(notes[1].duration().fraction, frac(1, 4));
}

#[test]
fn parse_rest() {
    let notes = parse("R/1 |").unwrap();
    assert_eq!(
        notes[0],
        Note::Rest(Duration {
            whole_note: Fraction { num: 2, den: 1 },
            fraction: Fraction { num: 1, den: 1 },
        })
    );
}

#[test]
fn parse_tempo_change_rescales_later_notes_only() {
    let notes = parse("C C C C BPM:60 C C C C").unwrap();
    assert_eq!(notes.len(), 8);
    assert_eq!(secs(&notes[0].duration()), 0.5);
    assert_eq!(secs(&notes[7].duration()), 1.0);
}

#[test]
fn parse_invalid_tokens() {
    assert_eq!(parse("zzz"), Err(ParserError::InvalidToken { from: 0, to: 3 }));
    assert_eq!(parse("  C5x "), Err(ParserError::InvalidToken { from: 2, to: 5 }));
    assert_eq!(parse("BPM:0"), Err(ParserError::InvalidToken { from: 0, to: 5 }));
    assert_eq!(parse("4/0"), Err(ParserError::InvalidToken { from: 0, to: 3 }));
}

#[test]
fn parse_invalid_key_and_mode() {
    assert_eq!(parse("K:D#M"), Err(ParserError::InvalidKey));
    assert_eq!(parse("K:Cq"), Err(ParserError::InvalidMode));
}

#[test]
fn parse_duration_too_fine_overflows() {
    // more than 30 dots cannot be represented exactly
    let token = format!("C/4{}", ".".repeat(31));
    assert_eq!(parse(&token), Err(ParserError::DurationOverflow));
}

#[test]
fn parse_empty_input_is_empty_score() {
    assert_eq!(parse(""), Ok(vec![]));
    assert_eq!(parse("   \n\t  "), Ok(vec![]));
}

#[test]
fn parse_empty_measures_are_valid() {
    assert_eq!(parse("| | |"), Ok(vec![]));
}

#[test]
fn fraction_reduces_to_lowest_terms() {
    assert_eq!(frac(6, 8), Fraction { num: 3, den: 4 });
    assert_eq!(frac(4, 4), Fraction { num: 1, den: 1 });
    assert_eq!(frac(0, 5), Fraction { num: 0, den: 1 });
    assert_eq!(frac(1, 4).checked_add(frac(1, 4)), Some(Fraction { num: 1, den: 2 }));
    assert!(frac(4, 4).eq_value(frac(1, 1)));
    assert!(!frac(3, 4).eq_value(frac(4, 4)));
}

#[test]
fn exponents_of_powers_of_two() {
    assert_eq!(exponent_of(1), Some(0));
    assert_eq!(exponent_of(4), Some(2));
    assert_eq!(exponent_of(1024), Some(10));
    assert_eq!(exponent_of(0), None);
    assert_eq!(exponent_of(3), None);
    assert_eq!(exponent_of(12), None);
}
