use minstrel::Note;
use minstrel::ParseError;

#[test]
fn parsing() {
    assert_eq!(Note::parse("C0").unwrap(), Note::new(0));
    assert_eq!(Note::parse("Db3").unwrap(), Note::new(37));
    assert_eq!(Note::parse("Bb10").unwrap(), Note::new(130));
    assert_eq!(Note::parse("Ab").unwrap(), Note::new(8));

    assert!(Note::parse("Cb2").is_err()); // Invalid note name
    assert!(Note::parse("Gb-2").is_err()); // Invalid octave number
}

#[test]
fn parse_error_kinds() {
    assert_eq!(Note::parse("Cb2"), Err(ParseError::InvalidName));
    assert_eq!(Note::parse("Gb-2"), Err(ParseError::InvalidOctave));
    assert_eq!(Note::parse(""), Err(ParseError::InvalidName));
    assert_eq!(Note::parse("Hb3"), Err(ParseError::InvalidName));
    assert_eq!(Note::parse("x3"), Err(ParseError::InvalidName));
    assert_eq!(Note::parse("C1x"), Err(ParseError::InvalidOctave));
    assert_eq!(Note::parse("Db 4"), Err(ParseError::InvalidOctave));
}

#[test]
fn parse_octave_defaults_to_zero() {
    assert_eq!(Note::parse("C").unwrap(), Note::new(0));
    assert_eq!(Note::parse("Bb").unwrap(), Note::new(10));
    assert_eq!(Note::parse("B").unwrap(), Note::new(11));
}

#[test]
fn parse_accepts_leading_zeros() {
    assert_eq!(Note::parse("C007").unwrap(), Note::new(84));
    assert_eq!(Note::parse("Db0").unwrap(), Note::new(1));
}

#[test]
fn parse_rejects_huge_octave() {
    assert_eq!(
        Note::parse("C99999999999999999999999999999"),
        Err(ParseError::InvalidOctave)
    );
}

#[test]
fn normal() {
    assert_eq!(Note::new(0).to_string(), "C");
    assert_eq!(Note::new(37).to_string(), "Db");
    assert_eq!(Note::new(76).to_string(), "E");
}

#[test]
fn alternate() {
    assert_eq!(Note::new(0).to_string_with_octave(), "C0");
    assert_eq!(Note::new(37).to_string_with_octave(), "Db3");
    assert_eq!(Note::new(76).to_string_with_octave(), "E6");
}

#[test]
fn render_all_pitch_classes() {
    let names = vec!["C", "Db", "D", "Eb", "E", "F", "Gb", "G", "Ab", "A", "Bb", "B"];
    for (pc, name) in names.iter().enumerate() {
        assert_eq!(Note::new(pc).to_string(), *name);
    }
}

#[test]
fn render_then_parse_round_trip() {
    for value in [0, 1, 8, 11, 12, 37, 76, 130, 1000, usize::MAX] {
        let text = Note::new(value).to_string_with_octave();
        assert_eq!(Note::parse(&text).unwrap(), Note::new(value));
    }
}
