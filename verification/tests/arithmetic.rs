use minstrel::ArithmeticError;
use minstrel::Note;

#[test]
fn transposition() {
    assert_eq!(Note::new(10).transpose_up(5).unwrap(), Note::new(15));
    assert_eq!(Note::new(42).transpose_up(12).unwrap(), Note::new(54));
    assert_eq!(Note::new(10).transpose_down(5).unwrap(), Note::new(5));
    assert_eq!(Note::new(42).transpose_down(12).unwrap(), Note::new(30));
}

#[test]
fn transposition_round_trip() {
    let note = Note::new(30);
    let up = note.transpose_up(7).unwrap();
    assert_eq!(up.transpose_down(7).unwrap(), note);
}

#[test]
fn transposition_errors() {
    assert_eq!(Note::new(5).transpose_down(6), Err(ArithmeticError::Underflow));
    assert_eq!(
        Note::new(usize::MAX).transpose_up(1),
        Err(ArithmeticError::Overflow)
    );
    assert_eq!(Note::new(5).transpose_down(5).unwrap(), Note::new(0));
    assert_eq!(
        Note::new(usize::MAX).transpose_up(0).unwrap(),
        Note::new(usize::MAX)
    );
}

#[test]
fn interval_calculation() {
    assert_eq!(Note::new(10).interval(Note::new(5)), 5);
    assert_eq!(Note::new(21).interval(Note::new(27)), 6);
    assert_eq!(Note::new(37).interval(Note::new(37)), 0);
}

#[test]
fn interval_is_symmetric() {
    assert_eq!(
        Note::new(21).interval(Note::new(27)),
        Note::new(27).interval(Note::new(21))
    );
}

#[test]
fn pitch_class_reduction() {
    assert_eq!(Note::new(53).disregard_octave(), Note::new(5));
    assert_eq!(Note::new(68).disregard_octave(), Note::new(8));
    assert_eq!(Note::new(11).disregard_octave(), Note::new(11));
    assert_eq!(Note::new(12).disregard_octave(), Note::new(0));
    assert!(Note::new(usize::MAX).disregard_octave().value < 12);
}

#[test]
fn enumeration() {
    let mut iter = Note::new(5).into_iter();
    let mut last = Note::new(0);
    for _ in 0..13 {
        last = iter.next().unwrap();
    }
    assert_eq!(last, Note::new(17));
}

#[test]
fn enumeration_starts_at_origin() {
    let mut iter = Note::new(5).into_iter();
    assert_eq!(iter.next().unwrap(), Note::new(5));
    assert_eq!(iter.next().unwrap(), Note::new(6));
}

#[test]
fn enumeration_stops_at_range_end() {
    let mut iter = Note::new(usize::MAX).into_iter();
    assert_eq!(iter.next().unwrap(), Note::new(usize::MAX));
    assert_eq!(iter.next(), None);
    assert_eq!(iter.next(), None);
}
