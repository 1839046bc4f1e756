//! The pitch value type and its arithmetic: construction, pitch-class
//! reduction, transposition, intervals, and ascending enumeration.

use vstd::prelude::*;

verus! {

/// A musical pitch, represented as a single non-negative semitone index
/// (its `value`). A `value` of 0 is C0, 1 is Db0, 12 is C1, and so on:
/// the pitch class is `value % 12` and the octave is `value / 12`.
#[derive(Debug, PartialEq, Eq, Structural, Clone, Copy)]
pub struct Note {
    pub value: usize,
}

/// A failed transposition: the requested shift would leave the range of
/// representable semitone indices.
#[derive(Debug, PartialEq, Eq, Structural, Clone, Copy)]
pub enum ArithmeticError {
    /// An upward shift would exceed the largest representable index.
    Overflow,
    /// A downward shift would pass below zero.
    Underflow,
}

/// The unsigned semitone distance between two notes: the absolute
/// difference of their values.
pub open spec fn spec_interval(a: Note, b: Note) -> int {
    if a.value >= b.value {
        a.value - b.value
    } else {
        b.value - a.value
    }
}

/// What transposing `n` up by `semitones` yields: the shifted note, or
/// `Overflow` when the new value would not be representable.
pub open spec fn spec_transpose_up(n: Note, semitones: int) -> Result<Note, ArithmeticError> {
    if n.value + semitones <= usize::MAX {
        Ok(Note { value: (n.value + semitones) as usize })
    } else {
        Err(ArithmeticError::Overflow)
    }
}

/// What transposing `n` down by `semitones` yields: the shifted note, or
/// `Underflow` when the shift is larger than the value itself.
pub open spec fn spec_transpose_down(n: Note, semitones: int) -> Result<Note, ArithmeticError> {
    if semitones <= n.value {
        Ok(Note { value: (n.value - semitones) as usize })
    } else {
        Err(ArithmeticError::Underflow)
    }
}

impl Note {
    /// Creates a new `Note` with the given semitone `value`. Every
    /// non-negative integer is a valid semitone index, so nothing is
    /// checked.
    pub fn new(value: usize) -> (r: Self)
        ensures
            r == (Note { value }),
    {
        Note { value }
    }

    /// Returns a new `Note` whose value holds no octave information,
    /// i.e. the pitch class of this note represented in octave 0.
    pub fn disregard_octave(self) -> (r: Self)
        ensures
            r.value == self.value % 12,
            r.value < 12,
    {
        Note { value: self.value % 12 }
    }

    /// Transposes this note up by the given number of semitones, or
    /// reports `Overflow` when the result would not be representable.
    pub fn transpose_up(self, semitones: usize) -> (r: Result<Note, ArithmeticError>)
        ensures
            r == spec_transpose_up(self, semitones as int),
    {
        match self.value.checked_add(semitones) {
            Some(v) => Ok(Note { value: v }),
            None => Err(ArithmeticError::Overflow),
        }
    }

    /// Transposes this note down by the given number of semitones, or
    /// reports `Underflow` when the shift is larger than the note's value.
    pub fn transpose_down(self, semitones: usize) -> (r: Result<Note, ArithmeticError>)
        ensures
            r == spec_transpose_down(self, semitones as int),
    {
        if semitones <= self.value {
            Ok(Note { value: self.value - semitones })
        } else {
            Err(ArithmeticError::Underflow)
        }
    }

    /// The unsigned semitone distance between this note and `other`,
    /// regardless of which of the two is higher.
    pub fn interval(self, other: Note) -> (r: usize)
        ensures
            r as int == spec_interval(self, other),
    {
        if self.value >= other.value {
            self.value - other.value
        } else {
            other.value - self.value
        }
    }
}

/// The interval between two notes does not depend on their order.
pub proof fn lemma_interval_symmetric(a: Note, b: Note)
    ensures
        spec_interval(a, b) == spec_interval(b, a),
{
}

/// The interval between a note and itself is zero.
pub proof fn lemma_interval_identity(n: Note)
    ensures
        spec_interval(n, n) == 0,
{
}

/// Transposing a note up by `k` semitones and then down by `k` semitones
/// returns the original note, whenever the upward shift is representable.
pub proof fn lemma_transpose_round_trip(n: Note, k: usize)
    requires
        n.value + k <= usize::MAX,
    ensures
        spec_transpose_up(n, k as int) == Ok::<Note, ArithmeticError>(
            (Note { value: (n.value + k) as usize }),
        ),
        spec_transpose_down((Note { value: (n.value + k) as usize }), k as int)
            == Ok::<Note, ArithmeticError>(n),
{
}

/// An iterator over an unbounded ascending chromatic run of notes: the
/// first element it yields is the note it was created from, and every
/// further element is one semitone higher than the one before.
pub struct NoteIter {
    note: Note,
    first: bool,
}

impl NoteIter {
    /// The semitone index of the next note this iterator will yield.
    pub closed spec fn upcoming(self) -> int {
        if self.first {
            self.note.value as int
        } else {
            self.note.value + 1
        }
    }

    /// Yields the next note of the run, one semitone above the last one
    /// yielded, or `None` once the next value would not be representable.
    pub fn next(&mut self) -> (r: Option<Note>)
        ensures
            old(self).upcoming() <= usize::MAX ==> {
                &&& r == Some((Note { value: old(self).upcoming() as usize }))
                &&& final(self).upcoming() == old(self).upcoming() + 1
            },
            old(self).upcoming() > usize::MAX ==> {
                &&& r is None
                &&& *final(self) == *old(self)
            },
    {
        if self.first {
            self.first = false;
            Some(self.note)
        } else if self.note.value < usize::MAX {
            self.note.value = self.note.value + 1;
            Some(self.note)
        } else {
            None
        }
    }
}

impl Note {
    /// Begins an unbounded ascending enumeration whose first element is
    /// this very note. The note itself is never changed.
    pub fn into_iter(self) -> (r: NoteIter)
        ensures
            r.upcoming() == self.value as int,
    {
        NoteIter { note: self, first: true }
    }
}

} // verus!
