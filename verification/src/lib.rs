//! A verified model of a musical pitch.
//!
//! A [`Note`] is a non-negative semitone index: 0 is C0, 1 is Db0, and each
//! successive integer is one semitone higher. The crate offers parsing from
//! and rendering to the flat-preferring textual notation (`C`, `Db`, ...,
//! `B`, optionally followed by a decimal octave), transposition, interval
//! computation, and ascending enumeration, each with a proved contract.

pub mod note;
pub mod text;

pub use note::ArithmeticError;
pub use note::Note;
pub use note::NoteIter;
pub use text::ParseError;
