//! The textual notation for notes: the grammar `<Name><Octave?>`, where
//! `<Name>` is one of the twelve flat-preferring pitch-class names
//! `C, Db, D, Eb, E, F, Gb, G, Ab, A, Bb, B` and `<Octave>` is either
//! empty (octave 0) or a run of decimal digits. Parsing reads this
//! grammar, rendering writes it; both are specified against the same
//! spec-level model, so that a render-then-parse round trip is provable.

use vstd::prelude::*;

use crate::note::Note;

verus! {

/// A failed parse of a note's textual notation.
#[derive(Debug, PartialEq, Eq, Structural, Clone, Copy)]
pub enum ParseError {
    /// The leading run of letters is not one of the twelve note names.
    InvalidName,
    /// The text after the note name is not a run of decimal digits, or
    /// denotes a value too large to represent.
    InvalidOctave,
}

/// Whether `c` is an ASCII letter. The note name of a text is its
/// maximal leading run of letters.
pub open spec fn is_letter(c: char) -> bool {
    ('A' as u32 <= c as u32 && c as u32 <= 'Z' as u32)
    || ('a' as u32 <= c as u32 && c as u32 <= 'z' as u32)
}

/// Whether `c` is a decimal digit.
pub open spec fn is_digit(c: char) -> bool {
    '0' as u32 <= c as u32 && c as u32 <= '9' as u32
}

/// The numeric value of a digit character (0 for a non-digit).
pub open spec fn digit_of(c: char) -> int {
    if is_digit(c) {
        c as u32 - '0' as u32
    } else {
        0
    }
}

/// The digit character for a value between 0 and 9.
pub open spec fn digit_char(d: int) -> char
    recommends
        0 <= d < 10,
{
    if d == 0 {
        '0'
    } else if d == 1 {
        '1'
    } else if d == 2 {
        '2'
    } else if d == 3 {
        '3'
    } else if d == 4 {
        '4'
    } else if d == 5 {
        '5'
    } else if d == 6 {
        '6'
    } else if d == 7 {
        '7'
    } else if d == 8 {
        '8'
    } else {
        '9'
    }
}

/// Whether every character of `s` is a decimal digit. An empty `s`
/// qualifies: an absent octave denotes octave 0.
pub open spec fn all_digits(s: Seq<char>) -> bool {
    forall|i: int| 0 <= i < s.len() ==> is_digit(#[trigger] s[i])
}

/// The value of a run of decimal digits, most significant first.
pub open spec fn digits_val(s: Seq<char>) -> int
    decreases s.len(),
{
    if s.len() == 0 {
        0
    } else {
        digits_val(s.drop_last()) * 10 + digit_of(s.last())
    }
}

/// The decimal representation of a non-negative integer: no sign, no
/// leading zero except for the single digit of 0 itself.
pub open spec fn dec_rep(n: int) -> Seq<char>
    recommends
        n >= 0,
    decreases n,
{
    if n < 10 {
        seq![digit_char(n)]
    } else {
        dec_rep(n / 10).push(digit_char(n % 10))
    }
}

/// The length of the maximal leading run of letters in `s`: the part of
/// the text that must spell a note name.
pub open spec fn letter_run_len(s: Seq<char>) -> int
    decreases s.len(),
{
    if s.len() == 0 || !is_letter(s[0]) {
        0
    } else {
        1 + letter_run_len(s.skip(1))
    }
}

/// The canonical name of the pitch class `pc`: flats only, never sharps.
pub open spec fn name_of_pc(pc: int) -> Seq<char>
    recommends
        0 <= pc < 12,
{
    if pc == 0 {
        seq!['C']
    } else if pc == 1 {
        seq!['D', 'b']
    } else if pc == 2 {
        seq!['D']
    } else if pc == 3 {
        seq!['E', 'b']
    } else if pc == 4 {
        seq!['E']
    } else if pc == 5 {
        seq!['F']
    } else if pc == 6 {
        seq!['G', 'b']
    } else if pc == 7 {
        seq!['G']
    } else if pc == 8 {
        seq!['A', 'b']
    } else if pc == 9 {
        seq!['A']
    } else if pc == 10 {
        seq!['B', 'b']
    } else {
        seq!['B']
    }
}

/// The pitch class a name spells, or `None` when the text is not exactly
/// one of the twelve canonical names.
pub open spec fn pc_of_name(s: Seq<char>) -> Option<int> {
    if s == seq!['C'] {
        Some(0int)
    } else if s == seq!['D', 'b'] {
        Some(1int)
    } else if s == seq!['D'] {
        Some(2int)
    } else if s == seq!['E', 'b'] {
        Some(3int)
    } else if s == seq!['E'] {
        Some(4int)
    } else if s == seq!['F'] {
        Some(5int)
    } else if s == seq!['G', 'b'] {
        Some(6int)
    } else if s == seq!['G'] {
        Some(7int)
    } else if s == seq!['A', 'b'] {
        Some(8int)
    } else if s == seq!['A'] {
        Some(9int)
    } else if s == seq!['B', 'b'] {
        Some(10int)
    } else if s == seq!['B'] {
        Some(11int)
    } else {
        None
    }
}

/// What parsing a text yields. The maximal leading run of letters must be
/// one of the twelve names (else `InvalidName`); the remainder must be
/// empty or a run of decimal digits giving the octave (else
/// `InvalidOctave`, which also covers a value too large to represent);
/// the note's value is `pitch class + 12 * octave`.
pub open spec fn spec_parse(s: Seq<char>) -> Result<Note, ParseError> {
    match pc_of_name(s.take(letter_run_len(s))) {
        None => Err(ParseError::InvalidName),
        Some(pc) => {
            let rest = s.skip(letter_run_len(s));
            if !all_digits(rest) {
                Err(ParseError::InvalidOctave)
            } else if pc + 12 * digits_val(rest) > usize::MAX {
                Err(ParseError::InvalidOctave)
            } else {
                Ok(Note { value: (pc + 12 * digits_val(rest)) as usize })
            }
        },
    }
}

/// What rendering a note yields: the name of its pitch class, followed,
/// when `with_octave` is set, by the decimal octave.
pub open spec fn spec_render(n: Note, with_octave: bool) -> Seq<char> {
    if with_octave {
        name_of_pc(n.value as int % 12) + dec_rep(n.value as int / 12)
    } else {
        name_of_pc(n.value as int % 12)
    }
}

impl Note {
    /// Renders the name of this note's pitch class alone, dropping the
    /// octave: `Note::new(37).to_string()` is `"Db"`.
    pub fn to_string(&self) -> (r: String)
        ensures
            r@ == spec_render(*self, false),
    {
        let pc: usize = self.value % 12;
        let name: &str = if pc == 0 {
            "C"
        } else if pc == 1 {
            "Db"
        } else if pc == 2 {
            "D"
        } else if pc == 3 {
            "Eb"
        } else if pc == 4 {
            "E"
        } else if pc == 5 {
            "F"
        } else if pc == 6 {
            "Gb"
        } else if pc == 7 {
            "G"
        } else if pc == 8 {
            "Ab"
        } else if pc == 9 {
            "A"
        } else if pc == 10 {
            "Bb"
        } else {
            "B"
        };
        proof {
            reveal_strlit("C");
            reveal_strlit("Db");
            reveal_strlit("D");
            reveal_strlit("Eb");
            reveal_strlit("E");
            reveal_strlit("F");
            reveal_strlit("Gb");
            reveal_strlit("G");
            reveal_strlit("Ab");
            reveal_strlit("A");
            reveal_strlit("Bb");
            reveal_strlit("B");
            assert(name@ =~= name_of_pc(self.value as int % 12));
        }
        name.to_owned()
    }

    /// Renders this note with its octave appended to the pitch-class
    /// name: `Note::new(37).to_string_with_octave()` is `"Db3"`. This is
    /// the rendering that parsing inverts exactly.
    pub fn to_string_with_octave(&self) -> (r: String)
        ensures
            r@ == spec_render(*self, true),
    {
        let mut out = self.to_string();
        push_decimal(&mut out, self.value / 12);
        out
    }
}

/// A digit run's value is never negative.
proof fn lemma_digits_val_nonneg(s: Seq<char>)
    ensures
        digits_val(s) >= 0,
    decreases s.len(),
{
    if s.len() > 0 {
        lemma_digits_val_nonneg(s.drop_last());
    }
}

/// Extending a digit run can only increase its value.
proof fn lemma_digits_val_prefix(s: Seq<char>, k: int)
    requires
        0 <= k <= s.len(),
    ensures
        digits_val(s.take(k)) <= digits_val(s),
    decreases s.len(),
{
    if k == s.len() {
        assert(s.take(k) =~= s);
    } else {
        lemma_digits_val_nonneg(s.drop_last());
        lemma_digits_val_prefix(s.drop_last(), k);
        assert(s.drop_last().take(k) =~= s.take(k));
    }
}

/// One more digit multiplies the run's value by ten and adds the digit.
proof fn lemma_digits_val_extend(s: Seq<char>, n: int, i: int)
    requires
        0 <= n <= i < s.len(),
    ensures
        digits_val(s.subrange(n, i + 1)) == digits_val(s.subrange(n, i)) * 10 + digit_of(s[i]),
{
    assert(s.subrange(n, i + 1).drop_last() =~= s.subrange(n, i));
    assert(s.subrange(n, i + 1).last() == s[i]);
}

/// A digit run whose prefix already exceeds the representable range
/// exceeds it as a whole.
proof fn lemma_octave_too_big(s: Seq<char>, n: int, i: int)
    requires
        0 <= n <= i < s.len(),
        digits_val(s.subrange(n, i + 1)) > usize::MAX,
    ensures
        digits_val(s.skip(n)) > usize::MAX,
{
    let t = s.skip(n);
    assert(t.take(i + 1 - n) =~= s.subrange(n, i + 1));
    lemma_digits_val_prefix(t, i + 1 - n);
}

/// `letter_run_len` is pinned by its two defining facts: every character
/// before the run's end is a letter, and the run ends at the text's end
/// or at a non-letter.
proof fn lemma_letter_run_len_at(s: Seq<char>, n: int)
    requires
        0 <= n <= s.len(),
        forall|j: int| 0 <= j < n ==> is_letter(#[trigger] s[j]),
        n == s.len() || !is_letter(s[n]),
    ensures
        letter_run_len(s) == n,
    decreases s.len(),
{
    if n > 0 {
        let t = s.skip(1);
        assert forall|j: int| 0 <= j < n - 1 implies is_letter(#[trigger] t[j]) by {
            assert(t[j] == s[j + 1]);
        }
        assert(n - 1 == t.len() || !is_letter(t[n - 1]));
        lemma_letter_run_len_at(t, n - 1);
    }
}

/// `pc_of_name` on a one-character name, spelled out per character.
proof fn lemma_pc_of_name_single(c: char)
    ensures
        pc_of_name(seq![c]) == (if c == 'C' {
            Some(0int)
        } else if c == 'D' {
            Some(2int)
        } else if c == 'E' {
            Some(4int)
        } else if c == 'F' {
            Some(5int)
        } else if c == 'G' {
            Some(7int)
        } else if c == 'A' {
            Some(9int)
        } else if c == 'B' {
            Some(11int)
        } else {
            None
        }),
{
    assert(seq![c].len() == 1);
    assert(seq![c][0] == c);
    assert(seq!['C'][0] == 'C' && seq!['D'][0] == 'D' && seq!['E'][0] == 'E');
    assert(seq!['F'][0] == 'F' && seq!['G'][0] == 'G' && seq!['A'][0] == 'A');
    assert(seq!['B'][0] == 'B');
    assert(seq!['D', 'b'].len() == 2 && seq!['E', 'b'].len() == 2 && seq!['G', 'b'].len() == 2);
    assert(seq!['A', 'b'].len() == 2 && seq!['B', 'b'].len() == 2);
    if c == 'C' {
        assert(seq![c] =~= seq!['C']);
    } else if c == 'D' {
        assert(seq![c] =~= seq!['D']);
    } else if c == 'E' {
        assert(seq![c] =~= seq!['E']);
    } else if c == 'F' {
        assert(seq![c] =~= seq!['F']);
    } else if c == 'G' {
        assert(seq![c] =~= seq!['G']);
    } else if c == 'A' {
        assert(seq![c] =~= seq!['A']);
    } else if c == 'B' {
        assert(seq![c] =~= seq!['B']);
    }
}

/// `pc_of_name` on a two-character name, spelled out per character.
proof fn lemma_pc_of_name_pair(c0: char, c1: char)
    ensures
        pc_of_name(seq![c0, c1]) == (if c1 == 'b' && c0 == 'D' {
            Some(1int)
        } else if c1 == 'b' && c0 == 'E' {
            Some(3int)
        } else if c1 == 'b' && c0 == 'G' {
            Some(6int)
        } else if c1 == 'b' && c0 == 'A' {
            Some(8int)
        } else if c1 == 'b' && c0 == 'B' {
            Some(10int)
        } else {
            None
        }),
{
    assert(seq![c0, c1].len() == 2);
    assert(seq![c0, c1][0] == c0 && seq![c0, c1][1] == c1);
    assert(seq!['C'].len() == 1 && seq!['D'].len() == 1 && seq!['E'].len() == 1);
    assert(seq!['F'].len() == 1 && seq!['G'].len() == 1 && seq!['A'].len() == 1);
    assert(seq!['B'].len() == 1);
    assert(seq!['D', 'b'][0] == 'D' && seq!['D', 'b'][1] == 'b');
    assert(seq!['E', 'b'][0] == 'E' && seq!['E', 'b'][1] == 'b');
    assert(seq!['G', 'b'][0] == 'G' && seq!['G', 'b'][1] == 'b');
    assert(seq!['A', 'b'][0] == 'A' && seq!['A', 'b'][1] == 'b');
    assert(seq!['B', 'b'][0] == 'B' && seq!['B', 'b'][1] == 'b');
    if c1 == 'b' && c0 == 'D' {
        assert(seq![c0, c1] =~= seq!['D', 'b']);
    } else if c1 == 'b' && c0 == 'E' {
        assert(seq![c0, c1] =~= seq!['E', 'b']);
    } else if c1 == 'b' && c0 == 'G' {
        assert(seq![c0, c1] =~= seq!['G', 'b']);
    } else if c1 == 'b' && c0 == 'A' {
        assert(seq![c0, c1] =~= seq!['A', 'b']);
    } else if c1 == 'b' && c0 == 'B' {
        assert(seq![c0, c1] =~= seq!['B', 'b']);
    }
}

/// Every note name has one or two characters, so any other length spells
/// no name.
proof fn lemma_pc_of_name_len(s: Seq<char>)
    requires
        s.len() != 1,
        s.len() != 2,
    ensures
        pc_of_name(s) is None,
{
    assert(seq!['C'].len() == 1 && seq!['D'].len() == 1 && seq!['E'].len() == 1);
    assert(seq!['F'].len() == 1 && seq!['G'].len() == 1 && seq!['A'].len() == 1);
    assert(seq!['B'].len() == 1);
    assert(seq!['D', 'b'].len() == 2 && seq!['E', 'b'].len() == 2 && seq!['G', 'b'].len() == 2);
    assert(seq!['A', 'b'].len() == 2 && seq!['B', 'b'].len() == 2);
}

/// Whether `c` is an ASCII letter.
fn letter_char(c: char) -> (r: bool)
    ensures
        r == is_letter(c),
{
    let u: u32 = c as u32;
    (65 <= u && u <= 90) || (97 <= u && u <= 122)
}

/// Maps a run of `n` leading characters of `s` to the pitch class it
/// names, or `None` when it is not one of the twelve names.
fn lookup_name(s: &str, n: usize) -> (r: Option<usize>)
    requires
        n as int <= s@.len(),
    ensures
        match r {
            Some(pc) => pc < 12 && pc_of_name(s@.take(n as int)) == Some(pc as int),
            None => pc_of_name(s@.take(n as int)) is None,
        },
{
    if n == 1 {
        let c = s.get_char(0);
        proof {
            assert(s@.take(1int) =~= seq![c]);
            lemma_pc_of_name_single(c);
        }
        if c == 'C' {
            Some(0)
        } else if c == 'D' {
            Some(2)
        } else if c == 'E' {
            Some(4)
        } else if c == 'F' {
            Some(5)
        } else if c == 'G' {
            Some(7)
        } else if c == 'A' {
            Some(9)
        } else if c == 'B' {
            Some(11)
        } else {
            None
        }
    } else if n == 2 {
        let c0 = s.get_char(0);
        let c1 = s.get_char(1);
        proof {
            assert(s@.take(2int) =~= seq![c0, c1]);
            lemma_pc_of_name_pair(c0, c1);
        }
        if c1 == 'b' {
            if c0 == 'D' {
                Some(1)
            } else if c0 == 'E' {
                Some(3)
            } else if c0 == 'G' {
                Some(6)
            } else if c0 == 'A' {
                Some(8)
            } else if c0 == 'B' {
                Some(10)
            } else {
                None
            }
        } else {
            None
        }
    } else {
        proof {
            lemma_pc_of_name_len(s@.take(n as int));
        }
        None
    }
}

impl Note {
    /// Parses the textual notation of a note: one of the twelve
    /// pitch-class names, optionally followed by a decimal octave.
    /// `parse("Db3")` yields `Note::new(37)`; a text whose leading run of
    /// letters names no pitch class is an `InvalidName`, and one whose
    /// remainder is not a plain digit run (or denotes a value too large
    /// to represent) is an `InvalidOctave`.
    pub fn parse(s: &str) -> (r: Result<Note, ParseError>)
        ensures
            r == spec_parse(s@),
    {
        let len: usize = s.unicode_len();
        let mut n: usize = 0;
        while n < len && letter_char(s.get_char(n))
            invariant
                0 <= n <= len,
                len == s@.len(),
                forall|j: int| 0 <= j < n ==> is_letter(#[trigger] s@[j]),
            decreases len - n,
        {
            n = n + 1;
        }
        proof {
            lemma_letter_run_len_at(s@, n as int);
        }
        let pc: usize = match lookup_name(s, n) {
            Some(pc) => pc,
            None => {
                return Err(ParseError::InvalidName);
            },
        };
        let mut oct: usize = 0;
        let mut i: usize = n;
        while i < len
            invariant
                n <= i <= len,
                len == s@.len(),
                pc < 12,
                letter_run_len(s@) == n as int,
                pc_of_name(s@.take(n as int)) == Some(pc as int),
                forall|j: int| n <= j < i ==> is_digit(#[trigger] s@[j]),
                oct as int == digits_val(s@.subrange(n as int, i as int)),
            decreases len - i,
        {
            let c = s.get_char(i);
            let u: u32 = c as u32;
            if u < 48 || u > 57 {
                proof {
                    assert(s@.skip(n as int)[i - n] == s@[i as int]);
                    assert(!all_digits(s@.skip(n as int)));
                }
                return Err(ParseError::InvalidOctave);
            }
            let d: usize = (u - 48) as usize;
            proof {
                lemma_digits_val_extend(s@, n as int, i as int);
            }
            let oct10: usize = match oct.checked_mul(10) {
                Some(v) => v,
                None => {
                    proof {
                        lemma_octave_too_big(s@, n as int, i as int);
                    }
                    return Err(ParseError::InvalidOctave);
                },
            };
            oct = match oct10.checked_add(d) {
                Some(v) => v,
                None => {
                    proof {
                        lemma_octave_too_big(s@, n as int, i as int);
                    }
                    return Err(ParseError::InvalidOctave);
                },
            };
            i = i + 1;
        }
        proof {
            assert(s@.skip(n as int) =~= s@.subrange(n as int, len as int));
            assert forall|k: int| 0 <= k < s@.skip(n as int).len() implies is_digit(
                #[trigger] s@.skip(n as int)[k],
            ) by {
                assert(s@.skip(n as int)[k] == s@[k + n]);
            }
        }
        let big: usize = match oct.checked_mul(12) {
            Some(v) => v,
            None => {
                return Err(ParseError::InvalidOctave);
            },
        };
        match big.checked_add(pc) {
            Some(v) => Ok(Note { value: v }),
            None => Err(ParseError::InvalidOctave),
        }
    }
}

/// Appends the decimal representation of `n` to `out`.
fn push_decimal(out: &mut String, n: usize)
    ensures
        final(out)@ == old(out)@ + dec_rep(n as int),
    decreases n,
{
    if n >= 10 {
        push_decimal(out, n / 10);
    }
    let d: usize = n % 10;
    let ds: &str = if d == 0 {
        "0"
    } else if d == 1 {
        "1"
    } else if d == 2 {
        "2"
    } else if d == 3 {
        "3"
    } else if d == 4 {
        "4"
    } else if d == 5 {
        "5"
    } else if d == 6 {
        "6"
    } else if d == 7 {
        "7"
    } else if d == 8 {
        "8"
    } else {
        "9"
    };
    proof {
        reveal_strlit("0");
        reveal_strlit("1");
        reveal_strlit("2");
        reveal_strlit("3");
        reveal_strlit("4");
        reveal_strlit("5");
        reveal_strlit("6");
        reveal_strlit("7");
        reveal_strlit("8");
        reveal_strlit("9");
        assert(ds@ =~= seq![digit_char(n as int % 10)]);
    }
    out.append(ds);
    proof {
        if n < 10 {
            assert(dec_rep(n as int) =~= seq![digit_char(n as int % 10)]);
        } else {
            assert(dec_rep(n as int) =~= dec_rep(n as int / 10) + seq![
                digit_char(n as int % 10),
            ]);
        }
        assert(final(out)@ =~= old(out)@ + dec_rep(n as int));
    }
}

/// Each digit character of the decimal representation really is a digit,
/// and the representation is never empty.
proof fn lemma_dec_rep_digits(n: int)
    requires
        n >= 0,
    ensures
        dec_rep(n).len() >= 1,
        all_digits(dec_rep(n)),
    decreases n,
{
    if n < 10 {
        assert(is_digit(digit_char(n)));
        assert(dec_rep(n) =~= seq![digit_char(n)]);
    } else {
        lemma_dec_rep_digits(n / 10);
        assert(is_digit(digit_char(n % 10)));
        assert forall|j: int| 0 <= j < dec_rep(n).len() implies is_digit(
            #[trigger] dec_rep(n)[j],
        ) by {
            if j < dec_rep(n / 10).len() {
                assert(dec_rep(n)[j] == dec_rep(n / 10)[j]);
            } else {
                assert(dec_rep(n)[j] == digit_char(n % 10));
            }
        }
    }
}

/// Reading the decimal representation of `n` back as a digit run yields
/// `n` again.
proof fn lemma_dec_rep_val(n: int)
    requires
        n >= 0,
    ensures
        digits_val(dec_rep(n)) == n,
    decreases n,
{
    if n < 10 {
        let s = seq![digit_char(n)];
        assert(s.last() == digit_char(n));
        assert(s.drop_last() =~= Seq::<char>::empty());
        assert(digit_of(digit_char(n)) == n);
        assert(digits_val(s) == digits_val(s.drop_last()) * 10 + digit_of(s.last()));
    } else {
        lemma_dec_rep_val(n / 10);
        let s = dec_rep(n);
        assert(s == dec_rep(n / 10).push(digit_char(n % 10)));
        assert(s.len() == dec_rep(n / 10).len() + 1);
        assert(s.drop_last() =~= dec_rep(n / 10));
        assert(s.last() == digit_char(n % 10));
        assert(digit_of(digit_char(n % 10)) == n % 10);
        vstd::arithmetic::div_mod::lemma_fundamental_div_mod(n, 10);
    }
}

/// Every character of a pitch-class name is a letter, and a name has one
/// or two of them.
proof fn lemma_name_letters(pc: int)
    requires
        0 <= pc < 12,
    ensures
        1 <= name_of_pc(pc).len() <= 2,
        forall|j: int| 0 <= j < name_of_pc(pc).len() ==> is_letter(#[trigger] name_of_pc(pc)[j]),
{
    let nm = name_of_pc(pc);
    assert forall|j: int| 0 <= j < nm.len() implies is_letter(nm[j]) by {
        if j == 0 {
            assert(is_letter(nm[0]));
        } else {
            assert(is_letter(nm[1]));
        }
    }
}

/// Reading a pitch class's canonical name back through the name table
/// yields that pitch class again.
proof fn lemma_name_table(pc: int)
    requires
        0 <= pc < 12,
    ensures
        pc_of_name(name_of_pc(pc)) == Some(pc),
{
    if pc == 0 {
        lemma_pc_of_name_single('C');
        assert(name_of_pc(pc) =~= seq!['C']);
    } else if pc == 1 {
        lemma_pc_of_name_pair('D', 'b');
        assert(name_of_pc(pc) =~= seq!['D', 'b']);
    } else if pc == 2 {
        lemma_pc_of_name_single('D');
        assert(name_of_pc(pc) =~= seq!['D']);
    } else if pc == 3 {
        lemma_pc_of_name_pair('E', 'b');
        assert(name_of_pc(pc) =~= seq!['E', 'b']);
    } else if pc == 4 {
        lemma_pc_of_name_single('E');
        assert(name_of_pc(pc) =~= seq!['E']);
    } else if pc == 5 {
        lemma_pc_of_name_single('F');
        assert(name_of_pc(pc) =~= seq!['F']);
    } else if pc == 6 {
        lemma_pc_of_name_pair('G', 'b');
        assert(name_of_pc(pc) =~= seq!['G', 'b']);
    } else if pc == 7 {
        lemma_pc_of_name_single('G');
        assert(name_of_pc(pc) =~= seq!['G']);
    } else if pc == 8 {
        lemma_pc_of_name_pair('A', 'b');
        assert(name_of_pc(pc) =~= seq!['A', 'b']);
    } else if pc == 9 {
        lemma_pc_of_name_single('A');
        assert(name_of_pc(pc) =~= seq!['A']);
    } else if pc == 10 {
        lemma_pc_of_name_pair('B', 'b');
        assert(name_of_pc(pc) =~= seq!['B', 'b']);
    } else {
        lemma_pc_of_name_single('B');
        assert(name_of_pc(pc) =~= seq!['B']);
    }
}

/// Rendering a note with its octave included and then parsing the text
/// yields exactly the original note, whatever its value.
pub proof fn lemma_parse_render_round_trip(n: Note)
    ensures
        spec_parse(spec_render(n, true)) == Ok::<Note, ParseError>(n),
{
    let pc = n.value as int % 12;
    let oct = n.value as int / 12;
    let name = name_of_pc(pc);
    let digits = dec_rep(oct);
    let s = name + digits;
    assert(s == spec_render(n, true));
    lemma_name_letters(pc);
    lemma_dec_rep_digits(oct);
    assert forall|j: int| 0 <= j < name.len() implies is_letter(#[trigger] s[j]) by {
        assert(s[j] == name[j]);
    }
    assert(s[name.len() as int] == digits[0]);
    assert(is_digit(digits[0]));
    assert(!is_letter(s[name.len() as int]));
    lemma_letter_run_len_at(s, name.len() as int);
    assert(s.take(name.len() as int) =~= name);
    assert(s.skip(name.len() as int) =~= digits);
    lemma_name_table(pc);
    lemma_dec_rep_val(oct);
    vstd::arithmetic::div_mod::lemma_fundamental_div_mod(n.value as int, 12);
}

} // verus!
