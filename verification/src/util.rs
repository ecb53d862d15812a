//! Conversions between bit sequences, numbers and text. Text from outside
//! (program lines, addresses) is rejected with a typed error instead of being
//! coerced.

use vstd::arithmetic::div_mod::lemma_small_mod;
use vstd::arithmetic::power2::*;
use vstd::prelude::*;

use crate::logic::{bit, Word};
use crate::numeric::{bits_of, bits_val, lemma_bits_of_len, lemma_bits_of_val};

verus! {

/// Why a piece of text could not be read as bits.
#[derive(Debug, PartialEq, Eq, Structural, Copy, Clone)]
pub enum ParseError {
    /// The text was empty where at least one binary digit was needed.
    Empty,
    /// The text did not hold exactly sixteen characters.
    WrongLength,
    /// A character other than `0` or `1` appeared.
    BadCharacter,
}

/// Whether `c` is a binary digit.
pub open spec fn is_binary_char(c: char) -> bool {
    c == '0' || c == '1'
}

/// The bit a binary digit denotes.
pub open spec fn char_bit(c: char) -> bit {
    if c == '1' {
        bit::I
    } else {
        bit::O
    }
}

/// Whether every character of `s` is a binary digit.
pub open spec fn all_binary(s: Seq<char>) -> bool {
    forall|i: int| 0 <= i < s.len() ==> is_binary_char(s[i])
}

/// The bits a string of binary digits denotes.
pub open spec fn bits_of_text(s: Seq<char>) -> Seq<bit> {
    Seq::new(s.len(), |i: int| char_bit(s[i]))
}

/// Read a string of binary digits into bits. Fails on an empty string and on
/// any character other than `0` or `1`; never truncates or pads.
pub fn str_to_binary(s: &str) -> (r: Result<Vec<bit>, ParseError>)
    ensures
        r is Ok <==> (s@.len() > 0 && all_binary(s@)),
        r matches Ok(v) ==> v@ == bits_of_text(s@),
        s@.len() == 0 ==> r == Err::<Vec<bit>, ParseError>(ParseError::Empty),
        s@.len() > 0 && !all_binary(s@) ==> r == Err::<Vec<bit>, ParseError>(
            ParseError::BadCharacter,
        ),
{
    let n = s.unicode_len();
    if n == 0 {
        return Err(ParseError::Empty);
    }
    let mut bits: Vec<bit> = Vec::new();
    for i in 0..n
        invariant
            n == s@.len(),
            bits@.len() == i,
            forall|j: int| 0 <= j < i ==> is_binary_char(s@[j]),
            forall|j: int| 0 <= j < i ==> bits@[j] == char_bit(s@[j]),
    {
        let c = s.get_char(i);
        if c == '0' {
            bits.push(bit::O);
        } else if c == '1' {
            bits.push(bit::I);
        } else {
            return Err(ParseError::BadCharacter);
        }
    }
    proof {
        assert(bits@ =~= bits_of_text(s@));
    }
    Ok(bits)
}

impl Word {
    /// Read a word from exactly sixteen binary digits. Fails on any other
    /// length and on any character other than `0` or `1`.
    pub fn from_binary(s: &str) -> (r: Result<Word, ParseError>)
        ensures
            r is Ok <==> (s@.len() == 16 && all_binary(s@)),
            r matches Ok(w) ==> w@ == bits_of_text(s@),
            s@.len() != 16 ==> r == Err::<Word, ParseError>(ParseError::WrongLength),
            s@.len() == 16 && !all_binary(s@) ==> r == Err::<Word, ParseError>(
                ParseError::BadCharacter,
            ),
    {
        let n = s.unicode_len();
        if n != 16 {
            return Err(ParseError::WrongLength);
        }
        let mut out: [bit; 16] = [bit::O; 16];
        for i in 0..16
            invariant
                s@.len() == 16,
                out@.len() == 16,
                forall|j: int| 0 <= j < i ==> is_binary_char(s@[j]),
                forall|j: int| 0 <= j < i ==> out@[j] == char_bit(s@[j]),
        {
            let c = s.get_char(i);
            if c == '0' {
                out[i] = bit::O;
            } else if c == '1' {
                out[i] = bit::I;
            } else {
                return Err(ParseError::BadCharacter);
            }
        }
        let w = Word(out);
        proof {
            assert(w@ =~= bits_of_text(s@));
        }
        Ok(w)
    }

    /// The word's unsigned numeric value.
    pub fn value(&self) -> (r: u16)
        ensures
            r == bits_val(self@),
    {
        let mut acc: u16 = 0;
        proof {
            lemma2_to64();
            assert(self@.subrange(0, 0).len() == 0);
        }
        for i in 0..16
            invariant
                self@.len() == 16,
                acc == bits_val(self@.subrange(0, i as int)),
                acc < pow2(i as nat),
        {
            proof {
                assert(self@.subrange(0, i + 1).drop_last() =~= self@.subrange(0, i as int));
                assert(self@.subrange(0, i + 1).last() == self@[i as int]);
                lemma_pow2_unfold((i + 1) as nat);
                if i < 15 {
                    lemma_pow2_strictly_increases(i as nat, 15);
                }
                lemma2_to64();
            }
            acc = 2 * acc + (if self.0[i] == (bit::I) {
                1
            } else {
                0
            });
        }
        proof {
            assert(self@.subrange(0, 16) =~= self@);
        }
        acc
    }

    /// The word whose unsigned numeric value is `v`.
    pub fn from_value(v: u16) -> (w: Word)
        ensures
            w@ == bits_of(v as nat, 16),
            bits_val(w@) == v,
    {
        let mut out: [bit; 16] = [bit::O; 16];
        let mut x: u16 = v;
        for k in 0..16
            invariant
                out@.len() == 16,
                bits_of(v as nat, 16) == bits_of(x as nat, (16 - k) as nat) + out@.subrange(
                    16 - k,
                    16,
                ),
        {
            let idx = 15 - k;
            let ghost before = out@;
            out[idx] = if x % 2 == 1 {
                bit::I
            } else {
                bit::O
            };
            proof {
                let m = (16 - k) as nat;
                assert(bits_of(x as nat, m) == bits_of((x as nat) / 2, (m - 1) as nat).push(
                    if (x as nat) % 2 == 1 {
                        bit::I
                    } else {
                        bit::O
                    },
                ));
                lemma_bits_of_len((x as nat) / 2, (m - 1) as nat);
                assert(bits_of((x as nat) / 2, (m - 1) as nat) + out@.subrange(16 - k - 1, 16)
                    =~= bits_of(x as nat, m) + before.subrange(16 - k, 16));
            }
            x = x / 2;
        }
        let w = Word(out);
        proof {
            assert(bits_of(0 as nat, 0).len() == 0);
            assert(w@ =~= out@.subrange(0, 16));
            assert(bits_of(v as nat, 16) =~= out@.subrange(0, 16));
            lemma_bits_of_val(v as nat, 16);
            lemma2_to64();
            lemma_small_mod(v as nat, pow2(16));
        }
        w
    }
}

/// Read a whole program, one word per line. Fails on the first malformed
/// line with its index and the reason; no partial program is returned.
pub fn parse_program(lines: &Vec<String>) -> (r: Result<Vec<Word>, (usize, ParseError)>)
    ensures
        r is Ok <==> (forall|i: int|
            0 <= i < lines@.len() ==> (#[trigger] lines@[i])@.len() == 16 && all_binary(
                lines@[i]@,
            )),
        r matches Ok(v) ==> {
            &&& v@.len() == lines@.len()
            &&& forall|i: int|
                0 <= i < lines@.len() ==> (#[trigger] v@[i])@ == bits_of_text(lines@[i]@)
        },
        r matches Err((ln, e)) ==> {
            &&& ln < lines@.len()
            &&& !(lines@[ln as int]@.len() == 16 && all_binary(lines@[ln as int]@))
            &&& (lines@[ln as int]@.len() != 16 ==> e == ParseError::WrongLength)
            &&& (lines@[ln as int]@.len() == 16 && !all_binary(lines@[ln as int]@) ==> e
                == ParseError::BadCharacter)
            &&& forall|j: int|
                0 <= j < ln ==> (#[trigger] lines@[j])@.len() == 16 && all_binary(lines@[j]@)
        },
{
    let mut words: Vec<Word> = Vec::new();
    let n = lines.len();
    for i in 0..n
        invariant
            n == lines@.len(),
            words@.len() == i,
            forall|j: int|
                0 <= j < i ==> (#[trigger] lines@[j])@.len() == 16 && all_binary(lines@[j]@),
            forall|j: int| 0 <= j < i ==> (#[trigger] words@[j])@ == bits_of_text(lines@[j]@),
    {
        match Word::from_binary(lines[i].as_str()) {
            Ok(w) => {
                words.push(w);
            },
            Err(e) => {
                return Err((i, e));
            },
        }
    }
    Ok(words)
}

} // verus!
