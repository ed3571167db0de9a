//! Conversions between the 26 uppercase letters and their indices.
use vstd::prelude::*;

verus! {

/// Whether `c` is one of `'A'..='Z'`.
pub open spec fn is_letter(c: char) -> bool {
    'A' <= c && c <= 'Z'
}

/// The 0-based index of an uppercase letter.
pub open spec fn index_of(c: char) -> int {
    c as int - 65
}

/// The letter with index `i` (taken modulo 26).
pub open spec fn letter_at(i: int) -> char {
    ((i % 26) + 65) as char
}

/// Index and letter are inverse on the alphabet.
pub proof fn lemma_letter_index(c: char, i: int)
    ensures
        is_letter(c) ==> 0 <= index_of(c) < 26 && letter_at(index_of(c)) == c,
        0 <= i < 26 ==> is_letter(letter_at(i)) && index_of(letter_at(i)) == i,
{
}

pub struct Alphabet;

impl Alphabet {
    /// `'A'` is 0, ..., `'Z'` is 25.
    pub fn char_to_index(c: char) -> (r: usize)
        requires
            is_letter(c),
        ensures
            r == index_of(c),
            r < 26,
    {
        (c as u32 - 65) as usize
    }

    /// The letter at `index % 26`.
    pub fn index_to_char(index: usize) -> (r: char)
        ensures
            r == letter_at(index as int),
            is_letter(r),
    {
        ((index % 26) as u8 + 65) as char
    }
}

} // verus!
