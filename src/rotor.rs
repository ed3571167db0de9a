//! A rotor: a wired permutation of the alphabet turned by a rotational offset.
use vstd::prelude::*;
use vstd::set_lib::{lemma_int_range, lemma_map_size, lemma_subset_equality, set_int_range};
use crate::alphabet::{is_letter, index_of, letter_at, lemma_letter_index, Alphabet};

verus! {

/// Whether `w` is a permutation of the 26 letters: 26 distinct letters.
pub open spec fn is_wiring(w: Seq<char>) -> bool {
    &&& w.len() == 26
    &&& forall|i: int| 0 <= i < 26 ==> is_letter(#[trigger] w[i])
    &&& forall|i: int, j: int| 0 <= i < 26 && 0 <= j < 26 && i != j ==> w[i] != w[j]
}

/// The abstract state of a rotor.
pub struct RotorModel {
    pub wiring: Seq<char>,
    /// For each letter index, the slot of the wiring that holds that letter.
    pub reverse: Seq<int>,
    pub notch: char,
    pub position: int,
}

impl RotorModel {
    pub open spec fn valid(self) -> bool {
        &&& is_wiring(self.wiring)
        &&& self.reverse.len() == 26
        &&& forall|k: int| 0 <= k < 26 ==> 0 <= #[trigger] self.reverse[k] < 26
        &&& forall|k: int| 0 <= k < 26 ==> self.wiring[#[trigger] self.reverse[k]] == letter_at(k)
        &&& forall|i: int| 0 <= i < 26 ==> self.reverse[index_of(#[trigger] self.wiring[i])] == i
        &&& is_letter(self.notch)
        &&& 0 <= self.position < 26
    }

    /// The letter that leaves the rotor when `c` enters from the right.
    pub open spec fn forward(self, c: char) -> char {
        self.wiring[(index_of(c) + self.position) % 26]
    }

    /// The letter that leaves the rotor when `c` enters from the left.
    pub open spec fn backward(self, c: char) -> char {
        letter_at((self.reverse[index_of(c)] - self.position + 26) % 26)
    }

    /// The same rotor turned to `p`.
    pub open spec fn at(self, p: int) -> RotorModel {
        RotorModel { position: p, ..self }
    }
}

/// Backward substitution undoes forward substitution at the same position,
/// and forward undoes backward.
pub proof fn lemma_rotor_inverse(r: RotorModel, c: char)
    requires
        r.valid(),
        is_letter(c),
    ensures
        is_letter(r.forward(c)),
        is_letter(r.backward(c)),
        r.backward(r.forward(c)) == c,
        r.forward(r.backward(c)) == c,
{
    lemma_letter_index(c, 0);
    let j = (index_of(c) + r.position) % 26;
    let d = r.wiring[j];
    lemma_letter_index(d, 0);
    assert(r.reverse[index_of(d)] == j);
    lemma_letter_index(c, (j - r.position + 26) % 26);
    let k = r.reverse[index_of(c)];
    let e = letter_at((k - r.position + 26) % 26);
    lemma_letter_index(e, (k - r.position + 26) % 26);
    assert(r.wiring[k] == letter_at(index_of(c)));
}

/// A step reports the notch exactly when it moves the rotor from the letter
/// just before its notch onto the notch.
pub proof fn lemma_notch_detection(r: RotorModel)
    requires
        r.valid(),
    ensures
        (letter_at((r.position + 1) % 26) == r.notch) <==> (r.position == (index_of(r.notch) + 25) % 26),
{
    lemma_letter_index(r.notch, (r.position + 1) % 26);
}

pub struct Rotor {
    wiring: Vec<char>,
    reverse_lookup: Vec<usize>,
    notch: char,
    position: usize,
}

impl View for Rotor {
    type V = RotorModel;

    closed spec fn view(&self) -> RotorModel {
        RotorModel {
            wiring: self.wiring@,
            reverse: self.reverse_lookup@.map_values(|u: usize| u as int),
            notch: self.notch,
            position: self.position as int,
        }
    }
}

/// Every letter sits in some slot of a wiring.
proof fn lemma_wiring_onto(w: Seq<char>, k: int)
    requires
        is_wiring(w),
        0 <= k < 26,
    ensures
        exists|i: int| 0 <= i < 26 && #[trigger] w[i] == letter_at(k),
{
    let f = |i: int| index_of(w[i]);
    let x = set_int_range(0, 26);
    let y = x.map(f);
    lemma_int_range(0, 26);
    assert forall|a: int, b: int| x.contains(a) && x.contains(b) && #[trigger] f(a) == #[trigger] f(b)
        implies a == b by {
        if a != b {
            assert(w[a] != w[b]);
            lemma_letter_index(w[a], 0);
            lemma_letter_index(w[b], 0);
        }
    }
    lemma_map_size(x, y, f);
    assert(y.subset_of(x)) by {
        assert forall|v: int| y.contains(v) implies x.contains(v) by {
            let i = choose|i: int| x.contains(i) && f(i) == v;
            assert(is_letter(w[i]));
        }
    }
    lemma_subset_equality(y, x);
    assert(x.contains(k));
    assert(y.contains(k));
    let i = choose|i: int| x.contains(i) && f(i) == k;
    lemma_letter_index(w[i], k);
    assert(w[i] == letter_at(k));
}

impl Rotor {
    pub open spec fn wf(&self) -> bool {
        self@.valid()
    }

    /// A rotor with the given wiring and notch letter, at position `'A'`.
    pub fn new(wiring: &str, notch: char) -> (r: Rotor)
        requires
            is_wiring(wiring@),
            is_letter(notch),
        ensures
            r.wf(),
            r@.wiring == wiring@,
            r@.notch == notch,
            r@.position == 0,
    {
        let mut wiring_array: Vec<char> = Vec::new();
        let mut i: usize = 0;
        while i < 26
            invariant
                i <= 26,
                wiring@.len() == 26,
                wiring_array@ == wiring@.take(i as int),
            decreases 26 - i,
        {
            wiring_array.push(wiring.get_char(i));
            i += 1;
        }
        assert(wiring_array@ == wiring@);
        let mut reverse_lookup: Vec<usize> = vec![0usize; 26];
        let mut j: usize = 0;
        while j < 26
            invariant
                j <= 26,
                is_wiring(wiring_array@),
                reverse_lookup@.len() == 26,
                forall|m: int| 0 <= m < j ==> reverse_lookup@[index_of(#[trigger] wiring_array@[m])] == m,
                forall|k: int| 0 <= k < 26 ==> #[trigger] reverse_lookup@[k] < 26,
            decreases 26 - j,
        {
            let c = wiring_array[j];
            let k = Alphabet::char_to_index(c);
            reverse_lookup.set(k, j);
            proof {
                assert forall|m: int| 0 <= m < j + 1 implies reverse_lookup@[index_of(#[trigger] wiring_array@[m])] == m by {
                    if m != j {
                        assert(wiring_array@[m] != wiring_array@[j as int]);
                    }
                }
            }
            j += 1;
        }
        let r = Rotor { wiring: wiring_array, reverse_lookup, notch, position: 0 };
        proof {
            let v = r@;
            assert forall|k: int| 0 <= k < 26 implies v.wiring[#[trigger] v.reverse[k]] == letter_at(k) by {
                lemma_wiring_onto(v.wiring, k);
                let i = choose|i: int| 0 <= i < 26 && #[trigger] v.wiring[i] == letter_at(k);
                lemma_letter_index(v.wiring[i], k);
                assert(v.reverse[index_of(v.wiring[i])] == i);
            }
        }
        r
    }

    /// The current position.
    pub fn position(&self) -> (r: usize)
        ensures
            r == self@.position,
    {
        self.position
    }

    /// The notch letter.
    pub fn notch(&self) -> (r: char)
        ensures
            r == self@.notch,
    {
        self.notch
    }

    /// Substitutes `input` entering from the right, at the current position.
    pub fn encode_forward(&self, input: char) -> (r: char)
        requires
            self.wf(),
            is_letter(input),
        ensures
            r == self@.forward(input),
            is_letter(r),
    {
        let index = Alphabet::char_to_index(input);
        let shifted_index = (index + self.position) % 26;
        self.wiring[shifted_index]
    }

    /// Substitutes `input` entering from the left: the inverse of `encode_forward`.
    pub fn encode_backward(&self, input: char) -> (r: char)
        requires
            self.wf(),
            is_letter(input),
        ensures
            r == self@.backward(input),
            is_letter(r),
    {
        let k = Alphabet::char_to_index(input);
        let index = self.reverse_lookup[k];
        assert(index == self@.reverse[k as int]);
        let shifted_index = (26 + index - self.position) % 26;
        Alphabet::index_to_char(shifted_index)
    }

    /// Advances the position by one; true iff the new position shows the notch letter.
    pub fn rotate(&mut self) -> (r: bool)
        requires
            old(self).wf(),
        ensures
            final(self).wf(),
            final(self)@ == old(self)@.at((old(self)@.position + 1) % 26),
            r == (letter_at(final(self)@.position) == old(self)@.notch),
    {
        self.position = (self.position + 1) % 26;
        Alphabet::index_to_char(self.position) == self.notch
    }

    /// Turns the rotor so that it shows `pos`.
    pub fn set_position(&mut self, pos: char)
        requires
            old(self).wf(),
            is_letter(pos),
        ensures
            final(self).wf(),
            final(self)@ == old(self)@.at(index_of(pos)),
    {
        self.position = Alphabet::char_to_index(pos);
    }
}

} // verus!
