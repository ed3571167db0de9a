//! The plugboard: a symmetric pairing of letters applied around the rotors.
use vstd::prelude::*;
use crate::alphabet::{is_letter, index_of, letter_at, lemma_letter_index, Alphabet};

verus! {

/// Pairs of letters, two distinct letters each, no letter in two pairs.
pub open spec fn valid_pairs(pairs: Seq<(char, char)>) -> bool {
    &&& forall|k: int| 0 <= k < pairs.len() ==> is_letter(#[trigger] pairs[k].0) && is_letter(pairs[k].1)
    &&& forall|k: int| 0 <= k < pairs.len() ==> #[trigger] pairs[k].0 != pairs[k].1
    &&& forall|k: int, m: int| 0 <= k < pairs.len() && 0 <= m < pairs.len() && k != m ==> {
        &&& #[trigger] pairs[k].0 != #[trigger] pairs[m].0
        &&& pairs[k].0 != pairs[m].1
        &&& pairs[k].1 != pairs[m].0
        &&& pairs[k].1 != pairs[m].1
    }
}

/// Whether `c` occurs in one of the pairs.
pub open spec fn in_pairs(pairs: Seq<(char, char)>, c: char) -> bool {
    exists|k: int| 0 <= k < pairs.len() && (#[trigger] pairs[k].0 == c || pairs[k].1 == c)
}

/// Adding a pair of two new, distinct letters keeps pairs well formed.
pub proof fn lemma_push_pair(pairs: Seq<(char, char)>, a: char, b: char)
    requires
        valid_pairs(pairs),
        is_letter(a),
        is_letter(b),
        a != b,
        !in_pairs(pairs, a),
        !in_pairs(pairs, b),
    ensures
        valid_pairs(pairs.push((a, b))),
{
    let ps = pairs.push((a, b));
    let n = pairs.len() as int;
    assert forall|m: int| 0 <= m < n implies {
        &&& (#[trigger] pairs[m]).0 != a
        &&& pairs[m].1 != a
        &&& pairs[m].0 != b
        &&& pairs[m].1 != b
    } by {
        if pairs[m].0 == a || pairs[m].1 == a {
            assert(in_pairs(pairs, a));
        }
        if pairs[m].0 == b || pairs[m].1 == b {
            assert(in_pairs(pairs, b));
        }
    }
    assert forall|k: int| 0 <= k <= n implies #[trigger] ps[k] == if k < n { pairs[k] } else { (a, b) } by {}
}

/// The partner of `c` under `pairs`, or `c` itself; a later pair wins.
pub open spec fn partner(pairs: Seq<(char, char)>, c: char) -> char
    decreases pairs.len(),
{
    if pairs.len() == 0 {
        c
    } else if pairs.last().0 == c {
        pairs.last().1
    } else if pairs.last().1 == c {
        pairs.last().0
    } else {
        partner(pairs.drop_last(), c)
    }
}

/// The swap table built from `pairs`: the partner of each letter.
pub open spec fn table_of(pairs: Seq<(char, char)>) -> Seq<char> {
    Seq::new(26, |k: int| partner(pairs, letter_at(k)))
}

/// What a swap table does to `c`; characters outside the alphabet pass unchanged.
pub open spec fn swap_by(table: Seq<char>, c: char) -> char {
    if is_letter(c) {
        table[index_of(c)]
    } else {
        c
    }
}

/// A swap table of letters that is its own inverse.
pub open spec fn valid_table(table: Seq<char>) -> bool {
    &&& table.len() == 26
    &&& forall|k: int| 0 <= k < 26 ==> is_letter(#[trigger] table[k])
    &&& forall|k: int| 0 <= k < 26 ==> table[index_of(#[trigger] table[k])] == letter_at(k)
}

proof fn lemma_partner_origin(pairs: Seq<(char, char)>, c: char)
    ensures
        partner(pairs, c) == c || in_pairs(pairs, partner(pairs, c)),
        !in_pairs(pairs, c) ==> partner(pairs, c) == c,
    decreases pairs.len(),
{
    if pairs.len() > 0 {
        let init = pairs.drop_last();
        lemma_partner_origin(init, c);
        let last = pairs.len() - 1;
        assert(pairs[last] == pairs.last());
        if partner(init, c) != c && pairs.last().0 != c && pairs.last().1 != c {
            let k = choose|k: int| 0 <= k < init.len() && (#[trigger] init[k].0 == partner(init, c) || init[k].1 == partner(init, c));
            assert(pairs[k] == init[k]);
        }
        if !in_pairs(pairs, c) {
            assert forall|k: int| 0 <= k < init.len() implies !(#[trigger] init[k].0 == c || init[k].1 == c) by {
                assert(pairs[k] == init[k]);
            }
        }
    }
}

proof fn lemma_partner_involution(pairs: Seq<(char, char)>, c: char)
    requires
        valid_pairs(pairs),
    ensures
        partner(pairs, partner(pairs, c)) == c,
    decreases pairs.len(),
{
    if pairs.len() > 0 {
        let init = pairs.drop_last();
        let last = pairs.len() - 1;
        assert(pairs[last] == pairs.last());
        assert(valid_pairs(init)) by {
            assert forall|k: int| 0 <= k < init.len() implies #[trigger] init[k] == pairs[k] by {}
        }
        if pairs.last().0 != c && pairs.last().1 != c {
            let d = partner(init, c);
            lemma_partner_origin(init, c);
            lemma_partner_involution(init, c);
            if d != c {
                let k = choose|k: int| 0 <= k < init.len() && (#[trigger] init[k].0 == d || init[k].1 == d);
                assert(pairs[k] == init[k]);
                assert(pairs[k].0 != pairs[last].0 && pairs[k].1 != pairs[last].1);
                assert(pairs[k].0 != pairs[last].1 && pairs[k].1 != pairs[last].0);
            }
            assert(partner(pairs, d) == partner(init, d));
        } else if pairs.last().0 == c {
            assert(partner(pairs, c) == pairs.last().1);
            assert(pairs[last].0 != pairs[last].1);
        } else {
            assert(partner(pairs, c) == pairs.last().0);
            assert(pairs[last].0 != pairs[last].1);
        }
    }
}

/// A plugboard built from well-formed pairs is an involution, and leaves every
/// letter outside the pairs alone.
pub proof fn lemma_plugboard_involution(pairs: Seq<(char, char)>, c: char)
    requires
        valid_pairs(pairs),
    ensures
        valid_table(table_of(pairs)),
        swap_by(table_of(pairs), swap_by(table_of(pairs), c)) == c,
        !in_pairs(pairs, c) ==> swap_by(table_of(pairs), c) == c,
{
    let t = table_of(pairs);
    assert forall|k: int| 0 <= k < 26 implies is_letter(#[trigger] t[k]) && t[index_of(t[k])] == letter_at(k) by {
        lemma_letter_index(letter_at(k), k);
        lemma_partner_origin(pairs, letter_at(k));
        let d = partner(pairs, letter_at(k));
        if d != letter_at(k) {
            let m = choose|m: int| 0 <= m < pairs.len() && (#[trigger] pairs[m].0 == d || pairs[m].1 == d);
        }
        lemma_letter_index(d, 0);
        lemma_partner_involution(pairs, letter_at(k));
    }
    lemma_letter_index(c, 0);
    lemma_partner_origin(pairs, c);
    if is_letter(c) {
        lemma_partner_involution(pairs, c);
        let d = partner(pairs, c);
        if d != c {
            let m = choose|m: int| 0 <= m < pairs.len() && (#[trigger] pairs[m].0 == d || pairs[m].1 == d);
        }
        lemma_letter_index(d, 0);
    }
}

pub struct Plugboard {
    swaps: Vec<char>,
}

impl View for Plugboard {
    type V = Seq<char>;

    closed spec fn view(&self) -> Seq<char> {
        self.swaps@
    }
}

impl Plugboard {
    pub open spec fn wf(&self) -> bool {
        valid_table(self@)
    }

    /// A plugboard that swaps the two letters of each pair.
    pub fn new(pairs: &[(char, char)]) -> (r: Plugboard)
        requires
            valid_pairs(pairs@),
        ensures
            r.wf(),
            r@ == table_of(pairs@),
    {
        let mut swaps: Vec<char> = Vec::new();
        let mut k: usize = 0;
        while k < 26
            invariant
                k <= 26,
                swaps@.len() == k,
                forall|m: int| 0 <= m < k ==> #[trigger] swaps@[m] == letter_at(m),
            decreases 26 - k,
        {
            swaps.push(Alphabet::index_to_char(k));
            k += 1;
        }
        let mut i: usize = 0;
        while i < pairs.len()
            invariant
                i <= pairs@.len(),
                valid_pairs(pairs@),
                swaps@.len() == 26,
                forall|m: int| 0 <= m < 26 ==> #[trigger] swaps@[m] == partner(pairs@.take(i as int), letter_at(m)),
            decreases pairs@.len() - i,
        {
            let (a, b) = pairs[i];
            assert(pairs@[i as int] == (a, b));
            swaps.set(Alphabet::char_to_index(a), b);
            swaps.set(Alphabet::char_to_index(b), a);
            proof {
                let next = pairs@.take(i + 1);
                assert(next.drop_last() == pairs@.take(i as int));
                assert(next.last() == (a, b));
                assert forall|m: int| 0 <= m < 26 implies #[trigger] swaps@[m] == partner(next, letter_at(m)) by {
                    lemma_letter_index(letter_at(m), m);
                    lemma_letter_index(a, m);
                    lemma_letter_index(b, m);
                }
            }
            i += 1;
        }
        assert(pairs@.take(pairs@.len() as int) == pairs@);
        let r = Plugboard { swaps };
        assert(r@ == table_of(pairs@));
        proof {
            lemma_plugboard_involution(pairs@, 'A');
        }
        r
    }

    /// The partner of `input`, or `input` itself when it is in no pair.
    pub fn swap(&self, input: char) -> (r: char)
        requires
            self.wf(),
        ensures
            r == swap_by(self@, input),
    {
        if 'A' <= input && input <= 'Z' {
            self.swaps[Alphabet::char_to_index(input)]
        } else {
            input
        }
    }
}

} // verus!
