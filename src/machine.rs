//! The machine: plugboard, rotor stack and reflector wired into one signal path,
//! with the rotors stepped after each letter.
use vstd::prelude::*;
use crate::alphabet::{is_letter, index_of, letter_at, lemma_letter_index, Alphabet};
use crate::plugboard::{swap_by, valid_table, valid_pairs, table_of, Plugboard};
use crate::rotor::{is_wiring, lemma_rotor_inverse, Rotor, RotorModel};
use crate::text::{chars_of, string_of, to_upper, upper_of};

verus! {

/// The abstract state of a machine.
pub struct MachineModel {
    /// Index 0 is the fastest rotor.
    pub rotors: Seq<RotorModel>,
    pub reflector: Seq<char>,
    pub plugboard: Seq<char>,
}

/// The letter after passing through rotors `0..i`, fastest first.
pub open spec fn forward_through(rs: Seq<RotorModel>, i: nat, c: char) -> char
    decreases i,
{
    if i == 0 {
        c
    } else {
        rs[i - 1].forward(forward_through(rs, (i - 1) as nat, c))
    }
}

/// The letter after passing back through rotors `i-1` down to `0`.
pub open spec fn backward_from(rs: Seq<RotorModel>, i: nat, c: char) -> char
    decreases i,
{
    if i == 0 {
        c
    } else {
        backward_from(rs, (i - 1) as nat, rs[i - 1].backward(c))
    }
}

/// Whether the middle rotor of a three-rotor machine starts this cycle on its
/// own notch: then it steps again, taking the slowest rotor with it.
pub open spec fn double_step(rs: Seq<RotorModel>) -> bool {
    rs.len() == 3 && rs[1].position == index_of(rs[1].notch)
}

/// Whether rotor `i` turns in this cycle and lands on its notch, which makes
/// rotor `i + 1` turn too.
pub open spec fn carry(rs: Seq<RotorModel>, i: nat) -> bool
    decreases i,
{
    let turns = i == 0 || carry(rs, (i - 1) as nat) || (double_step(rs) && (i == 1 || i == 2));
    turns && letter_at((rs[i as int].position + 1) % 26) == rs[i as int].notch
}

/// Whether rotor `i` turns in this cycle: the fastest always does; any other
/// when the rotor before it carries; and the middle and slowest rotors of a
/// three-rotor machine when the middle one starts on its notch.
pub open spec fn turns(rs: Seq<RotorModel>, i: nat) -> bool {
    i == 0 || carry(rs, (i - 1) as nat) || (double_step(rs) && (i == 1 || i == 2))
}

impl MachineModel {
    pub open spec fn valid(self) -> bool {
        &&& self.rotors.len() >= 1
        &&& forall|i: int| 0 <= i < self.rotors.len() ==> (#[trigger] self.rotors[i]).valid()
        &&& is_wiring(self.reflector)
        &&& valid_table(self.plugboard)
    }

    pub open spec fn reflect(self, c: char) -> char {
        self.reflector[index_of(c)]
    }

    /// The letter that comes out for `c` at the current positions.
    pub open spec fn encode_char(self, c: char) -> char {
        let n = self.rotors.len() as nat;
        let inward = forward_through(self.rotors, n, swap_by(self.plugboard, c));
        swap_by(self.plugboard, backward_from(self.rotors, n, self.reflect(inward)))
    }

    /// The machine after one stepping cycle.
    pub open spec fn step(self) -> MachineModel {
        let rs = self.rotors;
        MachineModel {
            rotors: Seq::new(
                rs.len(),
                |i: int|
                    if turns(rs, i as nat) {
                        rs[i].at((rs[i].position + 1) % 26)
                    } else {
                        rs[i]
                    },
            ),
            ..self
        }
    }

    /// The machine after `k` stepping cycles.
    pub open spec fn steps(self, k: nat) -> MachineModel
        decreases k,
    {
        if k == 0 {
            self
        } else {
            self.steps((k - 1) as nat).step()
        }
    }

    /// What the machine makes of a text of letters: the letter at `i` is
    /// encoded after `i` stepping cycles.
    pub open spec fn run(self, text: Seq<char>) -> Seq<char> {
        Seq::new(text.len(), |i: int| self.steps(i as nat).encode_char(text[i]))
    }
}

proof fn lemma_through_letters(rs: Seq<RotorModel>, i: nat, c: char)
    requires
        i <= rs.len(),
        forall|j: int| 0 <= j < rs.len() ==> (#[trigger] rs[j]).valid(),
        is_letter(c),
    ensures
        is_letter(forward_through(rs, i, c)),
        is_letter(backward_from(rs, i, c)),
        backward_from(rs, i, forward_through(rs, i, c)) == c,
        forward_through(rs, i, backward_from(rs, i, c)) == c,
    decreases i,
{
    if i > 0 {
        let k = (i - 1) as nat;
        lemma_through_letters(rs, k, c);
        lemma_rotor_inverse(rs[k as int], forward_through(rs, k, c));
        lemma_rotor_inverse(rs[k as int], c);
        lemma_through_letters(rs, k, rs[k as int].backward(c));
    }
}

proof fn lemma_steps_valid(m: MachineModel, k: nat)
    requires
        m.valid(),
    ensures
        m.steps(k).valid(),
        m.steps(k).reflector == m.reflector,
        m.steps(k).plugboard == m.plugboard,
    decreases k,
{
    if k > 0 {
        lemma_steps_valid(m, (k - 1) as nat);
        let p = m.steps((k - 1) as nat);
        assert forall|i: int| 0 <= i < p.step().rotors.len() implies (#[trigger] p.step().rotors[i]).valid() by {
            assert(p.rotors[i].valid());
        }
    }
}

proof fn lemma_letters_push(s: Seq<char>, i: int)
    requires
        0 <= i < s.len(),
    ensures
        letters(s.take(i + 1)) == if is_letter(s[i]) {
            letters(s.take(i)).push(s[i])
        } else {
            letters(s.take(i))
        },
{
    reveal(Seq::filter);
    assert(s.take(i + 1).drop_last() == s.take(i));
}

/// The uppercase letters of `s`, in order.
pub open spec fn letters(s: Seq<char>) -> Seq<char> {
    s.filter(|c: char| is_letter(c))
}

proof fn lemma_letters_of_letters(s: Seq<char>)
    requires
        forall|i: int| 0 <= i < s.len() ==> is_letter(#[trigger] s[i]),
    ensures
        letters(s) == s,
    decreases s.len(),
{
    reveal(Seq::filter);
    if s.len() > 0 {
        lemma_letters_of_letters(s.drop_last());
        assert(s.drop_last().push(s.last()) == s);
    }
}

proof fn lemma_swap_involution(t: Seq<char>, c: char)
    requires
        valid_table(t),
        is_letter(c),
    ensures
        is_letter(swap_by(t, c)),
        swap_by(t, swap_by(t, c)) == c,
{
    lemma_letter_index(c, 0);
    lemma_letter_index(swap_by(t, c), 0);
}

proof fn lemma_encode_char_involution(m: MachineModel, c: char)
    requires
        m.valid(),
        valid_table(m.reflector),
        is_letter(c),
    ensures
        is_letter(m.encode_char(c)),
        m.encode_char(m.encode_char(c)) == c,
{
    let rs = m.rotors;
    let n = rs.len() as nat;
    let x = swap_by(m.plugboard, c);
    lemma_swap_involution(m.plugboard, c);
    let f = forward_through(rs, n, x);
    lemma_through_letters(rs, n, x);
    lemma_letter_index(f, 0);
    let r = m.reflect(f);
    lemma_swap_involution(m.reflector, f);
    let b = backward_from(rs, n, r);
    lemma_through_letters(rs, n, r);
    lemma_swap_involution(m.plugboard, b);
    lemma_letter_index(r, 0);
    assert(m.reflect(r) == f);
}

/// The machine is its own inverse: from the same starting state, enciphering
/// the letters of a text and then enciphering the result gives those letters
/// back, and every enciphered character is a letter. This holds whenever the
/// reflector pairs letters symmetrically.
pub proof fn lemma_self_reciprocal(m: MachineModel, plain: Seq<char>)
    requires
        m.valid(),
        valid_table(m.reflector),
    ensures
        letters(m.run(letters(plain))) == m.run(letters(plain)),
        m.run(m.run(letters(plain))) == letters(plain),
{
    let p = letters(plain);
    let x = m.run(p);
    assert forall|i: int| 0 <= i < p.len() implies is_letter(#[trigger] p[i]) by {
        plain.lemma_filter_pred(|c: char| is_letter(c), i);
    }
    assert forall|i: int| 0 <= i < x.len() implies is_letter(#[trigger] x[i]) && m.steps(i as nat).encode_char(x[i]) == p[i] by {
        lemma_steps_valid(m, i as nat);
        lemma_encode_char_involution(m.steps(i as nat), p[i]);
    }
    lemma_letters_of_letters(x);
    assert(m.run(x) == p);
}

/// The double step of a three-rotor machine: a cycle that starts with the
/// middle rotor on its notch advances the middle and the slowest rotor,
/// whatever the fastest rotor does; so when a cycle turns the middle rotor
/// onto its notch, the next cycle advances it again.
pub proof fn lemma_double_step(m: MachineModel)
    requires
        m.valid(),
        m.rotors.len() == 3,
    ensures
        m.rotors[1].position == index_of(m.rotors[1].notch) ==> {
            &&& m.step().rotors[1].position == (m.rotors[1].position + 1) % 26
            &&& m.step().rotors[2].position == (m.rotors[2].position + 1) % 26
        },
        m.step().rotors[1].position == (m.rotors[1].position + 1) % 26 && m.step().rotors[1].position
            == index_of(m.rotors[1].notch) ==> {
            &&& m.step().step().rotors[1].position == (m.step().rotors[1].position + 1) % 26
            &&& m.step().step().rotors[2].position == (m.step().rotors[2].position + 1) % 26
        },
{
    let rs = m.rotors;
    assert(m.step().rotors[1] == if turns(rs, 1) { rs[1].at((rs[1].position + 1) % 26) } else { rs[1] });
    assert(m.step().rotors[2] == if turns(rs, 2) { rs[2].at((rs[2].position + 1) % 26) } else { rs[2] });
    lemma_steps_valid(m, 1);
    assert(m.steps(1) == m.step()) by {
        assert(m.steps(0) == m);
    }
    let s1 = m.step();
    let r1 = s1.rotors;
    assert(r1.len() == 3);
    assert(s1.step().rotors[1] == if turns(r1, 1) { r1[1].at((r1[1].position + 1) % 26) } else { r1[1] });
    assert(s1.step().rotors[2] == if turns(r1, 2) { r1[2].at((r1[2].position + 1) % 26) } else { r1[2] });
    assert(s1.rotors[1].notch == rs[1].notch);
}

pub struct EnigmaMachine {
    rotors: Vec<Rotor>,
    reflector: Vec<char>,
    plugboard: Plugboard,
}

impl View for EnigmaMachine {
    type V = MachineModel;

    closed spec fn view(&self) -> MachineModel {
        MachineModel {
            rotors: self.rotors@.map_values(|r: Rotor| r@),
            reflector: self.reflector@,
            plugboard: self.plugboard@,
        }
    }
}

impl EnigmaMachine {
    pub open spec fn wf(&self) -> bool {
        self@.valid()
    }

    /// A machine with the given rotors (wiring and notch, fastest first), all
    /// at `'A'`, reflector and plugboard pairs.
    pub fn new(
        rotor_configurations: Vec<(&str, char)>,
        reflector_wiring: &str,
        plugboard_pairs: &[(char, char)],
    ) -> (r: EnigmaMachine)
        requires
            rotor_configurations@.len() >= 1,
            forall|i: int| 0 <= i < rotor_configurations@.len() ==> is_wiring(#[trigger] rotor_configurations@[i].0@)
                && is_letter(rotor_configurations@[i].1),
            is_wiring(reflector_wiring@),
            valid_pairs(plugboard_pairs@),
        ensures
            r.wf(),
            r@.rotors.len() == rotor_configurations@.len(),
            forall|i: int| 0 <= i < rotor_configurations@.len() ==> {
                &&& (#[trigger] r@.rotors[i]).wiring == rotor_configurations@[i].0@
                &&& r@.rotors[i].notch == rotor_configurations@[i].1
                &&& r@.rotors[i].position == 0
            },
            r@.reflector == reflector_wiring@,
            r@.plugboard == table_of(plugboard_pairs@),
    {
        let mut rotors: Vec<Rotor> = Vec::new();
        let mut i: usize = 0;
        while i < rotor_configurations.len()
            invariant
                i <= rotor_configurations@.len(),
                rotors@.len() == i,
                forall|j: int| 0 <= j < rotor_configurations@.len() ==> is_wiring(#[trigger] rotor_configurations@[j].0@)
                    && is_letter(rotor_configurations@[j].1),
                forall|j: int| 0 <= j < i ==> {
                    &&& (#[trigger] rotors@[j]).wf()
                    &&& rotors@[j]@.wiring == rotor_configurations@[j].0@
                    &&& rotors@[j]@.notch == rotor_configurations@[j].1
                    &&& rotors@[j]@.position == 0
                },
            decreases rotor_configurations@.len() - i,
        {
            let (wiring, notch) = rotor_configurations[i];
            rotors.push(Rotor::new(wiring, notch));
            i += 1;
        }
        let reflector = chars_of(reflector_wiring);
        let plugboard = Plugboard::new(plugboard_pairs);
        let r = EnigmaMachine { rotors, reflector, plugboard };
        assert forall|j: int| 0 <= j < r@.rotors.len() implies (#[trigger] r@.rotors[j]).valid() by {
            assert(r@.rotors[j] == rotors@[j]@);
        }
        r
    }

    /// The signal path for one letter at the current positions: plugboard,
    /// rotors fastest to slowest, reflector, rotors back, plugboard.
    fn encode_letter(&self, input: char) -> (r: char)
        requires
            self.wf(),
            is_letter(input),
        ensures
            r == self@.encode_char(input),
            is_letter(r),
    {
        let ghost rs = self@.rotors;
        let n = self.rotors.len();
        assert forall|j: int| 0 <= j < n implies #[trigger] self.rotors@[j]@ == rs[j] by {}
        let c1 = self.plugboard.swap(input);
        let mut encoded_char = c1;
        let mut i: usize = 0;
        while i < n
            invariant
                n == self.rotors@.len(),
                n == rs.len(),
                i <= n,
                self.wf(),
                rs == self@.rotors,
                forall|j: int| 0 <= j < n ==> #[trigger] self.rotors@[j]@ == rs[j],
                is_letter(c1),
                encoded_char == forward_through(rs, i as nat, c1),
            decreases n - i,
        {
            proof {
                lemma_through_letters(rs, i as nat, c1);
            }
            encoded_char = self.rotors[i].encode_forward(encoded_char);
            i += 1;
        }
        proof {
            lemma_through_letters(rs, n as nat, c1);
            lemma_letter_index(encoded_char, 0);
        }
        let reflected = self.reflector[Alphabet::char_to_index(encoded_char)];
        let reflected = Alphabet::index_to_char(Alphabet::char_to_index(reflected));
        proof {
            lemma_letter_index(reflected, 0);
        }
        let ghost middle = reflected;
        encoded_char = reflected;
        let mut i: usize = n;
        while i > 0
            invariant
                n == self.rotors@.len(),
                n == rs.len(),
                i <= n,
                self.wf(),
                rs == self@.rotors,
                forall|j: int| 0 <= j < n ==> #[trigger] self.rotors@[j]@ == rs[j],
                is_letter(encoded_char),
                backward_from(rs, i as nat, encoded_char) == backward_from(rs, n as nat, middle),
            decreases i,
        {
            proof {
                lemma_rotor_inverse(rs[i - 1], encoded_char);
            }
            encoded_char = self.rotors[i - 1].encode_backward(encoded_char);
            i -= 1;
        }
        let r = self.plugboard.swap(encoded_char);
        proof {
            lemma_letter_index(encoded_char, 0);
        }
        r
    }

    /// One stepping cycle: the fastest rotor always turns; each other rotor
    /// turns when the rotor before it reported its notch in this cycle; and
    /// in a three-rotor machine whose middle rotor starts the cycle on its own
    /// notch, the middle and slowest rotors turn as well (the double step).
    pub fn rotate_rotors(&mut self)
        requires
            old(self).wf(),
        ensures
            final(self).wf(),
            final(self)@ == old(self)@.step(),
    {
        let ghost rs = self@.rotors;
        let n = self.rotors.len();
        assert(n >= 2 ==> self.rotors@[1]@ == rs[1]);
        let double = n == 3 && self.rotors[1].position() == Alphabet::char_to_index(self.rotors[1].notch());
        let mut rotate_next = true;
        let mut i: usize = 0;
        assert forall|j: int| 0 <= j < n implies (#[trigger] self.rotors@[j]).wf() by {
            assert(self@.rotors[j] == self.rotors@[j]@);
        }
        while i < n
            invariant
                n == self.rotors@.len(),
                n == rs.len(),
                i <= n,
                self@.reflector == old(self)@.reflector,
                self@.plugboard == old(self)@.plugboard,
                self@ == (MachineModel { rotors: self@.rotors, ..old(self)@ }),
                rs == old(self)@.rotors,
                old(self)@.valid(),
                double == double_step(rs),
                i == 0 ==> rotate_next,
                0 < i ==> rotate_next == carry(rs, (i - 1) as nat),
                forall|j: int| 0 <= j < n ==> (#[trigger] self.rotors@[j]).wf(),
                forall|j: int| 0 <= j < n ==> #[trigger] self@.rotors[j] == self.rotors@[j]@,
                forall|j: int| 0 <= j < i ==> #[trigger] self@.rotors[j] == old(self)@.step().rotors[j],
                forall|j: int| i <= j < n ==> #[trigger] self@.rotors[j] == rs[j],
            decreases n - i,
        {
            let ghost before = self.rotors@;
            let ghost before_model = self@.rotors;
            assert(self@.rotors[i as int] == rs[i as int]);
            assert(before[i as int]@ == rs[i as int]);
            assert(turns(rs, i as nat) == (i == 0 || rotate_next || (double && (i == 1 || i == 2))));
            if i == 0 || rotate_next || (double && (i == 1 || i == 2)) {
                rotate_next = self.rotors[i].rotate();
            } else {
                rotate_next = false;
            }
            proof {
                let st = old(self)@.step().rotors;
                assert(st[i as int] == if turns(rs, i as nat) {
                    rs[i as int].at((rs[i as int].position + 1) % 26)
                } else {
                    rs[i as int]
                });
                assert(self.rotors@[i as int]@ == st[i as int]);
                assert(rotate_next == carry(rs, i as nat));
                assert forall|j: int| 0 <= j < n implies #[trigger] self@.rotors[j] == self.rotors@[j]@ by {}
                assert forall|j: int| 0 <= j < n && j != i implies #[trigger] self@.rotors[j] == before_model[j] by {
                    assert(self.rotors@[j] == before[j]);
                    assert(before_model[j] == before[j]@);
                }
            }
            i += 1;
        }
        assert(self@.rotors == old(self)@.step().rotors);
    }

    /// Enciphers the uppercase letters of `text`, in order, skipping every
    /// other character; the rotors step after each letter.
    pub fn encode_uppercased(&mut self, text: &str) -> (out: String)
        requires
            old(self).wf(),
        ensures
            final(self).wf(),
            out@ == old(self)@.run(letters(text@)),
            final(self)@ == old(self)@.steps(letters(text@).len()),
    {
        let chars = chars_of(text);
        let mut out: Vec<char> = Vec::new();
        let mut i: usize = 0;
        while i < chars.len()
            invariant
                i <= chars@.len(),
                chars@ == text@,
                self.wf(),
                out@ == old(self)@.run(letters(text@.take(i as int))),
                self@ == old(self)@.steps(letters(text@.take(i as int)).len()),
            decreases chars@.len() - i,
        {
            let c = chars[i];
            proof {
                lemma_letters_push(text@, i as int);
            }
            if 'A' <= c && c <= 'Z' {
                let e = self.encode_letter(c);
                self.rotate_rotors();
                out.push(e);
                proof {
                    let prev = letters(text@.take(i as int));
                    assert(out@ == old(self)@.run(prev.push(c)));
                }
            }
            i += 1;
        }
        assert(text@.take(chars@.len() as int) == text@);
        string_of(&out)
    }

    /// Enciphers (or, with the same starting state, deciphers) `input`: the
    /// uppercase letters of its uppercased form, into `output`.
    pub fn encode_decode(&mut self, input: String, output: &mut String)
        requires
            old(self).wf(),
        ensures
            final(self).wf(),
            final(output)@ == old(self)@.run(letters(upper_of(input@))),
            final(self)@ == old(self)@.steps(letters(upper_of(input@)).len()),
    {
        let upper = to_upper(input.as_str());
        *output = self.encode_uppercased(upper.as_str());
    }

    /// The number of rotors.
    pub fn rotor_count(&self) -> (r: usize)
        ensures
            r == self@.rotors.len(),
    {
        self.rotors.len()
    }

    /// The letter each rotor shows, fastest first.
    pub fn rotor_positions(&self) -> (r: Vec<char>)
        requires
            self.wf(),
        ensures
            r@.len() == self@.rotors.len(),
            forall|i: int| 0 <= i < r@.len() ==> #[trigger] r@[i] == letter_at(self@.rotors[i].position),
    {
        let mut r: Vec<char> = Vec::new();
        let mut i: usize = 0;
        while i < self.rotors.len()
            invariant
                i <= self.rotors@.len(),
                r@.len() == i,
                forall|j: int| 0 <= j < i ==> #[trigger] r@[j] == letter_at(self@.rotors[j].position),
            decreases self.rotors@.len() - i,
        {
            assert(self.rotors@[i as int]@ == self@.rotors[i as int]);
            r.push(Alphabet::index_to_char(self.rotors[i].position()));
            i += 1;
        }
        r
    }

    /// Turns rotor `i` to show `pos`; nothing else changes.
    pub fn set_rotor_position(&mut self, i: usize, pos: char)
        requires
            old(self).wf(),
            i < old(self)@.rotors.len(),
            is_letter(pos),
        ensures
            final(self).wf(),
            final(self)@ == (MachineModel {
                rotors: old(self)@.rotors.update(i as int, old(self)@.rotors[i as int].at(index_of(pos))),
                ..old(self)@
            }),
    {
        assert(self.rotors@[i as int]@ == self@.rotors[i as int]);
        let ghost before = self.rotors@;
        self.rotors[i].set_position(pos);
        proof {
            let want = old(self)@.rotors.update(i as int, old(self)@.rotors[i as int].at(index_of(pos)));
            assert forall|j: int| 0 <= j < want.len() implies #[trigger] self@.rotors[j] == want[j] by {
                if j != i {
                    assert(self.rotors@[j] == before[j]);
                }
            }
            assert(self@.rotors == want);
        }
    }

    /// Replaces the whole plugboard.
    pub fn set_plugboard(&mut self, plugboard: Plugboard)
        requires
            old(self).wf(),
            plugboard.wf(),
        ensures
            final(self).wf(),
            final(self)@ == (MachineModel { plugboard: plugboard@, ..old(self)@ }),
    {
        self.plugboard = plugboard;
    }
}

} // verus!
