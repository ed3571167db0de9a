//! The operator's console: the text fields a front end edits, the machine,
//! and the operations that validate operator input before it reaches the
//! machine.
use vstd::prelude::*;
use crate::alphabet::{is_letter, index_of};
use crate::machine::{letters, EnigmaMachine, MachineModel};
use crate::plugboard::{in_pairs, lemma_push_pair, table_of, valid_pairs, Plugboard};
use crate::rotor::is_wiring;
use crate::text::{
    chars_of, decimal, first_upper, is_space, is_whitespace, push_decimal, push_str, string_of, upper_char_of,
    upper_chars, upper_of,
};

verus! {

/// Wiring of the fastest rotor of the default configuration.
pub const ROTOR_I: &'static str = "EKMFLGDQVZNTOWYHXUSPAIBRCJ";
/// Wiring of the middle rotor of the default configuration.
pub const ROTOR_II: &'static str = "AJDKSIRUXBLHWTMCQGZNPYFVOE";
/// Wiring of the slowest rotor of the default configuration.
pub const ROTOR_III: &'static str = "BDFHJLCPRTXVZNYEIWGAKMUSQO";
/// Wiring of the default reflector.
pub const REFLECTOR_B: &'static str = "YRUHQSLDPXNGOKMIEBFZCWVJAT";

proof fn lemma_default_wirings()
    ensures
        is_wiring(ROTOR_I@),
        is_wiring(ROTOR_II@),
        is_wiring(ROTOR_III@),
        is_wiring(REFLECTOR_B@),
{
    reveal_strlit("EKMFLGDQVZNTOWYHXUSPAIBRCJ");
    reveal_strlit("AJDKSIRUXBLHWTMCQGZNPYFVOE");
    reveal_strlit("BDFHJLCPRTXVZNYEIWGAKMUSQO");
    reveal_strlit("YRUHQSLDPXNGOKMIEBFZCWVJAT");
}

/// Whether `c` is an ASCII letter of either case.
pub open spec fn is_ascii_letter(c: char) -> bool {
    ('A' <= c && c <= 'Z') || ('a' <= c && c <= 'z')
}

/// A message the console accepts: ASCII letters and spaces only.
pub open spec fn is_plain_message(s: Seq<char>) -> bool {
    forall|i: int| 0 <= i < s.len() ==> is_ascii_letter(#[trigger] s[i]) || s[i] == ' '
}

/// The report for a message with other characters.
pub open spec fn invalid_message_text() -> Seq<char> {
    "Invalid input: Please enter only alphabetic characters."@
}

/// The report for a position string of the wrong length.
pub open spec fn count_text(expected: nat, got: nat) -> Seq<char> {
    "Invalid input: Expected "@ + decimal(expected) + " positions, got "@ + decimal(got) + "."@
}

/// The report for a position that is not a letter.
pub open spec fn not_letter_text(c: char) -> Seq<char> {
    "Invalid input: "@ + seq![c] + " is not an alphabetic character."@
}

/// The report after all rotors were turned.
pub open spec fn positions_set_text() -> Seq<char> {
    "Rotor positions set."@
}

/// `m` with rotors `0..k` turned to the letters `ups[0..k]`.
pub open spec fn with_positions(m: MachineModel, ups: Seq<char>, k: int) -> MachineModel {
    MachineModel {
        rotors: Seq::new(
            m.rotors.len(),
            |j: int| if j < k { m.rotors[j].at(index_of(ups[j])) } else { m.rotors[j] },
        ),
        ..m
    }
}

/// The whitespace-separated words of `s`, in order.
pub open spec fn words(s: Seq<char>) -> Seq<Seq<char>>
    decreases s.len(),
{
    if s.len() == 0 {
        seq![]
    } else {
        let w = words(s.drop_last());
        let c = s.last();
        if is_space(c) {
            w
        } else if s.len() >= 2 && !is_space(s[s.len() - 2]) {
            w.update(w.len() - 1, w.last().push(c))
        } else {
            w.push(seq![c])
        }
    }
}

proof fn lemma_words_open(s: Seq<char>)
    requires
        s.len() > 0,
        !is_space(s.last()),
    ensures
        words(s).len() > 0,
    decreases s.len(),
{
    if s.len() >= 2 && !is_space(s[s.len() - 2]) {
        lemma_words_open(s.drop_last());
    }
}

/// The uppercase form of an ASCII letter; anything else is kept.
pub open spec fn ascii_upper(c: char) -> char {
    if 'a' <= c && c <= 'z' {
        ((c as int) - 32) as char
    } else {
        c
    }
}

/// Why a plugboard setting was refused.
pub ghost enum PlugIssue {
    /// A word that is not two letters.
    NotAPair(Seq<char>),
    /// A pair, as typed, whose letters are equal or already used.
    Reused(char, char),
}

/// The pairs that the words give, uppercased, or the first word that is refused.
pub open spec fn parse_pairs(ws: Seq<Seq<char>>) -> Result<Seq<(char, char)>, PlugIssue>
    decreases ws.len(),
{
    if ws.len() == 0 {
        Ok(seq![])
    } else {
        match parse_pairs(ws.drop_last()) {
            Err(e) => Err(e),
            Ok(ps) => {
                let t = ws.last();
                if !(t.len() == 2 && is_ascii_letter(t[0]) && is_ascii_letter(t[1])) {
                    Err(PlugIssue::NotAPair(t))
                } else {
                    let a = ascii_upper(t[0]);
                    let b = ascii_upper(t[1]);
                    if a == b || in_pairs(ps, a) || in_pairs(ps, b) {
                        Err(PlugIssue::Reused(t[0], t[1]))
                    } else {
                        Ok(ps.push((a, b)))
                    }
                }
            },
        }
    }
}

proof fn lemma_parse_err_sticks(ws: Seq<Seq<char>>, j: int)
    requires
        0 <= j <= ws.len(),
        parse_pairs(ws.take(j)) is Err,
    ensures
        parse_pairs(ws) == parse_pairs(ws.take(j)),
    decreases ws.len(),
{
    if ws.len() == j {
        assert(ws.take(j) == ws);
    } else {
        assert(ws.drop_last().take(j) == ws.take(j));
        lemma_parse_err_sticks(ws.drop_last(), j);
    }
}

/// The report for a refused plugboard setting.
pub open spec fn issue_text(e: PlugIssue) -> Seq<char> {
    match e {
        PlugIssue::NotAPair(t) => "Invalid input: Plugboard pairs must be exactly 2 letters. '"@ + t
            + "' is invalid."@,
        PlugIssue::Reused(a, b) => "Invalid plugboard configuration: duplicate letters or invalid pair '"@
            + seq![a, b] + "'."@,
    }
}

/// The report after a plugboard was set.
pub open spec fn plugboard_set_text() -> Seq<char> {
    "Plugboard set."@
}

/// Why a plugboard setting was refused.
pub enum PlugboardError {
    /// A word that is not two letters.
    NotAPair(Vec<char>),
    /// A pair, as typed, whose letters are equal or already used.
    Reused(char, char),
}

impl View for PlugboardError {
    type V = PlugIssue;

    open spec fn view(&self) -> PlugIssue {
        match self {
            PlugboardError::NotAPair(t) => PlugIssue::NotAPair(t@),
            PlugboardError::Reused(a, b) => PlugIssue::Reused(*a, *b),
        }
    }
}

impl PlugboardError {
    /// The report shown to the operator.
    pub fn message(&self) -> (r: String)
        ensures
            r@ == issue_text(self@),
    {
        let mut msg: Vec<char> = Vec::new();
        match self {
            PlugboardError::NotAPair(t) => {
                push_str(&mut msg, "Invalid input: Plugboard pairs must be exactly 2 letters. '");
                let mut i: usize = 0;
                let ghost start = msg@;
                while i < t.len()
                    invariant
                        i <= t@.len(),
                        msg@ == start + t@.take(i as int),
                    decreases t@.len() - i,
                {
                    msg.push(t[i]);
                    i += 1;
                    assert(t@.take(i as int) == t@.take(i - 1).push(t@[i - 1]));
                }
                assert(t@.take(t@.len() as int) == t@);
                push_str(&mut msg, "' is invalid.");
            },
            PlugboardError::Reused(a, b) => {
                push_str(&mut msg, "Invalid plugboard configuration: duplicate letters or invalid pair '");
                msg.push(*a);
                msg.push(*b);
                push_str(&mut msg, "'.");
            },
        }
        string_of(&msg)
    }
}

/// Whether `c` occurs in one of `pairs`.
fn pairs_use(pairs: &Vec<(char, char)>, c: char) -> (r: bool)
    ensures
        r == in_pairs(pairs@, c),
{
    let mut i: usize = 0;
    while i < pairs.len()
        invariant
            i <= pairs@.len(),
            forall|k: int| 0 <= k < i ==> (#[trigger] pairs@[k]).0 != c && pairs@[k].1 != c,
        decreases pairs@.len() - i,
    {
        if pairs[i].0 == c || pairs[i].1 == c {
            return true;
        }
        i += 1;
    }
    assert forall|k: int| 0 <= k < pairs@.len() implies !(#[trigger] pairs@[k].0 == c || pairs@[k].1 == c) by {
        assert(pairs@[k].0 != c && pairs@[k].1 != c);
    }
    false
}

/// The characters of each word.
pub open spec fn word_views(ws: Seq<Vec<char>>) -> Seq<Seq<char>> {
    Seq::new(ws.len(), |i: int| ws[i]@)
}

/// Splits `s` into its whitespace-separated words.
pub fn split_words(s: &str) -> (r: Vec<Vec<char>>)
    ensures
        word_views(r@) == words(s@),
{
    let chars = chars_of(s);
    let mut out: Vec<Vec<char>> = Vec::new();
    let mut i: usize = 0;
    while i < chars.len()
        invariant
            i <= chars@.len(),
            chars@ == s@,
            word_views(out@) == words(s@.take(i as int)),
        decreases chars@.len() - i,
    {
        let c = chars[i];
        let ghost pre = s@.take(i as int);
        let ghost next = s@.take(i + 1);
        let ghost before = word_views(out@);
        assert(next.drop_last() == pre);
        assert(next.last() == c);
        assert(i > 0 ==> next[next.len() - 2] == chars@[i - 1]);
        if !is_whitespace(c) {
            if i > 0 && !is_whitespace(chars[i - 1]) {
                proof {
                    assert(pre.last() == chars@[i - 1]);
                    lemma_words_open(pre);
                }
                let last = out.len() - 1;
                let ghost old_out = out@;
                out[last].push(c);
                proof {
                    let want = words(next);
                    assert(want == before.update(before.len() - 1, before.last().push(c)));
                    assert forall|k: int| 0 <= k < out@.len() implies word_views(out@)[k] == #[trigger] want[k] by {
                        if k != last {
                            assert(out@[k] == old_out[k]);
                        }
                    }
                    assert(word_views(out@) =~= words(next));
                }
            } else {
                let mut word: Vec<char> = Vec::new();
                word.push(c);
                out.push(word);
                proof {
                    assert(word@ == seq![c]);
                    assert(word_views(out@) =~= words(next));
                }
            }
        } else {
            assert(word_views(out@) =~= words(next));
        }
        i += 1;
    }
    assert(s@.take(chars@.len() as int) == s@);
    out
}

/// The pairs of a plugboard setting: whitespace-separated words of two ASCII
/// letters each, uppercased, no letter paired with itself or used twice.
pub fn parse_plugboard(text: &str) -> (r: Result<Vec<(char, char)>, PlugboardError>)
    ensures
        match r {
            Ok(v) => parse_pairs(words(text@)) == Ok::<Seq<(char, char)>, PlugIssue>(v@) && valid_pairs(v@),
            Err(e) => parse_pairs(words(text@)) == Err::<Seq<(char, char)>, PlugIssue>(e@),
        },
{
    let ws = split_words(text);
    let ghost wv = word_views(ws@);
    let mut pairs: Vec<(char, char)> = Vec::new();
    let mut j: usize = 0;
    assert(wv.take(0) == Seq::<Seq<char>>::empty());
    while j < ws.len()
        invariant
            j <= ws@.len(),
            wv == word_views(ws@),
            wv == words(text@),
            parse_pairs(wv.take(j as int)) == Ok::<Seq<(char, char)>, PlugIssue>(pairs@),
            valid_pairs(pairs@),
        decreases ws@.len() - j,
    {
        let t = &ws[j];
        assert(wv.take(j + 1).drop_last() == wv.take(j as int));
        assert(wv.take(j + 1).last() == t@);
        let shaped = t.len() == 2 && ((('A' <= t[0] && t[0] <= 'Z') || ('a' <= t[0] && t[0] <= 'z'))
            && (('A' <= t[1] && t[1] <= 'Z') || ('a' <= t[1] && t[1] <= 'z')));
        if !shaped {
            let e = PlugboardError::NotAPair(t.clone());
            proof {
                lemma_parse_err_sticks(wv, j + 1);
            }
            return Err(e);
        }
        let a = if 'a' <= t[0] && t[0] <= 'z' { ((t[0] as u32) - 32) as u8 as char } else { t[0] };
        let b = if 'a' <= t[1] && t[1] <= 'z' { ((t[1] as u32) - 32) as u8 as char } else { t[1] };
        assert(a == ascii_upper(t@[0]) && b == ascii_upper(t@[1]));
        if a == b || pairs_use(&pairs, a) || pairs_use(&pairs, b) {
            proof {
                lemma_parse_err_sticks(wv, j + 1);
            }
            return Err(PlugboardError::Reused(t[0], t[1]));
        }
        proof {
            lemma_push_pair(pairs@, a, b);
        }
        pairs.push((a, b));
        j += 1;
    }
    assert(wv.take(ws@.len() as int) == wv);
    Ok(pairs)
}

/// The state a front end shows and edits, around one machine.
pub struct EnigmaApp {
    pub input: String,
    pub output: String,
    pub enigma: EnigmaMachine,
    pub rotor_positions_input: String,
    pub plugboard_input: String,
    pub show_help_bool: bool,
}

impl EnigmaApp {
    pub open spec fn wf(&self) -> bool {
        self.enigma.wf()
    }

    /// The default configuration: three historical rotors (notches Q, E, V),
    /// all at `'A'`, reflector B, and the plugboard pairs AB and CD.
    pub fn new() -> (r: EnigmaApp)
        ensures
            r.wf(),
            r.enigma@.rotors.len() == 3,
            r.enigma@.rotors[0].wiring == ROTOR_I@ && r.enigma@.rotors[0].notch == 'Q',
            r.enigma@.rotors[1].wiring == ROTOR_II@ && r.enigma@.rotors[1].notch == 'E',
            r.enigma@.rotors[2].wiring == ROTOR_III@ && r.enigma@.rotors[2].notch == 'V',
            forall|i: int| 0 <= i < 3 ==> (#[trigger] r.enigma@.rotors[i]).position == 0,
            r.enigma@.reflector == REFLECTOR_B@,
            r.enigma@.plugboard == table_of(seq![('A', 'B'), ('C', 'D')]),
            r.input@.len() == 0,
            r.output@.len() == 0,
            r.rotor_positions_input@.len() == 0,
            r.plugboard_input@.len() == 0,
            !r.show_help_bool,
    {
        proof {
            lemma_default_wirings();
        }
        let pairs: Vec<(char, char)> = vec![('A', 'B'), ('C', 'D')];
        assert(pairs@ == seq![('A', 'B'), ('C', 'D')]);
        let enigma = EnigmaMachine::new(
            vec![(ROTOR_I, 'Q'), (ROTOR_II, 'E'), (ROTOR_III, 'V')],
            REFLECTOR_B,
            pairs.as_slice(),
        );
        EnigmaApp {
            input: String::new(),
            output: String::new(),
            enigma,
            rotor_positions_input: String::new(),
            plugboard_input: String::new(),
            show_help_bool: false,
        }
    }

    /// Enciphers `input` into `output` when it holds only letters and spaces;
    /// otherwise reports it and leaves the machine alone.
    pub fn encode(&mut self)
        requires
            old(self).wf(),
        ensures
            final(self).wf(),
            final(self).input == old(self).input,
            final(self).rotor_positions_input == old(self).rotor_positions_input,
            final(self).plugboard_input == old(self).plugboard_input,
            final(self).show_help_bool == old(self).show_help_bool,
            is_plain_message(old(self).input@) ==> {
                &&& final(self).output@ == old(self).enigma@.run(letters(upper_of(old(self).input@)))
                &&& final(self).enigma@ == old(self).enigma@.steps(letters(upper_of(old(self).input@)).len())
            },
            !is_plain_message(old(self).input@) ==> {
                &&& final(self).output@ == invalid_message_text()
                &&& final(self).enigma@ == old(self).enigma@
            },
    {
        let chars = chars_of(self.input.as_str());
        let mut plain = true;
        let mut i: usize = 0;
        while i < chars.len()
            invariant
                i <= chars@.len(),
                plain == (forall|j: int| 0 <= j < i ==> is_ascii_letter(#[trigger] chars@[j]) || chars@[j] == ' '),
            decreases chars@.len() - i,
        {
            let c = chars[i];
            if !(('A' <= c && c <= 'Z') || ('a' <= c && c <= 'z') || c == ' ') {
                plain = false;
            }
            i += 1;
        }
        if plain {
            let mut out = String::new();
            self.enigma.encode_decode(self.input.clone(), &mut out);
            self.output = out;
        } else {
            self.output = String::from_str("Invalid input: Please enter only alphabetic characters.");
        }
    }

    /// Turns the rotors to the letters of `positions`, fastest first, each
    /// uppercased; see `apply_rotor_positions`.
    pub fn set_rotor_positions_from_string(&mut self, positions: &str)
        requires
            old(self).wf(),
        ensures
            final(self).wf(),
            final(self).input == old(self).input,
            final(self).rotor_positions_input == old(self).rotor_positions_input,
            final(self).plugboard_input == old(self).plugboard_input,
            final(self).show_help_bool == old(self).show_help_bool,
            ({
                let ups = upper_chars(positions@);
                let n = old(self).enigma@.rotors.len();
                &&& ups.len() != n ==> final(self).enigma@ == old(self).enigma@
                    && final(self).output@ == count_text(n as nat, ups.len() as nat)
                &&& ups.len() == n && (forall|j: int| 0 <= j < n ==> is_letter(#[trigger] ups[j]))
                    ==> final(self).enigma@ == with_positions(old(self).enigma@, ups, n as int)
                    && final(self).output@ == positions_set_text()
                &&& forall|k: int| 0 <= k < n && ups.len() == n && !is_letter(#[trigger] ups[k])
                    && (forall|j: int| 0 <= j < k ==> is_letter(#[trigger] ups[j]))
                    ==> final(self).enigma@ == with_positions(old(self).enigma@, ups, k)
                    && final(self).output@ == not_letter_text(ups[k])
            }),
    {
        let ghost ups = upper_chars(positions@);
        let raw = chars_of(positions);
        let mut upper: Vec<char> = Vec::new();
        let mut i: usize = 0;
        while i < raw.len()
            invariant
                i <= raw@.len(),
                raw@ == positions@,
                ups == upper_chars(positions@),
                upper@ == ups.take(i as int),
            decreases raw@.len() - i,
        {
            upper.push(first_upper(raw[i]));
            assert(ups[i as int] == upper_char_of(raw@[i as int]));
            assert(ups.take(i + 1) =~= ups.take(i as int).push(ups[i as int]));
            i += 1;
        }
        assert(upper@ == ups);
        self.apply_rotor_positions(&upper);
    }

    /// Turns the rotors to the letters of `upper`, fastest first. The count
    /// must match the rotors; on the first character that is not an uppercase
    /// letter the rotors before it keep their new letters and the rest their
    /// old ones.
    pub fn apply_rotor_positions(&mut self, upper: &Vec<char>)
        requires
            old(self).wf(),
        ensures
            final(self).wf(),
            final(self).input == old(self).input,
            final(self).rotor_positions_input == old(self).rotor_positions_input,
            final(self).plugboard_input == old(self).plugboard_input,
            final(self).show_help_bool == old(self).show_help_bool,
            ({
                let ups = upper@;
                let n = old(self).enigma@.rotors.len();
                &&& ups.len() != n ==> final(self).enigma@ == old(self).enigma@
                    && final(self).output@ == count_text(n as nat, ups.len() as nat)
                &&& ups.len() == n && (forall|j: int| 0 <= j < n ==> is_letter(#[trigger] ups[j]))
                    ==> final(self).enigma@ == with_positions(old(self).enigma@, ups, n as int)
                    && final(self).output@ == positions_set_text()
                &&& forall|k: int| 0 <= k < n && ups.len() == n && !is_letter(#[trigger] ups[k])
                    && (forall|j: int| 0 <= j < k ==> is_letter(#[trigger] ups[j]))
                    ==> final(self).enigma@ == with_positions(old(self).enigma@, ups, k)
                    && final(self).output@ == not_letter_text(ups[k])
            }),
    {
        let ghost ups = upper@;
        let n = self.enigma.rotor_count();
        if upper.len() != n {
            let mut msg: Vec<char> = Vec::new();
            push_str(&mut msg, "Invalid input: Expected ");
            push_decimal(&mut msg, n);
            push_str(&mut msg, " positions, got ");
            push_decimal(&mut msg, upper.len());
            push_str(&mut msg, ".");
            self.output = string_of(&msg);
            return;
        }
        let ghost m0 = self.enigma@;
        assert(with_positions(m0, ups, 0).rotors =~= m0.rotors);
        let mut k: usize = 0;
        while k < n
            invariant
                k <= n,
                n == m0.rotors.len(),
                upper@ == ups,
                ups.len() == n,
                self.wf(),
                self.enigma@ == with_positions(m0, ups, k as int),
                forall|j: int| 0 <= j < k ==> is_letter(#[trigger] ups[j]),
                self.input == old(self).input,
                self.rotor_positions_input == old(self).rotor_positions_input,
                self.plugboard_input == old(self).plugboard_input,
                self.show_help_bool == old(self).show_help_bool,
                m0 == old(self).enigma@,
            decreases n - k,
        {
            let c = upper[k];
            if 'A' <= c && c <= 'Z' {
                self.enigma.set_rotor_position(k, c);
                assert(self.enigma@.rotors =~= with_positions(m0, ups, k + 1).rotors);
            } else {
                let mut msg: Vec<char> = Vec::new();
                push_str(&mut msg, "Invalid input: ");
                msg.push(c);
                push_str(&mut msg, " is not an alphabetic character.");
                self.output = string_of(&msg);
                assert(!is_letter(ups[k as int]));
                assert forall|kk: int| 0 <= kk < n && !is_letter(#[trigger] ups[kk])
                    && (forall|j: int| 0 <= j < kk ==> is_letter(#[trigger] ups[j])) implies kk == k by {
                    if kk > k {
                        assert(is_letter(ups[k as int]));
                    }
                }
                return;
            }
            k += 1;
        }
        self.output = String::from_str("Rotor positions set.");
    }

    /// Replaces the plugboard with the pairs in `plugboard_input`, all at once,
    /// or reports the first word refused and keeps the old plugboard. An empty
    /// field changes nothing.
    pub fn update_plugboard_from_input(&mut self)
        requires
            old(self).wf(),
        ensures
            final(self).wf(),
            final(self).input == old(self).input,
            final(self).rotor_positions_input == old(self).rotor_positions_input,
            final(self).plugboard_input == old(self).plugboard_input,
            final(self).show_help_bool == old(self).show_help_bool,
            old(self).plugboard_input@.len() == 0 ==> final(self).enigma@ == old(self).enigma@
                && final(self).output == old(self).output,
            old(self).plugboard_input@.len() > 0 ==> match parse_pairs(words(old(self).plugboard_input@)) {
                Ok(ps) => final(self).enigma@ == (MachineModel { plugboard: table_of(ps), ..old(self).enigma@ })
                    && final(self).output@ == plugboard_set_text(),
                Err(e) => final(self).enigma@ == old(self).enigma@ && final(self).output@ == issue_text(e),
            },
    {
        if self.plugboard_input.as_str().unicode_len() == 0 {
            return;
        }
        match parse_plugboard(self.plugboard_input.as_str()) {
            Ok(pairs) => {
                let plugboard = Plugboard::new(pairs.as_slice());
                self.enigma.set_plugboard(plugboard);
                self.output = String::from_str("Plugboard set.");
            },
            Err(e) => {
                self.output = e.message();
            },
        }
    }
}

impl Default for EnigmaApp {
    /// The default configuration of `new`.
    fn default() -> (r: EnigmaApp)
        ensures
            r.wf(),
            r.enigma@.rotors.len() == 3,
            r.enigma@.rotors[0].wiring == ROTOR_I@ && r.enigma@.rotors[0].notch == 'Q',
            r.enigma@.rotors[1].wiring == ROTOR_II@ && r.enigma@.rotors[1].notch == 'E',
            r.enigma@.rotors[2].wiring == ROTOR_III@ && r.enigma@.rotors[2].notch == 'V',
            forall|i: int| 0 <= i < 3 ==> (#[trigger] r.enigma@.rotors[i]).position == 0,
            r.enigma@.reflector == REFLECTOR_B@,
            r.enigma@.plugboard == table_of(seq![('A', 'B'), ('C', 'D')]),
            r.input@.len() == 0,
            r.output@.len() == 0,
            r.rotor_positions_input@.len() == 0,
            r.plugboard_input@.len() == 0,
            !r.show_help_bool,
    {
        EnigmaApp::new()
    }
}

} // verus!
