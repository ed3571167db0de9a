use enigma::console::{REFLECTOR_B, ROTOR_I, ROTOR_II, ROTOR_III};
use enigma::machine::EnigmaMachine;

fn fresh(pairs: &[(char, char)]) -> EnigmaMachine {
    EnigmaMachine::new(vec![(ROTOR_I, 'Q'), (ROTOR_II, 'E'), (ROTOR_III, 'V')], REFLECTOR_B, pairs)
}

fn run(machine: &mut EnigmaMachine, text: &str) -> String {
    let mut out = String::new();
    machine.encode_decode(text.to_string(), &mut out);
    out
}

#[test]
fn known_answer_hello_world() {
    let mut m = fresh(&[]);
    assert_eq!(run(&mut m, "HELLOWORLD"), "EAYHMAXSNN");
}

#[test]
fn known_answer_repeated_letter() {
    let mut m = fresh(&[]);
    assert_eq!(run(&mut m, "AAAAA"), "NEVRD");
}

#[test]
fn known_answer_with_plugboard_and_lowercase() {
    let mut m = fresh(&[('A', 'B'), ('C', 'D')]);
    assert_eq!(run(&mut m, "Hello World"), "EBYHMBXSNG");
}

#[test]
fn self_reciprocal_round_trip() {
    let plain = "THEQUICKBROWNFOXJUMPSOVERTHELAZYDOG";
    let mut first = fresh(&[('A', 'B'), ('C', 'D'), ('X', 'Q')]);
    let cipher = run(&mut first, plain);
    assert_ne!(cipher, plain);
    let mut second = fresh(&[('A', 'B'), ('C', 'D'), ('X', 'Q')]);
    assert_eq!(run(&mut second, &cipher), plain);
}

#[test]
fn self_reciprocal_from_set_positions() {
    let mut first = fresh(&[]);
    first.set_rotor_position(0, 'P');
    first.set_rotor_position(1, 'D');
    first.set_rotor_position(2, 'Z');
    let cipher = run(&mut first, "ATTACKATDAWN");
    let mut second = fresh(&[]);
    second.set_rotor_position(0, 'P');
    second.set_rotor_position(1, 'D');
    second.set_rotor_position(2, 'Z');
    assert_eq!(run(&mut second, &cipher), "ATTACKATDAWN");
}

#[test]
fn no_letter_maps_to_itself() {
    let mut m = fresh(&[]);
    let plain = "ABCDEFGHIJKLMNOPQRSTUVWXYZ";
    let cipher = run(&mut m, plain);
    assert_eq!(cipher.len(), 26);
    for (p, c) in plain.chars().zip(cipher.chars()) {
        assert_ne!(p, c);
    }
}

#[test]
fn other_characters_are_skipped() {
    let mut a = fresh(&[]);
    let mut b = fresh(&[]);
    assert_eq!(run(&mut a, "hello, world! 42"), run(&mut b, "HELLOWORLD"));
}

#[test]
fn empty_input_gives_empty_output() {
    let mut m = fresh(&[]);
    assert_eq!(run(&mut m, ""), "");
    assert_eq!(m.rotor_positions(), vec!['A', 'A', 'A']);
}

#[test]
fn encode_uppercased_skips_lowercase() {
    let mut a = fresh(&[]);
    let mut b = fresh(&[]);
    assert_eq!(a.encode_uppercased("HEllo"), b.encode_uppercased("HE"));
}

#[test]
fn stepping_after_each_letter() {
    let mut m = fresh(&[]);
    run(&mut m, "AAAAAAAAAAAAAAAAAAAAAAAAAAAAAA");
    assert_eq!(m.rotor_positions(), vec!['E', 'B', 'A']);
}

#[test]
fn fastest_rotor_carries_at_its_notch() {
    let mut m = fresh(&[]);
    m.set_rotor_position(0, 'P');
    m.rotate_rotors();
    assert_eq!(m.rotor_positions(), vec!['Q', 'B', 'A']);
    m.rotate_rotors();
    assert_eq!(m.rotor_positions(), vec!['R', 'B', 'A']);
}

#[test]
fn middle_rotor_reaching_notch_steps_slowest() {
    let mut m = fresh(&[]);
    m.set_rotor_position(0, 'P');
    m.set_rotor_position(1, 'D');
    m.rotate_rotors();
    assert_eq!(m.rotor_positions(), vec!['Q', 'E', 'B']);
    m.rotate_rotors();
    assert_eq!(m.rotor_positions(), vec!['R', 'F', 'C']);
    m.rotate_rotors();
    assert_eq!(m.rotor_positions(), vec!['S', 'F', 'C']);
}

#[test]
fn middle_rotor_parked_on_notch() {
    let mut m = fresh(&[]);
    m.set_rotor_position(1, 'E');
    m.rotate_rotors();
    assert_eq!(m.rotor_positions(), vec!['B', 'F', 'B']);
    m.rotate_rotors();
    assert_eq!(m.rotor_positions(), vec!['C', 'F', 'B']);
}

#[test]
fn double_step_on_slowest_notch_too() {
    let mut m = fresh(&[]);
    m.set_rotor_position(1, 'E');
    m.set_rotor_position(2, 'U');
    m.rotate_rotors();
    assert_eq!(m.rotor_positions(), vec!['B', 'F', 'V']);
}

#[test]
fn no_double_step_with_two_rotors() {
    let mut m = EnigmaMachine::new(vec![(ROTOR_I, 'Q'), (ROTOR_II, 'E')], REFLECTOR_B, &[]);
    m.set_rotor_position(1, 'E');
    m.rotate_rotors();
    assert_eq!(m.rotor_positions(), vec!['B', 'E']);
}

#[test]
fn single_rotor_machine() {
    let mut m = EnigmaMachine::new(vec![(ROTOR_I, 'Q')], REFLECTOR_B, &[]);
    assert_eq!(m.rotor_count(), 1);
    let cipher = run(&mut m, "SECRET");
    let mut again = EnigmaMachine::new(vec![(ROTOR_I, 'Q')], REFLECTOR_B, &[]);
    assert_eq!(run(&mut again, &cipher), "SECRET");
}
