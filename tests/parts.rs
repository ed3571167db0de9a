use enigma::alphabet::Alphabet;
use enigma::console::ROTOR_I;
use enigma::plugboard::Plugboard;
use enigma::rotor::Rotor;

#[test]
fn alphabet_conversions() {
    assert_eq!(Alphabet::char_to_index('A'), 0);
    assert_eq!(Alphabet::char_to_index('Z'), 25);
    assert_eq!(Alphabet::index_to_char(0), 'A');
    assert_eq!(Alphabet::index_to_char(25), 'Z');
    assert_eq!(Alphabet::index_to_char(26), 'A');
    assert_eq!(Alphabet::index_to_char(53), 'B');
}

#[test]
fn rotor_forward_at_start() {
    let r = Rotor::new(ROTOR_I, 'Q');
    assert_eq!(r.position(), 0);
    assert_eq!(r.encode_forward('A'), 'E');
    assert_eq!(r.encode_forward('Z'), 'J');
    assert_eq!(r.encode_backward('E'), 'A');
}

#[test]
fn rotor_forward_with_offset() {
    let mut r = Rotor::new(ROTOR_I, 'Q');
    r.set_position('B');
    assert_eq!(r.position(), 1);
    assert_eq!(r.encode_forward('A'), 'K');
    assert_eq!(r.encode_backward('K'), 'A');
    assert_eq!(r.encode_forward('Z'), 'E');
}

#[test]
fn rotor_inverse_every_position_and_letter() {
    let mut r = Rotor::new(ROTOR_I, 'Q');
    for p in 0..26usize {
        r.set_position(Alphabet::index_to_char(p));
        for i in 0..26usize {
            let c = Alphabet::index_to_char(i);
            assert_eq!(r.encode_backward(r.encode_forward(c)), c);
            assert_eq!(r.encode_forward(r.encode_backward(c)), c);
        }
    }
}

#[test]
fn notch_detection_from_p_to_q() {
    let mut r = Rotor::new(ROTOR_I, 'Q');
    r.set_position('P');
    assert!(r.rotate());
    assert_eq!(r.position(), 16);
    assert!(!r.rotate());
}

#[test]
fn notch_detection_every_other_transition() {
    let mut r = Rotor::new(ROTOR_I, 'Q');
    for p in 0..26usize {
        r.set_position(Alphabet::index_to_char(p));
        assert_eq!(r.rotate(), p == 15);
    }
}

#[test]
fn rotor_wraps_from_z_to_a() {
    let mut r = Rotor::new(ROTOR_I, 'A');
    r.set_position('Z');
    assert!(r.rotate());
    assert_eq!(r.position(), 0);
}

#[test]
fn plugboard_swaps_both_ways() {
    let p = Plugboard::new(&[('A', 'B'), ('C', 'D')]);
    assert_eq!(p.swap('A'), 'B');
    assert_eq!(p.swap('B'), 'A');
    assert_eq!(p.swap('C'), 'D');
    assert_eq!(p.swap('D'), 'C');
    assert_eq!(p.swap('E'), 'E');
    assert_eq!(p.swap('z'), 'z');
}

#[test]
fn plugboard_involution_all_letters() {
    let p = Plugboard::new(&[('Q', 'W'), ('E', 'R'), ('T', 'Z')]);
    for i in 0..26usize {
        let c = Alphabet::index_to_char(i);
        assert_eq!(p.swap(p.swap(c)), c);
    }
    assert_eq!(p.swap('M'), 'M');
}

#[test]
fn empty_plugboard_is_identity() {
    let p = Plugboard::new(&[]);
    for i in 0..26usize {
        let c = Alphabet::index_to_char(i);
        assert_eq!(p.swap(c), c);
    }
}
