use enigma::console::{parse_plugboard, split_words, EnigmaApp, PlugboardError};

#[test]
fn new_console_defaults() {
    let app = EnigmaApp::new();
    assert_eq!(app.enigma.rotor_positions(), vec!['A', 'A', 'A']);
    assert_eq!(app.input, "");
    assert_eq!(app.output, "");
    assert!(!app.show_help_bool);
    let d = EnigmaApp::default();
    assert_eq!(d.enigma.rotor_count(), 3);
}

#[test]
fn encode_with_default_plugboard() {
    let mut app = EnigmaApp::new();
    app.input = "Hello World".to_string();
    app.encode();
    assert_eq!(app.output, "EBYHMBXSNG");
    assert_eq!(app.enigma.rotor_positions(), vec!['K', 'A', 'A']);
}

#[test]
fn encode_rejects_other_characters() {
    let mut app = EnigmaApp::new();
    app.input = "Hello, World".to_string();
    app.encode();
    assert_eq!(app.output, "Invalid input: Please enter only alphabetic characters.");
    assert_eq!(app.enigma.rotor_positions(), vec!['A', 'A', 'A']);
}

#[test]
fn encode_then_decode_from_same_positions() {
    let mut app = EnigmaApp::new();
    app.set_rotor_positions_from_string("mcy");
    app.input = "meet me at noon".to_string();
    app.encode();
    let cipher = app.output.clone();
    app.set_rotor_positions_from_string("MCY");
    app.input = cipher;
    app.encode();
    assert_eq!(app.output, "MEETMEATNOON");
}

#[test]
fn set_positions_uppercases() {
    let mut app = EnigmaApp::new();
    app.set_rotor_positions_from_string("bcd");
    assert_eq!(app.output, "Rotor positions set.");
    assert_eq!(app.enigma.rotor_positions(), vec!['B', 'C', 'D']);
}

#[test]
fn set_positions_wrong_count() {
    let mut app = EnigmaApp::new();
    app.set_rotor_positions_from_string("AB");
    assert_eq!(app.output, "Invalid input: Expected 3 positions, got 2.");
    app.set_rotor_positions_from_string("ABCDEFGHIJKL");
    assert_eq!(app.output, "Invalid input: Expected 3 positions, got 12.");
    app.set_rotor_positions_from_string("");
    assert_eq!(app.output, "Invalid input: Expected 3 positions, got 0.");
    assert_eq!(app.enigma.rotor_positions(), vec!['A', 'A', 'A']);
}

#[test]
fn set_positions_stops_at_non_letter() {
    let mut app = EnigmaApp::new();
    app.set_rotor_positions_from_string("X1Z");
    assert_eq!(app.output, "Invalid input: 1 is not an alphabetic character.");
    assert_eq!(app.enigma.rotor_positions(), vec!['X', 'A', 'A']);
}

#[test]
fn plugboard_self_pair_rejected() {
    let mut app = EnigmaApp::new();
    app.plugboard_input = "AA".to_string();
    app.update_plugboard_from_input();
    assert_eq!(app.output, "Invalid plugboard configuration: duplicate letters or invalid pair 'AA'.");
    app.input = "HELLOWORLD".to_string();
    app.encode();
    assert_eq!(app.output, "EBYHMBXSNG");
}

#[test]
fn plugboard_reused_letter_rejected() {
    let mut app = EnigmaApp::new();
    app.plugboard_input = "AB AC".to_string();
    app.update_plugboard_from_input();
    assert_eq!(app.output, "Invalid plugboard configuration: duplicate letters or invalid pair 'AC'.");
}

#[test]
fn plugboard_bad_word_rejected() {
    let mut app = EnigmaApp::new();
    app.plugboard_input = "AB CDE".to_string();
    app.update_plugboard_from_input();
    assert_eq!(app.output, "Invalid input: Plugboard pairs must be exactly 2 letters. 'CDE' is invalid.");
    app.plugboard_input = "A1".to_string();
    app.update_plugboard_from_input();
    assert_eq!(app.output, "Invalid input: Plugboard pairs must be exactly 2 letters. 'A1' is invalid.");
}

#[test]
fn plugboard_replaced_as_a_whole() {
    let mut app = EnigmaApp::new();
    app.plugboard_input = "  xy\tQW  ".to_string();
    app.update_plugboard_from_input();
    assert_eq!(app.output, "Plugboard set.");
    app.input = "X".to_string();
    app.encode();
    let mut fresh = EnigmaApp::new();
    fresh.plugboard_input = "XY QW".to_string();
    fresh.update_plugboard_from_input();
    fresh.input = "X".to_string();
    fresh.encode();
    assert_eq!(app.output, fresh.output);
}

#[test]
fn empty_plugboard_field_changes_nothing() {
    let mut app = EnigmaApp::new();
    app.output = "kept".to_string();
    app.update_plugboard_from_input();
    assert_eq!(app.output, "kept");
}

#[test]
fn parse_pairs_in_order() {
    match parse_plugboard("ab CD ez") {
        Ok(v) => assert_eq!(v, vec![('A', 'B'), ('C', 'D'), ('E', 'Z')]),
        Err(_) => panic!("pairs refused"),
    }
    match parse_plugboard("   ") {
        Ok(v) => assert!(v.is_empty()),
        Err(_) => panic!("blank refused"),
    }
}

#[test]
fn parse_reports_first_problem() {
    match parse_plugboard("AB BA X") {
        Err(PlugboardError::Reused(a, b)) => assert_eq!((a, b), ('B', 'A')),
        _ => panic!("expected a reused letter"),
    }
    match parse_plugboard("ABC AA") {
        Err(e) => assert_eq!(e.message(), "Invalid input: Plugboard pairs must be exactly 2 letters. 'ABC' is invalid."),
        Ok(_) => panic!("expected a refusal"),
    }
}

#[test]
fn words_split_on_whitespace() {
    let ws = split_words(" AB\u{a0}CD\n\nEF ");
    assert_eq!(ws, vec![vec!['A', 'B'], vec!['C', 'D'], vec!['E', 'F']]);
    assert!(split_words("").is_empty());
}

#[test]
fn apply_positions_given_uppercase() {
    let mut app = EnigmaApp::new();
    app.apply_rotor_positions(&vec!['P', 'D', 'A']);
    assert_eq!(app.output, "Rotor positions set.");
    assert_eq!(app.enigma.rotor_positions(), vec!['P', 'D', 'A']);
    app.enigma.rotate_rotors();
    app.enigma.rotate_rotors();
    assert_eq!(app.enigma.rotor_positions(), vec!['R', 'F', 'C']);
}

#[test]
fn apply_positions_stops_at_first_bad() {
    let mut app = EnigmaApp::new();
    app.apply_rotor_positions(&vec!['B', '1', 'C']);
    assert_eq!(app.output, "Invalid input: 1 is not an alphabetic character.");
    assert_eq!(app.enigma.rotor_positions(), vec!['B', 'A', 'A']);
    app.apply_rotor_positions(&vec!['Q', 'R', 'x']);
    assert_eq!(app.output, "Invalid input: x is not an alphabetic character.");
    assert_eq!(app.enigma.rotor_positions(), vec!['Q', 'R', 'A']);
}

#[test]
fn apply_positions_wrong_count() {
    let mut app = EnigmaApp::new();
    app.apply_rotor_positions(&vec!['A', 'B', 'C', 'D']);
    assert_eq!(app.output, "Invalid input: Expected 3 positions, got 4.");
    assert_eq!(app.enigma.rotor_positions(), vec!['A', 'A', 'A']);
}

#[test]
fn default_fields_empty() {
    let d = EnigmaApp::default();
    assert_eq!(d.rotor_positions_input, "");
    assert_eq!(d.plugboard_input, "");
}
