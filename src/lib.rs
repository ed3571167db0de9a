//! A simulator of a three-rotor cipher machine: rotors with stepping and
//! double-stepping, a reflector, and a plugboard, verified with Verus.

pub mod alphabet;
pub mod rotor;
pub mod plugboard;
pub mod text;
pub mod machine;
pub mod console;
