//! A verified simulation of the three-rotor Enigma cipher machine.
//!
//! The machine is built from a plugboard, three rotors chosen among the eight
//! classical ones, and a reflector. Every table is a permutation of the 26
//! letters, the plugboard and the reflector are involutions, and enciphering a
//! message twice with identically configured machines gives the message back.
use vstd::prelude::*;

pub mod alphabet;
pub mod clock;
pub mod component;
pub mod error;
pub mod machine;
pub mod plugboard;
pub mod reflector;
pub mod rotor;

pub use alphabet::{
    char_to_wire, encoding_to_wiring, identity_wiring, invert_wiring, wire_to_char,
    wiring_to_encoding, ALPHABET_SIZE,
};
pub use clock::ClockInt;
pub use component::Component;
pub use error::ConfigError;
pub use machine::{Machine, MachineView};
pub use plugboard::Plugboard;
pub use reflector::Reflector;
pub use rotor::{Rotor, RotorName, RotorView};
