use vstd::prelude::*;

verus! {

/// Why a configuration was refused. All errors of the library are detected
/// while a machine or one of its parts is built; enciphering never fails.
#[derive(Debug, Clone, Copy, PartialEq, Eq, Structural)]
pub enum ConfigError {
    /// A rotor name that is not one of `I` to `VIII`.
    UnknownRotor,
    /// A reflector kind that is not one of `A`, `B`, `C` or `I` (identity).
    UnknownReflector,
    /// A plugboard connection that is not exactly two letters.
    MalformedPair,
    /// A letter that takes part in more than one plugboard connection.
    DuplicateLetter,
    /// A machine given no rotor at all.
    RotorCount,
    /// A wiring encoding that is not 26 letters, or not of the required shape.
    MalformedEncoding,
}

impl ConfigError {
    /// A short human-readable description of the error.
    pub fn message(&self) -> (r: &'static str)
        ensures
            r@.len() > 0,
    {
        proof {
            reveal_strlit("rotor name must be a roman numeral from I to VIII");
            reveal_strlit("reflector type must be one of A, B, C or I");
            reveal_strlit("plugboard connection is not a pair of letters");
            reveal_strlit("plugboard letter is used in more than one connection");
            reveal_strlit("a machine needs at least one rotor");
            reveal_strlit("wiring encoding is not a valid table of 26 letters");
        }
        match self {
            ConfigError::UnknownRotor => "rotor name must be a roman numeral from I to VIII",
            ConfigError::UnknownReflector => "reflector type must be one of A, B, C or I",
            ConfigError::MalformedPair => "plugboard connection is not a pair of letters",
            ConfigError::DuplicateLetter => "plugboard letter is used in more than one connection",
            ConfigError::RotorCount => "a machine needs at least one rotor",
            ConfigError::MalformedEncoding => "wiring encoding is not a valid table of 26 letters",
        }
    }
}

} // verus!
