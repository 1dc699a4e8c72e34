//! Reflectors: fixed involutions that send the signal back through the rotors.
use crate::alphabet::{
    encoding_to_wiring, identity_table, identity_wiring, is_encoding, is_involution,
    is_involution_table, table_of_encoding,
};
use crate::component::Component;
use crate::error::ConfigError;
use vstd::prelude::*;

verus! {

/// Reflector A, `EJMZALYXVBWFCRQUONTSPIKHGD`.
pub open spec fn table_a() -> Seq<u8> {
    seq![4u8, 9, 12, 25, 0, 11, 24, 23, 21, 1, 22, 5, 2, 17, 16, 20, 14, 13, 19, 18, 15, 8, 10, 7, 6, 3]
}

/// Reflector B, `YRUHQSLDPXNGOKMIEBFZCWVJAT`.
pub open spec fn table_b() -> Seq<u8> {
    seq![24u8, 17, 20, 7, 16, 18, 11, 3, 15, 23, 13, 6, 14, 10, 12, 8, 4, 1, 5, 25, 2, 22, 21, 9, 0, 19]
}

/// Reflector C, `FVPJIAOYEDRZXWGCTKUQSBNMHL`.
pub open spec fn table_c() -> Seq<u8> {
    seq![5u8, 21, 15, 9, 8, 0, 14, 24, 4, 3, 17, 25, 23, 22, 6, 2, 19, 10, 20, 16, 18, 1, 13, 12, 7, 11]
}

/// The table of the reflector that a kind names: `A`, `B`, `C`, or `I` for
/// the identity, in either case.
pub open spec fn reflector_table_of(kind: Seq<char>) -> Option<Seq<u8>> {
    if kind == seq!['A'] || kind == seq!['a'] {
        Some(table_a())
    } else if kind == seq!['B'] || kind == seq!['b'] {
        Some(table_b())
    } else if kind == seq!['C'] || kind == seq!['c'] {
        Some(table_c())
    } else if kind == seq!['I'] || kind == seq!['i'] {
        Some(identity_table())
    } else {
        None
    }
}

/// A reflector: a table that is its own inverse.
#[derive(Debug)]
pub struct Reflector {
    wiring: [u8; 26],
}

impl View for Reflector {
    type V = Seq<u8>;

    closed spec fn view(&self) -> Seq<u8> {
        self.wiring@
    }
}

impl Reflector {
    /// The reflector of a kind: `A`, `B`, `C`, or `I` for the identity, in
    /// either case.
    ///
    /// Fails with `UnknownReflector` for any other kind.
    pub fn new(reflector_type: &str) -> (r: Result<Reflector, ConfigError>)
        ensures
            r is Ok <==> reflector_table_of(reflector_type@) is Some,
            r is Err ==> r->Err_0 == ConfigError::UnknownReflector,
            r is Ok ==> r->Ok_0@ == reflector_table_of(reflector_type@)->Some_0,
            r is Ok ==> is_involution(r->Ok_0@),
    {
        if reflector_type.unicode_len() != 1 {
            return Err(ConfigError::UnknownReflector);
        }
        let c = reflector_type.get_char(0);
        assert(reflector_type@ =~= seq![c]);
        if c == 'A' || c == 'a' {
            Ok(Reflector::a())
        } else if c == 'B' || c == 'b' {
            Ok(Reflector::b())
        } else if c == 'C' || c == 'c' {
            Ok(Reflector::c())
        } else if c == 'I' || c == 'i' {
            Ok(Reflector::identity())
        } else {
            Err(ConfigError::UnknownReflector)
        }
    }

    /// The reflector that `encoding` spells.
    ///
    /// Fails with `MalformedEncoding` unless the encoding is 26 letters that
    /// describe a table which is its own inverse.
    pub fn from_encoding(encoding: &str) -> (r: Result<Reflector, ConfigError>)
        ensures
            r is Ok <==> is_encoding(encoding@) && is_involution(table_of_encoding(encoding@)),
            r is Err ==> r->Err_0 == ConfigError::MalformedEncoding,
            r is Ok ==> r->Ok_0@ == table_of_encoding(encoding@),
    {
        let wiring = match encoding_to_wiring(encoding) {
            Ok(w) => w,
            Err(e) => return Err(e),
        };
        proof {
            assert forall|i: int| 0 <= i < 26 implies #[trigger] wiring@[i] < 26 by {
                assert(crate::alphabet::is_letter(encoding@[i]));
            }
        }
        if !is_involution_table(&wiring) {
            return Err(ConfigError::MalformedEncoding);
        }
        Ok(Reflector { wiring })
    }

    /// Reflector A.
    pub fn a() -> (r: Reflector)
        ensures
            r@ == table_a(),
            is_involution(r@),
    {
        let wiring: [u8; 26] = [4, 9, 12, 25, 0, 11, 24, 23, 21, 1, 22, 5, 2, 17, 16, 20, 14, 13, 19, 18, 15, 8, 10, 7, 6, 3];
        assert(wiring@ =~= table_a());
        Reflector { wiring }
    }

    /// Reflector B.
    pub fn b() -> (r: Reflector)
        ensures
            r@ == table_b(),
            is_involution(r@),
    {
        let wiring: [u8; 26] = [24, 17, 20, 7, 16, 18, 11, 3, 15, 23, 13, 6, 14, 10, 12, 8, 4, 1, 5, 25, 2, 22, 21, 9, 0, 19];
        assert(wiring@ =~= table_b());
        Reflector { wiring }
    }

    /// Reflector C.
    pub fn c() -> (r: Reflector)
        ensures
            r@ == table_c(),
            is_involution(r@),
    {
        let wiring: [u8; 26] = [5, 21, 15, 9, 8, 0, 14, 24, 4, 3, 17, 25, 23, 22, 6, 2, 19, 10, 20, 16, 18, 1, 13, 12, 7, 11];
        assert(wiring@ =~= table_c());
        Reflector { wiring }
    }

    /// The identity reflector, which sends every letter back as itself.
    pub fn identity() -> (r: Reflector)
        ensures
            r@ == identity_table(),
            is_involution(r@),
    {
        Reflector { wiring: identity_wiring() }
    }

    /// The reflector's table.
    pub fn wiring(&self) -> (r: [u8; 26])
        ensures
            r@ == self@,
    {
        self.wiring
    }
}

impl Default for Reflector {
    /// The identity table: every letter maps to itself.
    fn default() -> (r: Reflector)
        ensures
            r@ == identity_table(),
            is_involution(r@),
    {
        Reflector { wiring: identity_wiring() }
    }
}

impl Component for Reflector {
    open spec fn well_formed(&self) -> bool {
        is_involution(self@)
    }

    open spec fn image(&self, letter: u8) -> u8 {
        self@[letter as int]
    }

    open spec fn preimage(&self, letter: u8) -> u8 {
        self@[letter as int]
    }

    proof fn lemma_directions_inverse(&self, letter: u8) {
    }

    fn forward(&self, letter: u8) -> (r: u8) {
        self.wiring[letter as usize]
    }

    fn backward(&self, letter: u8) -> (r: u8) {
        self.wiring[letter as usize]
    }
}

} // verus!
