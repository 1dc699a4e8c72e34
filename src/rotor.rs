//! Rotors: rotating permutations with a ring setting and notches.
use crate::alphabet::{
    are_inverse, encoding_to_wiring, identity_table, identity_wiring, invert_wiring, is_encoding, is_permutation,
    is_permutation_table, is_table, same_text, table_of_encoding,
};
use crate::clock::ClockInt;
use crate::component::Component;
use crate::error::ConfigError;
use vstd::prelude::*;

verus! {

/// The eight classical rotors.
#[derive(Debug, Clone, Copy, PartialEq, Eq, Structural)]
pub enum RotorName {
    One,
    Two,
    Three,
    Four,
    Five,
    Six,
    Seven,
    Eight,
}

/// The rotor that a name (`"I"` to `"VIII"`) stands for, if any.
pub open spec fn rotor_name_of(s: Seq<char>) -> Option<RotorName> {
    if s == seq!['I'] {
        Some(RotorName::One)
    } else if s == seq!['I', 'I'] {
        Some(RotorName::Two)
    } else if s == seq!['I', 'I', 'I'] {
        Some(RotorName::Three)
    } else if s == seq!['I', 'V'] {
        Some(RotorName::Four)
    } else if s == seq!['V'] {
        Some(RotorName::Five)
    } else if s == seq!['V', 'I'] {
        Some(RotorName::Six)
    } else if s == seq!['V', 'I', 'I'] {
        Some(RotorName::Seven)
    } else if s == seq!['V', 'I', 'I', 'I'] {
        Some(RotorName::Eight)
    } else {
        None
    }
}

impl RotorName {
    /// The rotor's wiring: entry `i` is the image of symbol `i`.
    pub open spec fn table(self) -> Seq<u8> {
        match self {
            // EKMFLGDQVZNTOWYHXUSPAIBRCJ
            RotorName::One => seq![4u8, 10, 12, 5, 11, 6, 3, 16, 21, 25, 13, 19, 14, 22, 24, 7, 23, 20, 18, 15, 0, 8, 1, 17, 2, 9],
            // AJDKSIRUXBLHWTMCQGZNPYFVOE
            RotorName::Two => seq![0u8, 9, 3, 10, 18, 8, 17, 20, 23, 1, 11, 7, 22, 19, 12, 2, 16, 6, 25, 13, 15, 24, 5, 21, 14, 4],
            // BDFHJLCPRTXVZNYEIWGAKMUSQO
            RotorName::Three => seq![1u8, 3, 5, 7, 9, 11, 2, 15, 17, 19, 23, 21, 25, 13, 24, 4, 8, 22, 6, 0, 10, 12, 20, 18, 16, 14],
            // ESOVPZJAYQUIRHXLNFTGKDCMWB
            RotorName::Four => seq![4u8, 18, 14, 21, 15, 25, 9, 0, 24, 16, 20, 8, 17, 7, 23, 11, 13, 5, 19, 6, 10, 3, 2, 12, 22, 1],
            // VZBRGITYUPSDNHLXAWMJQOFECK
            RotorName::Five => seq![21u8, 25, 1, 17, 6, 8, 19, 24, 20, 15, 18, 3, 13, 7, 11, 23, 0, 22, 12, 9, 16, 14, 5, 4, 2, 10],
            // JPGVOUMFYQBENHZRDKASXLICTW
            RotorName::Six => seq![9u8, 15, 6, 21, 14, 20, 12, 5, 24, 16, 1, 4, 13, 7, 25, 17, 3, 10, 0, 18, 23, 11, 8, 2, 19, 22],
            // NZJHGRCXMYSWBOUFAIVLPEKQDT
            RotorName::Seven => seq![13u8, 25, 9, 7, 6, 17, 2, 23, 12, 24, 18, 22, 1, 14, 20, 5, 0, 8, 21, 11, 15, 4, 10, 16, 3, 19],
            // FKQHTLXOCBJSPDZRAMEWNIUYGV
            RotorName::Eight => seq![5u8, 10, 16, 7, 19, 11, 23, 14, 2, 1, 9, 18, 15, 3, 25, 17, 0, 12, 4, 22, 13, 8, 20, 24, 6, 21],
        }
    }

    /// The positions at which the rotor makes its neighbour step.
    pub open spec fn notches(self) -> Seq<u8> {
        match self {
            RotorName::One => seq![16u8],
            RotorName::Two => seq![4u8],
            RotorName::Three => seq![21u8],
            RotorName::Four => seq![9u8],
            RotorName::Five => seq![25u8],
            _ => seq![25u8, 12],
        }
    }

    /// Every classical rotor's wiring is a permutation.
    pub proof fn lemma_table_is_permutation(self)
        ensures
            is_permutation(self.table()),
    {
        match self {
            RotorName::One => {},
            RotorName::Two => {},
            RotorName::Three => {},
            RotorName::Four => {},
            RotorName::Five => {},
            RotorName::Six => {},
            RotorName::Seven => {},
            RotorName::Eight => {},
        }
    }

    /// Reads a rotor name, `"I"` to `"VIII"`.
    pub fn from_name(name: &str) -> (r: Option<RotorName>)
        ensures
            r == rotor_name_of(name@),
    {
        proof {
            reveal_strlit("I");
            reveal_strlit("II");
            reveal_strlit("III");
            reveal_strlit("IV");
            reveal_strlit("V");
            reveal_strlit("VI");
            reveal_strlit("VII");
            reveal_strlit("VIII");
            assert("I"@ =~= seq!['I']);
            assert("II"@ =~= seq!['I', 'I']);
            assert("III"@ =~= seq!['I', 'I', 'I']);
            assert("IV"@ =~= seq!['I', 'V']);
            assert("V"@ =~= seq!['V']);
            assert("VI"@ =~= seq!['V', 'I']);
            assert("VII"@ =~= seq!['V', 'I', 'I']);
            assert("VIII"@ =~= seq!['V', 'I', 'I', 'I']);
        }
        if same_text(name, "I") {
            Some(RotorName::One)
        } else if same_text(name, "II") {
            Some(RotorName::Two)
        } else if same_text(name, "III") {
            Some(RotorName::Three)
        } else if same_text(name, "IV") {
            Some(RotorName::Four)
        } else if same_text(name, "V") {
            Some(RotorName::Five)
        } else if same_text(name, "VI") {
            Some(RotorName::Six)
        } else if same_text(name, "VII") {
            Some(RotorName::Seven)
        } else if same_text(name, "VIII") {
            Some(RotorName::Eight)
        } else {
            None
        }
    }

    /// The rotor's wiring table.
    pub fn wiring(self) -> (r: [u8; 26])
        ensures
            r@ == self.table(),
    {
        let r: [u8; 26] = match self {
            RotorName::One => [4, 10, 12, 5, 11, 6, 3, 16, 21, 25, 13, 19, 14, 22, 24, 7, 23, 20, 18, 15, 0, 8, 1, 17, 2, 9],
            RotorName::Two => [0, 9, 3, 10, 18, 8, 17, 20, 23, 1, 11, 7, 22, 19, 12, 2, 16, 6, 25, 13, 15, 24, 5, 21, 14, 4],
            RotorName::Three => [1, 3, 5, 7, 9, 11, 2, 15, 17, 19, 23, 21, 25, 13, 24, 4, 8, 22, 6, 0, 10, 12, 20, 18, 16, 14],
            RotorName::Four => [4, 18, 14, 21, 15, 25, 9, 0, 24, 16, 20, 8, 17, 7, 23, 11, 13, 5, 19, 6, 10, 3, 2, 12, 22, 1],
            RotorName::Five => [21, 25, 1, 17, 6, 8, 19, 24, 20, 15, 18, 3, 13, 7, 11, 23, 0, 22, 12, 9, 16, 14, 5, 4, 2, 10],
            RotorName::Six => [9, 15, 6, 21, 14, 20, 12, 5, 24, 16, 1, 4, 13, 7, 25, 17, 3, 10, 0, 18, 23, 11, 8, 2, 19, 22],
            RotorName::Seven => [13, 25, 9, 7, 6, 17, 2, 23, 12, 24, 18, 22, 1, 14, 20, 5, 0, 8, 21, 11, 15, 4, 10, 16, 3, 19],
            RotorName::Eight => [5, 10, 16, 7, 19, 11, 23, 14, 2, 1, 9, 18, 15, 3, 25, 17, 0, 12, 4, 22, 13, 8, 20, 24, 6, 21],
        };
        assert(r@ =~= self.table());
        r
    }

    /// The rotor's notch positions.
    pub fn notch_list(self) -> (r: Vec<u8>)
        ensures
            r@ == self.notches(),
    {
        let r = match self {
            RotorName::One => vec![16u8],
            RotorName::Two => vec![4u8],
            RotorName::Three => vec![21u8],
            RotorName::Four => vec![9u8],
            RotorName::Five => vec![25u8],
            _ => vec![25u8, 12],
        };
        assert(r@ =~= self.notches());
        r
    }
}

/// The shift between a rotor's wiring and the letters outside it.
pub open spec fn shift_of(position: nat, ring_setting: nat) -> int {
    (position - ring_setting) % 26
}

/// Passes `x` through `table` turned by `shift`.
pub open spec fn encipher(table: Seq<u8>, shift: int, x: u8) -> u8 {
    ((table[(x + shift) % 26] - shift) % 26) as u8
}

/// What a rotor is: its wiring both ways, its position, ring setting and notches.
pub struct RotorView {
    pub wiring: Seq<u8>,
    pub inverse_wiring: Seq<u8>,
    pub position: nat,
    pub ring_setting: nat,
    pub notches: Seq<u8>,
}

impl RotorView {
    /// The wiring is a permutation, the inverse wiring undoes it, and all
    /// positions are in `0..26`.
    pub open spec fn wf(self) -> bool {
        &&& is_permutation(self.wiring)
        &&& are_inverse(self.wiring, self.inverse_wiring)
        &&& self.position < 26
        &&& self.ring_setting < 26
        &&& forall|i: int| 0 <= i < self.notches.len() ==> #[trigger] self.notches[i] < 26
    }

    /// The image of `x` on the way in.
    pub open spec fn forward(self, x: u8) -> u8 {
        encipher(self.wiring, shift_of(self.position, self.ring_setting), x)
    }

    /// The image of `x` on the way back.
    pub open spec fn backward(self, x: u8) -> u8 {
        encipher(self.inverse_wiring, shift_of(self.position, self.ring_setting), x)
    }

    /// The rotor stands at one of its notches.
    pub open spec fn at_notch(self) -> bool {
        exists|i: int| 0 <= i < self.notches.len() && self.notches[i] as nat == self.position
    }

    /// The rotor is classical rotor `n` at `position` with `ring_setting`.
    pub open spec fn is_classical(self, n: RotorName, position: nat, ring_setting: nat) -> bool {
        &&& self.wf()
        &&& self.wiring == n.table()
        &&& self.notches == n.notches()
        &&& self.position == position
        &&& self.ring_setting == ring_setting
    }

    /// The rotor after one step.
    pub open spec fn turned(self) -> RotorView {
        RotorView { position: (self.position + 1) % 26, ..self }
    }
}

/// Shifting into the wiring and back gives the symbol back.
proof fn lemma_shift_round_trip(v: int, s: int)
    requires
        0 <= v < 26,
        0 <= s < 26,
    ensures
        ((v - s) % 26 + s) % 26 == v,
        ((v + s) % 26 - s) % 26 == v,
{
    if v >= s {
        assert((v - s) % 26 == v - s);
    } else {
        assert((v - s) % 26 == v - s + 26);
    }
    if v + s >= 26 {
        assert((v + s) % 26 == v + s - 26);
    } else {
        assert((v + s) % 26 == v + s);
    }
}

/// For a rotor at any fixed position and ring setting, the way back undoes
/// the way in, and the way in undoes the way back.
pub proof fn lemma_rotor_round_trip(r: RotorView, x: u8)
    requires
        r.wf(),
        x < 26,
    ensures
        r.forward(x) < 26,
        r.backward(x) < 26,
        r.backward(r.forward(x)) == x,
        r.forward(r.backward(x)) == x,
{
    let s = shift_of(r.position, r.ring_setting);
    let a = (x + s) % 26;
    lemma_shift_round_trip(x as int, s);
    lemma_shift_round_trip(r.wiring[a] as int, s);
    lemma_shift_round_trip(r.inverse_wiring[a] as int, s);
    lemma_shift_round_trip(a, s);
}

/// A rotor: a wiring that turns with the rotor's position, offset by the ring
/// setting, with notches that make the next rotor inward step.
#[derive(Debug)]
pub struct Rotor {
    position: ClockInt,
    ring_setting: ClockInt,
    wiring: [u8; 26],
    inverse_wiring: [u8; 26],
    notch_positions: Vec<u8>,
}

impl View for Rotor {
    type V = RotorView;

    closed spec fn view(&self) -> RotorView {
        RotorView {
            wiring: self.wiring@,
            inverse_wiring: self.inverse_wiring@,
            position: self.position@,
            ring_setting: self.ring_setting@,
            notches: self.notch_positions@,
        }
    }
}

impl Rotor {
    /// One of the classical rotors `"I"` to `"VIII"`, at `raw_position` and
    /// with `raw_ring_setting`, both taken modulo 26.
    ///
    /// Fails with `UnknownRotor` for any other name.
    pub fn new(name: &str, raw_position: u8, raw_ring_setting: u8) -> (r: Result<Rotor, ConfigError>)
        ensures
            r is Ok <==> rotor_name_of(name@) is Some,
            r is Err ==> r->Err_0 == ConfigError::UnknownRotor,
            r is Ok ==> r->Ok_0@.is_classical(
                rotor_name_of(name@)->Some_0,
                (raw_position % 26) as nat,
                (raw_ring_setting % 26) as nat,
            ),
    {
        let rotor_name = match RotorName::from_name(name) {
            Some(n) => n,
            None => return Err(ConfigError::UnknownRotor),
        };
        let wiring = rotor_name.wiring();
        proof {
            rotor_name.lemma_table_is_permutation();
        }
        let notch_positions = rotor_name.notch_list();
        let inverse_wiring = invert_wiring(wiring);
        Ok(Rotor {
            position: ClockInt::new(raw_position),
            ring_setting: ClockInt::new(raw_ring_setting),
            wiring,
            inverse_wiring,
            notch_positions,
        })
    }

    /// A rotor with the wiring that `encoding` spells (26 letters, each once)
    /// and the given notches, at `position` and with `ring_setting`, both
    /// taken modulo 26.
    ///
    /// Fails with `MalformedEncoding` unless the encoding is a permutation of
    /// the letters and every notch is below 26.
    pub fn with_wiring(encoding: &str, position: u8, ring_setting: u8, notch_positions: Vec<u8>) -> (r: Result<Rotor, ConfigError>)
        ensures
            r is Ok <==> {
                &&& is_encoding(encoding@)
                &&& is_permutation(table_of_encoding(encoding@))
                &&& forall|i: int| 0 <= i < notch_positions@.len() ==> #[trigger] notch_positions@[i] < 26
            },
            r is Err ==> r->Err_0 == ConfigError::MalformedEncoding,
            r is Ok ==> {
                &&& r->Ok_0@.wf()
                &&& r->Ok_0@.wiring == table_of_encoding(encoding@)
                &&& r->Ok_0@.notches == notch_positions@
                &&& r->Ok_0@.position == position % 26
                &&& r->Ok_0@.ring_setting == ring_setting % 26
            },
    {
        let wiring = match encoding_to_wiring(encoding) {
            Ok(w) => w,
            Err(e) => return Err(e),
        };
        proof {
            assert forall|i: int| 0 <= i < 26 implies #[trigger] wiring@[i] < 26 by {
                assert(wiring@[i] == crate::alphabet::symbol_of(encoding@[i]));
                assert(crate::alphabet::is_letter(encoding@[i]));
            }
        }
        if !is_permutation_table(&wiring) {
            return Err(ConfigError::MalformedEncoding);
        }
        let mut i: usize = 0;
        while i < notch_positions.len()
            invariant
                i <= notch_positions@.len(),
                forall|k: int| 0 <= k < i ==> #[trigger] notch_positions@[k] < 26,
            decreases notch_positions@.len() - i,
        {
            if notch_positions[i] >= 26 {
                return Err(ConfigError::MalformedEncoding);
            }
            i = i + 1;
        }
        let inverse_wiring = invert_wiring(wiring);
        Ok(Rotor {
            position: ClockInt::new(position),
            ring_setting: ClockInt::new(ring_setting),
            wiring,
            inverse_wiring,
            notch_positions,
        })
    }

    /// The rotor's position, in `0..26`.
    pub fn position(&self) -> (r: u8)
        ensures
            r as nat == self@.position,
    {
        self.position.value()
    }

    /// The rotor's ring setting, in `0..26`.
    pub fn ring_setting(&self) -> (r: u8)
        ensures
            r as nat == self@.ring_setting,
    {
        self.ring_setting.value()
    }

    /// Whether the rotor stands at one of its notches.
    pub fn at_notch(&self) -> (r: bool)
        ensures
            r == self@.at_notch(),
    {
        let p = self.position.value();
        let mut i: usize = 0;
        while i < self.notch_positions.len()
            invariant
                i <= self.notch_positions@.len(),
                p as nat == self@.position,
                forall|k: int| 0 <= k < i ==> self.notch_positions@[k] != p,
            decreases self.notch_positions@.len() - i,
        {
            if self.notch_positions[i] == p {
                assert(self@.notches[i as int] as nat == self@.position);
                return true;
            }
            i = i + 1;
        }
        false
    }

    /// Steps the rotor one position forward, wrapping from 25 to 0.
    pub fn turnover(&mut self)
        ensures
            final(self)@ == old(self)@.turned(),
    {
        self.position.step();
    }

    /// Passes `letter` through `wiring` at the rotor's current shift.
    fn encipher(&self, wiring: &[u8; 26], letter: u8) -> (r: u8)
        requires
            self@.wf(),
            is_table(wiring@),
            letter < 26,
        ensures
            r == encipher(wiring@, shift_of(self@.position, self@.ring_setting), letter),
            r < 26,
    {
        let shift = self.position.minus(self.ring_setting.value()).value();
        let index = (letter + shift) % 26;
        let w = wiring[index as usize];
        proof {
            lemma_shift_round_trip(w as int, shift as int);
        }
        (w + 26 - shift) % 26
    }
}

impl Default for Rotor {
    /// A rotor with the identity wiring at position 0, ring setting 0, and
    /// one notch at 0.
    fn default() -> (r: Rotor)
        ensures
            r@.wf(),
            r@.wiring == identity_table(),
            r@.notches == seq![0u8],
            r@.position == 0,
            r@.ring_setting == 0,
    {
        let wiring = identity_wiring();
        let inverse_wiring = invert_wiring(wiring);
        let notch_positions = vec![0u8];
        assert(notch_positions@ =~= seq![0u8]);
        Rotor {
            position: ClockInt::new(0),
            ring_setting: ClockInt::new(0),
            wiring,
            inverse_wiring,
            notch_positions,
        }
    }
}

impl Component for Rotor {
    open spec fn well_formed(&self) -> bool {
        self@.wf()
    }

    open spec fn image(&self, letter: u8) -> u8 {
        self@.forward(letter)
    }

    open spec fn preimage(&self, letter: u8) -> u8 {
        self@.backward(letter)
    }

    proof fn lemma_directions_inverse(&self, letter: u8) {
        lemma_rotor_round_trip(self@, letter);
    }

    fn forward(&self, letter: u8) -> (r: u8) {
        self.encipher(&self.wiring, letter)
    }

    fn backward(&self, letter: u8) -> (r: u8) {
        self.encipher(&self.inverse_wiring, letter)
    }
}

} // verus!
