//! The interface shared by the parts that a signal passes through.
use vstd::prelude::*;

verus! {

/// A part of the machine that maps a symbol to a symbol on the way in
/// (`forward`) and on the way back from the reflector (`backward`).
pub trait Component {
    /// The part is in a valid state.
    spec fn well_formed(&self) -> bool;

    /// The image of `letter` on the way in.
    spec fn image(&self, letter: u8) -> u8;

    /// The image of `letter` on the way back.
    spec fn preimage(&self, letter: u8) -> u8;

    /// The two directions undo each other.
    proof fn lemma_directions_inverse(&self, letter: u8)
        requires
            self.well_formed(),
            letter < 26,
        ensures
            self.image(letter) < 26,
            self.preimage(letter) < 26,
            self.preimage(self.image(letter)) == letter,
            self.image(self.preimage(letter)) == letter,
    ;

    /// Maps `letter` on the way in.
    fn forward(&self, letter: u8) -> (r: u8)
        requires
            self.well_formed(),
            letter < 26,
        ensures
            r == self.image(letter),
            r < 26,
    ;

    /// Maps `letter` on the way back.
    fn backward(&self, letter: u8) -> (r: u8)
        requires
            self.well_formed(),
            letter < 26,
        ensures
            r == self.preimage(letter),
            r < 26,
    ;
}

} // verus!
