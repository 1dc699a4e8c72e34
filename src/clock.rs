//! Integers modulo the alphabet size.
use vstd::prelude::*;

verus! {

/// An integer in `0..26` whose arithmetic wraps around modulo 26, as a
/// rotor's position does.
#[derive(Clone, Copy, Debug)]
pub struct ClockInt {
    value: u8,
}

impl View for ClockInt {
    type V = nat;

    closed spec fn view(&self) -> nat {
        self.value as nat
    }
}

impl ClockInt {
    #[verifier::type_invariant]
    closed spec fn inv(self) -> bool {
        self.value < 26
    }

    /// `value` taken modulo 26.
    pub fn new(value: u8) -> (r: ClockInt)
        ensures
            r@ == value % 26,
    {
        ClockInt { value: value % 26 }
    }

    /// The value, in `0..26`.
    pub fn value(&self) -> (r: u8)
        ensures
            r as nat == self@,
            r < 26,
    {
        proof {
            use_type_invariant(self);
        }
        self.value
    }

    /// The sum modulo 26.
    pub fn plus(self, rhs: u8) -> (r: ClockInt)
        ensures
            r@ == (self@ + rhs) % 26,
    {
        proof {
            use_type_invariant(&self);
        }
        let sum: u16 = self.value as u16 + rhs as u16;
        ClockInt { value: (sum % 26) as u8 }
    }

    /// The difference modulo 26, always in `0..26`.
    pub fn minus(self, rhs: u8) -> (r: ClockInt)
        ensures
            r@ == (self@ - rhs) % 26,
    {
        proof {
            use_type_invariant(&self);
        }
        let v: u8 = (self.value + 26 - rhs % 26) % 26;
        proof {
            let a = self.value as int;
            let b = rhs as int;
            assert((a + 26 - b % 26) % 26 == (a - b) % 26) by (nonlinear_arith)
                requires
                    0 <= a < 26,
                    0 <= b,
            {
                let q = b / 26;
                let m = b % 26;
                assert(b == 26 * q + m);
                assert(a - b == (a + 26 - m) + 26 * (-q - 1));
            }
        }
        ClockInt { value: v }
    }

    /// Moves one step forward, wrapping from 25 to 0.
    pub fn step(&mut self)
        ensures
            final(self)@ == (old(self)@ + 1) % 26,
    {
        *self = self.plus(1);
    }
}

impl From<u8> for ClockInt {
    fn from(value: u8) -> (r: ClockInt) {
        let r = ClockInt::new(value);
        assert(r == ClockInt { value: value % 26 });
        r
    }
}

impl vstd::std_specs::convert::FromSpecImpl<u8> for ClockInt {
    open spec fn obeys_from_spec() -> bool {
        true
    }

    closed spec fn from_spec(v: u8) -> ClockInt {
        ClockInt { value: v % 26 }
    }
}

impl core::ops::Add<u8> for ClockInt {
    type Output = ClockInt;

    fn add(self, rhs: u8) -> (r: ClockInt) {
        self.plus(rhs)
    }
}

impl vstd::std_specs::ops::AddSpecImpl<u8> for ClockInt {
    open spec fn obeys_add_spec() -> bool {
        true
    }

    open spec fn add_req(self, rhs: u8) -> bool {
        true
    }

    closed spec fn add_spec(self, rhs: u8) -> ClockInt {
        ClockInt { value: ((self.value + rhs) % 26) as u8 }
    }
}

impl core::ops::Add<ClockInt> for ClockInt {
    type Output = ClockInt;

    fn add(self, rhs: ClockInt) -> (r: ClockInt) {
        let v = rhs.value();
        self.plus(v)
    }
}

impl vstd::std_specs::ops::AddSpecImpl<ClockInt> for ClockInt {
    open spec fn obeys_add_spec() -> bool {
        true
    }

    open spec fn add_req(self, rhs: ClockInt) -> bool {
        true
    }

    closed spec fn add_spec(self, rhs: ClockInt) -> ClockInt {
        ClockInt { value: ((self.value + rhs.value) % 26) as u8 }
    }
}

impl core::ops::Sub<u8> for ClockInt {
    type Output = ClockInt;

    fn sub(self, rhs: u8) -> (r: ClockInt) {
        self.minus(rhs)
    }
}

impl vstd::std_specs::ops::SubSpecImpl<u8> for ClockInt {
    open spec fn obeys_sub_spec() -> bool {
        true
    }

    open spec fn sub_req(self, rhs: u8) -> bool {
        true
    }

    closed spec fn sub_spec(self, rhs: u8) -> ClockInt {
        ClockInt { value: ((self.value - rhs) % 26) as u8 }
    }
}

impl core::ops::Sub<ClockInt> for ClockInt {
    type Output = ClockInt;

    fn sub(self, rhs: ClockInt) -> (r: ClockInt) {
        let v = rhs.value();
        self.minus(v)
    }
}

impl vstd::std_specs::ops::SubSpecImpl<ClockInt> for ClockInt {
    open spec fn obeys_sub_spec() -> bool {
        true
    }

    open spec fn sub_req(self, rhs: ClockInt) -> bool {
        true
    }

    closed spec fn sub_spec(self, rhs: ClockInt) -> ClockInt {
        ClockInt { value: ((self.value - rhs.value) % 26) as u8 }
    }
}

impl core::ops::AddAssign<u8> for ClockInt {
    fn add_assign(&mut self, rhs: u8)
        ensures
            final(self)@ == (old(self)@ + rhs) % 26,
    {
        *self = self.plus(rhs);
    }
}

/// Converting from `u8` takes the value modulo 26.
pub proof fn lemma_from_value(v: u8)
    ensures
        <ClockInt as vstd::std_specs::convert::FromSpec<u8>>::from_spec(v)@ == v % 26,
{
}

/// Adding wraps around modulo 26.
pub proof fn lemma_add_value(a: ClockInt, b: u8, c: ClockInt)
    ensures
        <ClockInt as vstd::std_specs::ops::AddSpec<u8>>::add_spec(a, b)@ == (a@ + b) % 26,
        <ClockInt as vstd::std_specs::ops::AddSpec<ClockInt>>::add_spec(a, c)@ == (a@ + c@) % 26,
{
}

/// Subtracting wraps around modulo 26, always giving a value in `0..26`.
pub proof fn lemma_sub_value(a: ClockInt, b: u8, c: ClockInt)
    ensures
        <ClockInt as vstd::std_specs::ops::SubSpec<u8>>::sub_spec(a, b)@ == (a@ - b) % 26,
        <ClockInt as vstd::std_specs::ops::SubSpec<ClockInt>>::sub_spec(a, c)@ == (a@ - c@) % 26,
{
}

} // verus!
