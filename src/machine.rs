//! The machine: stepping, the signal path, and whole messages.
use crate::alphabet::{
    char_to_wire, is_involution, is_letter, is_permutation, is_upper, lemma_involution_is_permutation,
    lemma_inverse_unique, lemma_upper_letters, push_char, symbol_of, upper_of, wire_to_char,
};
use crate::component::Component;
use crate::error::ConfigError;
use crate::plugboard::{plugboard_table, split_words, Plugboard};
use crate::reflector::{reflector_table_of, Reflector};
use crate::rotor::{lemma_rotor_round_trip, rotor_name_of, Rotor, RotorView};
use vstd::prelude::*;

verus! {

/// What a machine is: its rotors, left to right, its reflector table and
/// its plugboard table.
pub struct MachineView {
    pub rotors: Seq<RotorView>,
    pub reflector: Seq<u8>,
    pub plugboard: Seq<u8>,
}

/// Every rotor of `rs` is well formed.
pub open spec fn all_wf(rs: Seq<RotorView>) -> bool {
    forall|i: int| 0 <= i < rs.len() ==> (#[trigger] rs[i]).wf()
}

impl MachineView {
    /// There is at least one rotor, every part is well formed, and the
    /// reflector and the plugboard are involutions.
    pub open spec fn wf(self) -> bool {
        &&& self.rotors.len() >= 1
        &&& all_wf(self.rotors)
        &&& is_involution(self.reflector)
        &&& is_involution(self.plugboard)
    }

    /// Two machines are set up alike: same number of rotors with the same
    /// wirings, notches, positions and ring settings, same reflector and
    /// plugboard.
    pub open spec fn same_settings(self, other: MachineView) -> bool {
        &&& self.rotors.len() == other.rotors.len()
        &&& forall|i: int| 0 <= i < self.rotors.len() ==> same_rotor_settings(#[trigger] self.rotors[i], other.rotors[i])
        &&& self.reflector == other.reflector
        &&& self.plugboard == other.plugboard
    }
}

/// Two rotors have the same wiring, notches, position and ring setting.
pub open spec fn same_rotor_settings(a: RotorView, b: RotorView) -> bool {
    &&& a.wiring == b.wiring
    &&& a.notches == b.notches
    &&& a.position == b.position
    &&& a.ring_setting == b.ring_setting
}

/// Whether rotor `i` steps in the next round. With the rightmost rotor as
/// the fast one and the one left of it as the middle one, notches are read
/// before any rotor moves: if the middle rotor is at a notch, it and the
/// rotor to its left step (the double step); otherwise, if the rightmost
/// rotor is at a notch, the middle rotor steps. The rightmost rotor always
/// steps.
pub open spec fn steps(m: MachineView, i: int) -> bool {
    let n = m.rotors.len() as int;
    let middle_at_notch = n >= 2 && m.rotors[n - 2].at_notch();
    let right_at_notch = m.rotors[n - 1].at_notch();
    ||| i == n - 1
    ||| middle_at_notch && (i == n - 2 || i == n - 3)
    ||| !middle_at_notch && right_at_notch && i == n - 2
}

/// One round of stepping.
pub open spec fn rotate(m: MachineView) -> MachineView {
    MachineView {
        rotors: Seq::new(
            m.rotors.len(),
            |i: int|
                if steps(m, i) {
                    m.rotors[i].turned()
                } else {
                    m.rotors[i]
                },
        ),
        ..m
    }
}

/// `n` rounds of stepping.
pub open spec fn rotate_n(m: MachineView, n: nat) -> MachineView
    decreases n,
{
    if n == 0 {
        m
    } else {
        rotate(rotate_n(m, (n - 1) as nat))
    }
}

/// `x` passed through the rotors `rs` on the way in, from the rightmost to
/// the leftmost.
pub open spec fn forward_through(rs: Seq<RotorView>, x: u8) -> u8
    decreases rs.len(),
{
    if rs.len() == 0 {
        x
    } else {
        rs[0].forward(forward_through(rs.drop_first(), x))
    }
}

/// `x` passed through the rotors `rs` on the way back, from the leftmost to
/// the rightmost.
pub open spec fn backward_through(rs: Seq<RotorView>, x: u8) -> u8
    decreases rs.len(),
{
    if rs.len() == 0 {
        x
    } else {
        backward_through(rs.drop_first(), rs[0].backward(x))
    }
}

/// The signal path of symbol `x`: plugboard, rotors right to left,
/// reflector, rotors left to right, plugboard.
pub open spec fn signal(m: MachineView, x: u8) -> u8 {
    let a = m.plugboard[x as int];
    let d = forward_through(m.rotors, a);
    let e = m.reflector[d as int];
    let h = backward_through(m.rotors, e);
    m.plugboard[h as int]
}

/// The number of letters in `s`.
pub open spec fn letter_count(s: Seq<char>) -> nat
    decreases s.len(),
{
    if s.len() == 0 {
        0
    } else {
        letter_count(s.drop_last()) + if is_letter(s.last()) {
            1nat
        } else {
            0nat
        }
    }
}

/// What enciphering `msg` on machine `m` gives, and the machine afterwards.
/// A letter steps the rotors and is then sent along the signal path; its
/// image comes out in upper case. Any other character comes out unchanged
/// and moves nothing.
pub open spec fn encrypt_spec(m: MachineView, msg: Seq<char>) -> (Seq<char>, MachineView)
    decreases msg.len(),
{
    if msg.len() == 0 {
        (seq![], m)
    } else {
        let (out, m1) = encrypt_spec(m, msg.drop_last());
        let c = msg.last();
        if is_letter(c) {
            let m2 = rotate(m1);
            (out.push(upper_of(signal(m2, symbol_of(c)))), m2)
        } else {
            (out.push(c), m1)
        }
    }
}

/// Stepping keeps a machine well formed.
pub proof fn lemma_rotate_wf(m: MachineView)
    requires
        m.wf(),
    ensures
        rotate(m).wf(),
{
    let r = rotate(m);
    assert forall|i: int| 0 <= i < r.rotors.len() implies (#[trigger] r.rotors[i]).wf() by {
        assert(m.rotors[i].wf());
    }
}

/// In a well-formed machine every rotor wiring is a permutation, and the
/// reflector and the plugboard are permutations that are their own inverse.
pub proof fn lemma_tables_are_permutations(m: MachineView)
    requires
        m.wf(),
    ensures
        forall|i: int| 0 <= i < m.rotors.len() ==> is_permutation(#[trigger] m.rotors[i].wiring),
        is_permutation(m.reflector) && is_involution(m.reflector),
        is_permutation(m.plugboard) && is_involution(m.plugboard),
{
    assert forall|i: int| 0 <= i < m.rotors.len() implies is_permutation(#[trigger] m.rotors[i].wiring) by {
        assert(m.rotors[i].wf());
    }
    lemma_involution_is_permutation(m.reflector);
    lemma_involution_is_permutation(m.plugboard);
}

/// Through any sequence of well-formed rotors, the way back undoes the way
/// in and the way in undoes the way back.
pub proof fn lemma_rotors_round_trip(rs: Seq<RotorView>, x: u8)
    requires
        all_wf(rs),
        x < 26,
    ensures
        forward_through(rs, x) < 26,
        backward_through(rs, x) < 26,
        backward_through(rs, forward_through(rs, x)) == x,
        forward_through(rs, backward_through(rs, x)) == x,
    decreases rs.len(),
{
    if rs.len() > 0 {
        let rest = rs.drop_first();
        assert forall|i: int| 0 <= i < rest.len() implies (#[trigger] rest[i]).wf() by {
            assert(rest[i] == rs[i + 1]);
        }
        assert(rs[0].wf());
        lemma_rotors_round_trip(rest, x);
        let y = forward_through(rest, x);
        lemma_rotor_round_trip(rs[0], y);
        lemma_rotor_round_trip(rs[0], x);
        let z = rs[0].backward(x);
        lemma_rotors_round_trip(rest, z);
    }
}

/// The signal path is its own inverse, and yields a symbol.
pub proof fn lemma_signal_involution(m: MachineView, x: u8)
    requires
        m.wf(),
        x < 26,
    ensures
        signal(m, x) < 26,
        signal(m, signal(m, x)) == x,
{
    let a = m.plugboard[x as int];
    let d = forward_through(m.rotors, a);
    lemma_rotors_round_trip(m.rotors, a);
    let e = m.reflector[d as int];
    lemma_rotors_round_trip(m.rotors, e);
    let h = backward_through(m.rotors, e);
    let y = m.plugboard[h as int];
    assert(m.plugboard[y as int] == h);
    assert(m.reflector[e as int] == d);
}

/// Enciphering keeps every non-letter in place, turns every letter into an
/// upper-case letter, and steps the machine once per letter and never for
/// anything else.
pub proof fn lemma_encrypt_shape(m: MachineView, msg: Seq<char>)
    requires
        m.wf(),
    ensures
        ({
            let (out, mf) = encrypt_spec(m, msg);
            &&& out.len() == msg.len()
            &&& forall|i: int| 0 <= i < msg.len() && !is_letter(msg[i]) ==> #[trigger] out[i] == msg[i]
            &&& forall|i: int| 0 <= i < msg.len() && is_letter(msg[i]) ==> is_upper(#[trigger] out[i])
            &&& letter_count(out) == letter_count(msg)
            &&& mf == rotate_n(m, letter_count(msg))
            &&& mf.wf()
        }),
    decreases msg.len(),
{
    if msg.len() > 0 {
        let rest = msg.drop_last();
        lemma_encrypt_shape(m, rest);
        let (out1, m1) = encrypt_spec(m, rest);
        let (out, mf) = encrypt_spec(m, msg);
        let c = msg.last();
        assert(out.drop_last() =~= out1);
        if is_letter(c) {
            lemma_rotate_wf(m1);
            let s = signal(rotate(m1), symbol_of(c));
            lemma_signal_involution(rotate(m1), symbol_of(c));
            lemma_upper_letters(s, c);
        }
        assert forall|i: int| 0 <= i < msg.len() && !is_letter(msg[i]) implies #[trigger] out[i] == msg[i] by {
            if i < rest.len() {
                assert(out[i] == out1[i]);
                assert(msg[i] == rest[i]);
            }
        }
        assert forall|i: int| 0 <= i < msg.len() && is_letter(msg[i]) implies is_upper(#[trigger] out[i]) by {
            if i < rest.len() {
                assert(out[i] == out1[i]);
                assert(msg[i] == rest[i]);
            }
        }
    }
}

/// A message whose letters are all upper case comes back unchanged when
/// its ciphertext is enciphered again on a machine set up alike.
pub proof fn lemma_reciprocity(m1: MachineView, m2: MachineView, msg: Seq<char>)
    requires
        m1.wf(),
        m2.wf(),
        m1.same_settings(m2),
        forall|i: int| 0 <= i < msg.len() && is_letter(msg[i]) ==> is_upper(#[trigger] msg[i]),
    ensures
        encrypt_spec(m2, encrypt_spec(m1, msg).0).0 == msg,
{
    assert forall|i: int| 0 <= i < m1.rotors.len() implies #[trigger] m1.rotors[i] == m2.rotors[i] by {
        assert(m1.rotors[i].wf());
        assert(m2.rotors[i].wf());
        assert(same_rotor_settings(m1.rotors[i], m2.rotors[i]));
        lemma_inverse_unique(m1.rotors[i].wiring, m1.rotors[i].inverse_wiring, m2.rotors[i].inverse_wiring);
    }
    assert(m1.rotors =~= m2.rotors);
    assert(m1 == m2);
    lemma_round_trip(m1, msg);
}

/// Enciphering twice on one starting state gives back any message whose
/// letters are upper case.
proof fn lemma_round_trip(m: MachineView, msg: Seq<char>)
    requires
        m.wf(),
        forall|i: int| 0 <= i < msg.len() && is_letter(msg[i]) ==> is_upper(#[trigger] msg[i]),
    ensures
        encrypt_spec(m, encrypt_spec(m, msg).0).0 == msg,
    decreases msg.len(),
{
    if msg.len() > 0 {
        let rest = msg.drop_last();
        assert forall|i: int| 0 <= i < rest.len() && is_letter(rest[i]) implies is_upper(#[trigger] rest[i]) by {
            assert(rest[i] == msg[i]);
        }
        lemma_round_trip(m, rest);
        let (out1, m1) = encrypt_spec(m, rest);
        let (out, mf) = encrypt_spec(m, msg);
        assert(out.drop_last() =~= out1);
        lemma_encrypt_shape(m, rest);
        lemma_encrypt_shape(m, out1);
        let c = msg.last();
        assert(is_letter(c) ==> is_upper(c));
        if is_letter(c) {
            let m2 = rotate(m1);
            lemma_rotate_wf(m1);
            let x = symbol_of(c);
            lemma_upper_letters(0, c);
            lemma_signal_involution(m2, x);
            lemma_upper_letters(signal(m2, x), c);
        }
        assert(encrypt_spec(m, out).0 =~= msg);
    }
}

/// The machine: rotors, left to right, a reflector and a plugboard.
pub struct Machine {
    rotors: Vec<Rotor>,
    reflector: Reflector,
    plugboard: Plugboard,
}

impl View for Machine {
    type V = MachineView;

    closed spec fn view(&self) -> MachineView {
        MachineView {
            rotors: self.rotors@.map_values(|r: Rotor| r@),
            reflector: self.reflector@,
            plugboard: self.plugboard@,
        }
    }
}

impl Machine {
    /// A machine with the named rotors (left, middle, right; each `"I"` to
    /// `"VIII"`), their ring settings and initial positions (each taken
    /// modulo 26), a reflector kind (`A`, `B`, `C`, or `I` for the
    /// identity), and whitespace-separated plugboard connections such as
    /// `"AB DE"`.
    ///
    /// Fails with `UnknownRotor` if any rotor name is unknown; otherwise with
    /// `UnknownReflector` if the reflector kind is unknown; otherwise with the
    /// plugboard's error, if any.
    pub fn new(
        rotors: (&str, &str, &str),
        ring_settings: (usize, usize, usize),
        rotor_positions: (usize, usize, usize),
        reflector_type: &str,
        plugboard_connections: &str,
    ) -> (r: Result<Machine, ConfigError>)
        ensures
            ({
                let rotors_known = rotor_name_of(rotors.0@) is Some && rotor_name_of(rotors.1@) is Some
                    && rotor_name_of(rotors.2@) is Some;
                let reflector_known = reflector_table_of(reflector_type@) is Some;
                let plugs = plugboard_table(split_words(plugboard_connections@));
                &&& r is Ok <==> rotors_known && reflector_known && plugs is Ok
                &&& !rotors_known ==> r == Err::<Machine, ConfigError>(ConfigError::UnknownRotor)
                &&& rotors_known && !reflector_known ==> r == Err::<Machine, ConfigError>(
                    ConfigError::UnknownReflector,
                )
                &&& rotors_known && reflector_known && plugs is Err ==> r == Err::<Machine, ConfigError>(
                    plugs->Err_0,
                )
                &&& r is Ok ==> {
                    let v = r->Ok_0@;
                    &&& v.wf()
                    &&& v.rotors.len() == 3
                    &&& v.rotors[0].is_classical(
                        rotor_name_of(rotors.0@)->Some_0,
                        (rotor_positions.0 % 26) as nat,
                        (ring_settings.0 % 26) as nat,
                    )
                    &&& v.rotors[1].is_classical(
                        rotor_name_of(rotors.1@)->Some_0,
                        (rotor_positions.1 % 26) as nat,
                        (ring_settings.1 % 26) as nat,
                    )
                    &&& v.rotors[2].is_classical(
                        rotor_name_of(rotors.2@)->Some_0,
                        (rotor_positions.2 % 26) as nat,
                        (ring_settings.2 % 26) as nat,
                    )
                    &&& v.reflector == reflector_table_of(reflector_type@)->Some_0
                    &&& v.plugboard == plugs->Ok_0
                }
            }),
    {
        let left = Rotor::new(rotors.0, (rotor_positions.0 % 26) as u8, (ring_settings.0 % 26) as u8);
        let middle = Rotor::new(rotors.1, (rotor_positions.1 % 26) as u8, (ring_settings.1 % 26) as u8);
        let right = Rotor::new(rotors.2, (rotor_positions.2 % 26) as u8, (ring_settings.2 % 26) as u8);
        let (left, middle, right) = match (left, middle, right) {
            (Ok(l), Ok(m), Ok(r)) => (l, m, r),
            _ => return Err(ConfigError::UnknownRotor),
        };
        let reflector = match Reflector::new(reflector_type) {
            Ok(r) => r,
            Err(e) => return Err(e),
        };
        let plugboard = match Plugboard::from_connections(plugboard_connections) {
            Ok(p) => p,
            Err(e) => return Err(e),
        };
        let ghost views = seq![left@, middle@, right@];
        let rotors = vec![left, middle, right];
        assert(rotors@.map_values(|r: Rotor| r@) =~= views);
        Ok(Machine { rotors, reflector, plugboard })
    }

    /// A machine from rotors given left to right, any number of them, a
    /// reflector and a plugboard.
    ///
    /// Fails with `RotorCount` when there is no rotor.
    pub fn from_parts(rotors: Vec<Rotor>, reflector: Reflector, plugboard: Plugboard) -> (r: Result<Machine, ConfigError>)
        requires
            forall|i: int| 0 <= i < rotors@.len() ==> (#[trigger] rotors@[i])@.wf(),
            is_involution(reflector@),
            is_involution(plugboard@),
        ensures
            r is Err <==> rotors@.len() == 0,
            r is Err ==> r->Err_0 == ConfigError::RotorCount,
            r is Ok ==> r->Ok_0@ == (MachineView {
                rotors: rotors@.map_values(|r: Rotor| r@),
                reflector: reflector@,
                plugboard: plugboard@,
            }),
            r is Ok ==> r->Ok_0@.wf(),
    {
        if rotors.len() == 0 {
            return Err(ConfigError::RotorCount);
        }
        let m = Machine { rotors, reflector, plugboard };
        assert(all_wf(m@.rotors)) by {
            assert forall|i: int| 0 <= i < m@.rotors.len() implies (#[trigger] m@.rotors[i]).wf() by {
                assert(m@.rotors[i] == m.rotors@[i]@);
            }
        }
        Ok(m)
    }

    /// The rotor positions, left to right.
    pub fn positions(&self) -> (r: Vec<u8>)
        ensures
            r@.len() == self@.rotors.len(),
            forall|i: int| 0 <= i < r@.len() ==> #[trigger] r@[i] as nat == self@.rotors[i].position,
    {
        let mut r: Vec<u8> = Vec::new();
        let mut i: usize = 0;
        while i < self.rotors.len()
            invariant
                i <= self.rotors@.len(),
                r@.len() == i,
                forall|k: int| 0 <= k < i ==> #[trigger] r@[k] as nat == self@.rotors[k].position,
            decreases self.rotors@.len() - i,
        {
            r.push(self.rotors[i].position());
            i = i + 1;
        }
        r
    }

    /// Steps rotor `i`.
    fn turn(&mut self, i: usize)
        requires
            i < old(self)@.rotors.len(),
        ensures
            final(self)@ == (MachineView {
                rotors: old(self)@.rotors.update(i as int, old(self)@.rotors[i as int].turned()),
                ..old(self)@
            }),
    {
        let ghost before = self.rotors@;
        let mut rotor = self.rotors.remove(i);
        rotor.turnover();
        self.rotors.insert(i, rotor);
        assert(self.rotors@ == before.update(i as int, rotor));
        assert(self@.rotors =~= old(self)@.rotors.update(i as int, old(self)@.rotors[i as int].turned()));
    }

    /// One round of stepping, before a letter is enciphered.
    fn rotate(&mut self)
        requires
            old(self)@.wf(),
        ensures
            final(self)@ == rotate(old(self)@),
    {
        let ghost start = self@;
        let n = self.rotors.len();
        assert(self.rotors@[n - 1]@ == start.rotors[n - 1]);
        let middle_at_notch = if n >= 2 {
            assert(self.rotors@[n - 2]@ == start.rotors[n - 2]);
            self.rotors[n - 2].at_notch()
        } else {
            false
        };
        let right_at_notch = self.rotors[n - 1].at_notch();
        if middle_at_notch {
            self.turn(n - 2);
            if n >= 3 {
                self.turn(n - 3);
            }
        } else if right_at_notch && n >= 2 {
            self.turn(n - 2);
        }
        self.turn(n - 1);
        assert(self@.rotors =~= rotate(start).rotors);
    }

    /// Sends symbol `x` along the signal path.
    fn encipher(&self, x: u8) -> (r: u8)
        requires
            self@.wf(),
            x < 26,
        ensures
            r == signal(self@, x),
            r < 26,
    {
        let ghost rs = self@.rotors;
        let n = self.rotors.len();
        let mut l = self.plugboard.forward(x);
        let ghost a = l;
        let mut i: usize = n;
        while i > 0
            invariant
                n == rs.len(),
                rs == self@.rotors,
                all_wf(rs),
                i <= n,
                l < 26,
                l == forward_through(rs.subrange(i as int, n as int), a),
            decreases i,
        {
            i = i - 1;
            assert(rs.subrange(i as int, n as int).drop_first() =~= rs.subrange(i + 1, n as int));
            assert(self.rotors@[i as int]@ == rs[i as int]);
            assert(rs[i as int].wf());
            l = self.rotors[i].forward(l);
        }
        assert(rs.subrange(0, n as int) =~= rs);
        l = self.reflector.forward(l);
        let ghost e = l;
        while i < n
            invariant
                n == rs.len(),
                rs == self@.rotors,
                all_wf(rs),
                i <= n,
                l < 26,
                backward_through(rs.subrange(i as int, n as int), l) == backward_through(rs, e),
            decreases n - i,
        {
            assert(rs.subrange(i as int, n as int).drop_first() =~= rs.subrange(i + 1, n as int));
            assert(self.rotors@[i as int]@ == rs[i as int]);
            assert(rs[i as int].wf());
            l = self.rotors[i].backward(l);
            i = i + 1;
        }
        self.plugboard.backward(l)
    }

    /// Enciphers `message`, which also deciphers it on a machine set up
    /// alike. Each letter, in either case, steps the rotors and comes out as
    /// an upper-case letter; any other character comes out unchanged and
    /// steps nothing. The rotors stay where the message left them.
    pub fn encrypt(&mut self, message: &str) -> (r: String)
        requires
            old(self)@.wf(),
        ensures
            (r@, final(self)@) == encrypt_spec(old(self)@, message@),
            final(self)@.wf(),
    {
        let ghost start = self@;
        let n = message.unicode_len();
        let mut out = String::new();
        let mut i: usize = 0;
        while i < n
            invariant
                i <= n,
                n == message@.len(),
                self@.wf(),
                (out@, self@) == encrypt_spec(start, message@.subrange(0, i as int)),
            decreases n - i,
        {
            let c = message.get_char(i);
            assert(message@.subrange(0, i + 1).drop_last() =~= message@.subrange(0, i as int));
            if ('a' <= c && c <= 'z') || ('A' <= c && c <= 'Z') {
                proof {
                    lemma_rotate_wf(self@);
                }
                self.rotate();
                let l = self.encipher(char_to_wire(c));
                push_char(&mut out, wire_to_char(l));
            } else {
                push_char(&mut out, c);
            }
            i = i + 1;
        }
        assert(message@.subrange(0, n as int) =~= message@);
        out
    }
}

} // verus!
