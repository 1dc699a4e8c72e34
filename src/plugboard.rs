//! The plugboard: letters swapped in pairs before and after the rotors.
use crate::alphabet::{identity_table, identity_wiring, is_involution, is_letter, symbol_of};
use crate::component::Component;
use crate::error::ConfigError;
use vstd::prelude::*;

verus! {

/// `c` has the Unicode `White_Space` property, as `char::is_whitespace`
/// tests: tab to carriage return, space, next line, no-break space, ogham
/// space mark, the spaces from en quad to hair space, line and paragraph
/// separators, narrow no-break space, medium mathematical space and
/// ideographic space.
pub open spec fn whitespace(c: char) -> bool {
    let u = c as u32;
    ||| 0x09 <= u <= 0x0D
    ||| u == 0x20
    ||| u == 0x85
    ||| u == 0xA0
    ||| u == 0x1680
    ||| 0x2000 <= u <= 0x200A
    ||| u == 0x2028
    ||| u == 0x2029
    ||| u == 0x202F
    ||| u == 0x205F
    ||| u == 0x3000
}

/// Whether `c` has the Unicode `White_Space` property.
pub fn is_whitespace(c: char) -> (r: bool)
    ensures
        r == whitespace(c),
{
    let u = c as u32;
    (0x09 <= u && u <= 0x0D) || u == 0x20 || u == 0x85 || u == 0xA0 || u == 0x1680
        || (0x2000 <= u && u <= 0x200A) || u == 0x2028 || u == 0x2029 || u == 0x202F
        || u == 0x205F || u == 0x3000
}

/// The words found so far in `s`, and the word that is still open.
pub open spec fn split_state(s: Seq<char>) -> (Seq<Seq<char>>, Seq<char>)
    decreases s.len(),
{
    if s.len() == 0 {
        (seq![], seq![])
    } else {
        let (words, current) = split_state(s.drop_last());
        let c = s.last();
        if whitespace(c) {
            if current.len() > 0 {
                (words.push(current), seq![])
            } else {
                (words, current)
            }
        } else {
            (words, current.push(c))
        }
    }
}

/// The maximal runs of non-whitespace characters of `s`, in order.
pub open spec fn split_words(s: Seq<char>) -> Seq<Seq<char>> {
    let (words, current) = split_state(s);
    if current.len() > 0 {
        words.push(current)
    } else {
        words
    }
}

/// `p` is exactly two letters.
pub open spec fn is_pair(p: Seq<char>) -> bool {
    p.len() == 2 && is_letter(p[0]) && is_letter(p[1])
}

/// `p` is a pair that names the letter of symbol `x`.
pub open spec fn names_letter(p: Seq<char>, x: u8) -> bool {
    is_pair(p) && (symbol_of(p[0]) == x || symbol_of(p[1]) == x)
}

/// Some connection of `pairs` names the letter of symbol `x`.
pub open spec fn letter_used(pairs: Seq<Seq<char>>, x: u8) -> bool {
    exists|k: int| 0 <= k < pairs.len() && names_letter(#[trigger] pairs[k], x)
}

/// Adds the connection `p` to the table that the connections `earlier`
/// gave. `p` must be two letters, neither of them named by an earlier
/// connection. A connection that names one letter twice leaves it unchanged.
pub open spec fn connect(
    t: Result<Seq<u8>, ConfigError>,
    earlier: Seq<Seq<char>>,
    p: Seq<char>,
) -> Result<Seq<u8>, ConfigError> {
    match t {
        Err(e) => Err(e),
        Ok(t) => {
            if !is_pair(p) {
                Err(ConfigError::MalformedPair)
            } else {
                let a = symbol_of(p[0]);
                let b = symbol_of(p[1]);
                if letter_used(earlier, a) || letter_used(earlier, b) {
                    Err(ConfigError::DuplicateLetter)
                } else {
                    Ok(t.update(a as int, b).update(b as int, a))
                }
            }
        }
    }
}

/// The plugboard table that a list of connections gives, or the first
/// error met when they are taken in order.
pub open spec fn plugboard_table(pairs: Seq<Seq<char>>) -> Result<Seq<u8>, ConfigError>
    decreases pairs.len(),
{
    if pairs.len() == 0 {
        Ok(identity_table())
    } else {
        connect(plugboard_table(pairs.drop_last()), pairs.drop_last(), pairs.last())
    }
}

/// A letter is named by a list of connections exactly when it is named by
/// all but the last, or by the last.
proof fn lemma_letter_used_last(pairs: Seq<Seq<char>>, x: u8)
    requires
        pairs.len() > 0,
    ensures
        letter_used(pairs, x) <==> letter_used(pairs.drop_last(), x) || names_letter(pairs.last(), x),
{
    let init = pairs.drop_last();
    if letter_used(pairs, x) {
        let k = choose|k: int| 0 <= k < pairs.len() && names_letter(#[trigger] pairs[k], x);
        if k < init.len() {
            assert(init[k] == pairs[k]);
        }
    }
    if letter_used(init, x) {
        let k = choose|k: int| 0 <= k < init.len() && names_letter(#[trigger] init[k], x);
        assert(pairs[k] == init[k]);
    }
    if names_letter(pairs.last(), x) {
        assert(names_letter(pairs[pairs.len() - 1], x));
    }
}

/// Every plugboard table that a list of connections gives is its own
/// inverse, and leaves each letter that no connection names unchanged.
pub proof fn lemma_plugboard_table_involution(pairs: Seq<Seq<char>>)
    requires
        plugboard_table(pairs) is Ok,
    ensures
        is_involution(plugboard_table(pairs)->Ok_0),
        forall|x: u8| x < 26 && !letter_used(pairs, x) ==> #[trigger] plugboard_table(pairs)->Ok_0[x as int] == x,
    decreases pairs.len(),
{
    if pairs.len() > 0 {
        let init = pairs.drop_last();
        lemma_plugboard_table_involution(init);
        let t = plugboard_table(init)->Ok_0;
        let p = pairs.last();
        let a = symbol_of(p[0]);
        let b = symbol_of(p[1]);
        assert(!letter_used(init, a) && !letter_used(init, b));
        assert(t[a as int] == a);
        assert(t[b as int] == b);
        let t2 = plugboard_table(pairs)->Ok_0;
        assert forall|x: u8| x < 26 && !letter_used(pairs, x) implies #[trigger] t2[x as int] == x by {
            lemma_letter_used_last(pairs, x);
            assert(t[x as int] == x);
        }
        assert forall|i: int| 0 <= i < 26 implies #[trigger] t2[t2[i] as int] == i by {
            if i != a && i != b {
                assert(t[i] != a) by {
                    if t[i] == a {
                        assert(t[t[i] as int] == i);
                    }
                }
                assert(t[i] != b) by {
                    if t[i] == b {
                        assert(t[t[i] as int] == i);
                    }
                }
            }
        }
    }
}

/// Once a prefix of the connections is refused, so is the whole list, with
/// the same error.
proof fn lemma_error_persists(pairs: Seq<Seq<char>>, i: int)
    requires
        0 <= i <= pairs.len(),
        plugboard_table(pairs.subrange(0, i)) is Err,
    ensures
        plugboard_table(pairs) == plugboard_table(pairs.subrange(0, i)),
    decreases pairs.len() - i,
{
    if i < pairs.len() {
        assert(pairs.subrange(0, i + 1).drop_last() =~= pairs.subrange(0, i));
        lemma_error_persists(pairs, i + 1);
    } else {
        assert(pairs.subrange(0, i) =~= pairs);
    }
}

/// The characters of `s`.
fn chars_of(s: &str) -> (r: Vec<char>)
    ensures
        r@ == s@,
{
    let n = s.unicode_len();
    let mut r: Vec<char> = Vec::new();
    let mut i: usize = 0;
    while i < n
        invariant
            i <= n,
            n == s@.len(),
            r@ == s@.subrange(0, i as int),
        decreases n - i,
    {
        r.push(s.get_char(i));
        i = i + 1;
        assert(r@ =~= s@.subrange(0, i as int));
    }
    assert(s@.subrange(0, n as int) =~= s@);
    r
}

/// Splits `s` into its words, as `str::split_whitespace` does.
fn words_of(s: &str) -> (r: Vec<Vec<char>>)
    ensures
        r@.map_values(|w: Vec<char>| w@) == split_words(s@),
{
    let n = s.unicode_len();
    let mut words: Vec<Vec<char>> = Vec::new();
    let mut current: Vec<char> = Vec::new();
    let mut i: usize = 0;
    while i < n
        invariant
            i <= n,
            n == s@.len(),
            (words@.map_values(|w: Vec<char>| w@), current@) == split_state(s@.subrange(0, i as int)),
        decreases n - i,
    {
        let c = s.get_char(i);
        let ghost before = s@.subrange(0, i as int);
        let ghost old_words = words@.map_values(|w: Vec<char>| w@);
        assert(s@.subrange(0, i + 1).drop_last() =~= before);
        if is_whitespace(c) {
            if current.len() > 0 {
                let ghost cur = current@;
                let ghost old_vec = words@;
                words.push(current);
                assert(words@ == old_vec.push(current));
                assert(words@.map_values(|w: Vec<char>| w@) =~= old_words.push(cur));
                current = Vec::new();
            }
        } else {
            current.push(c);
        }
        i = i + 1;
    }
    assert(s@.subrange(0, n as int) =~= s@);
    if current.len() > 0 {
        let ghost old_words = words@.map_values(|w: Vec<char>| w@);
        let ghost cur = current@;
        let ghost old_vec = words@;
        words.push(current);
        assert(words@ == old_vec.push(current));
        assert(words@.map_values(|w: Vec<char>| w@) =~= old_words.push(cur));
    }
    words
}

/// The plugboard: a table that swaps the letters of each connection and
/// leaves the others alone.
#[derive(Debug)]
pub struct Plugboard {
    wiring: [u8; 26],
}

impl View for Plugboard {
    type V = Seq<u8>;

    closed spec fn view(&self) -> Seq<u8> {
        self.wiring@
    }
}

impl Plugboard {
    /// Builds the plugboard from connections given as character lists.
    fn from_pairs(pairs: &Vec<Vec<char>>) -> (r: Result<Plugboard, ConfigError>)
        ensures
            plugboard_table(pairs@.map_values(|w: Vec<char>| w@)) is Ok <==> r is Ok,
            r is Ok ==> r->Ok_0@ == plugboard_table(pairs@.map_values(|w: Vec<char>| w@))->Ok_0,
            r is Err ==> r->Err_0 == plugboard_table(pairs@.map_values(|w: Vec<char>| w@))->Err_0,
    {
        let ghost all = pairs@.map_values(|w: Vec<char>| w@);
        let mut wiring = identity_wiring();
        let mut used: [bool; 26] = [false; 26];
        let mut i: usize = 0;
        while i < pairs.len()
            invariant
                i <= pairs@.len(),
                all == pairs@.map_values(|w: Vec<char>| w@),
                all.len() == pairs@.len(),
                wiring@.len() == 26,
                used@.len() == 26,
                forall|x: u8| x < 26 ==> (#[trigger] used@[x as int] <==> letter_used(all.subrange(0, i as int), x)),
                plugboard_table(all.subrange(0, i as int)) == Ok::<Seq<u8>, ConfigError>(wiring@),
            decreases pairs@.len() - i,
        {
            let ghost prefix = all.subrange(0, i as int);
            assert(all.subrange(0, i + 1).drop_last() =~= prefix);
            assert(all.subrange(0, i + 1).last() == pairs@[i as int]@);
            let pair = &pairs[i];
            if pair.len() != 2 || !(('a' <= pair[0] && pair[0] <= 'z') || ('A' <= pair[0] && pair[0] <= 'Z'))
                || !(('a' <= pair[1] && pair[1] <= 'z') || ('A' <= pair[1] && pair[1] <= 'Z')) {
                proof {
                    lemma_error_persists(all, i + 1);
                }
                return Err(ConfigError::MalformedPair);
            }
            let a = crate::alphabet::char_to_wire(pair[0]);
            let b = crate::alphabet::char_to_wire(pair[1]);
            if used[a as usize] || used[b as usize] {
                proof {
                    lemma_error_persists(all, i + 1);
                }
                return Err(ConfigError::DuplicateLetter);
            }
            wiring[a as usize] = b;
            wiring[b as usize] = a;
            used[a as usize] = true;
            used[b as usize] = true;
            proof {
                let next = all.subrange(0, i + 1);
                assert forall|x: u8| x < 26 implies (#[trigger] used@[x as int] <==> letter_used(next, x)) by {
                    lemma_letter_used_last(next, x);
                }
            }
            i = i + 1;
        }
        assert(all.subrange(0, i as int) =~= all);
        Ok(Plugboard { wiring })
    }

    /// A plugboard from a list of connections, each two letters in either
    /// case (`"AB"` swaps `A` and `B`).
    ///
    /// Fails, at the first connection at fault, with `MalformedPair` where a
    /// connection is not exactly two letters, and with `DuplicateLetter` where
    /// it names a letter that an earlier connection named. A connection that
    /// names one letter twice (`"AA"`) leaves that letter unswapped.
    pub fn new(connections: Vec<&str>) -> (r: Result<Plugboard, ConfigError>)
        ensures
            ({
                let t = plugboard_table(connections@.map_values(|s: &str| s@));
                &&& t is Ok <==> r is Ok
                &&& r is Ok ==> r->Ok_0@ == t->Ok_0 && is_involution(r->Ok_0@)
                &&& r is Err ==> r->Err_0 == t->Err_0
            }),
    {
        let mut pairs: Vec<Vec<char>> = Vec::new();
        let mut i: usize = 0;
        while i < connections.len()
            invariant
                i <= connections@.len(),
                pairs@.map_values(|w: Vec<char>| w@) == connections@.subrange(0, i as int).map_values(|s: &str| s@),
            decreases connections@.len() - i,
        {
            let ghost old_pairs = pairs@;
            let chars = chars_of(connections[i]);
            pairs.push(chars);
            assert(pairs@ == old_pairs.push(chars));
            assert(chars@ == connections@[i as int]@);
            assert(old_pairs.map_values(|w: Vec<char>| w@).len() == i);
            i = i + 1;
            assert forall|k: int| 0 <= k < i implies #[trigger] pairs@[k]@ == connections@[k]@ by {
                if k < i - 1 {
                    assert(old_pairs.map_values(|w: Vec<char>| w@)[k] == connections@.subrange(0, i - 1)
                        .map_values(|s: &str| s@)[k]);
                }
            }
            assert(pairs@.map_values(|w: Vec<char>| w@) =~= connections@.subrange(0, i as int).map_values(|s: &str| s@));
        }
        assert(connections@.subrange(0, i as int) =~= connections@);
        let r = Plugboard::from_pairs(&pairs);
        proof {
            if r is Ok {
                lemma_plugboard_table_involution(pairs@.map_values(|w: Vec<char>| w@));
            }
        }
        r
    }

    /// A plugboard from whitespace-separated connections, such as `"AB DE"`.
    ///
    /// Fails as `new` does on the list of words of `connections`.
    pub fn from_connections(connections: &str) -> (r: Result<Plugboard, ConfigError>)
        ensures
            ({
                let t = plugboard_table(split_words(connections@));
                &&& t is Ok <==> r is Ok
                &&& r is Ok ==> r->Ok_0@ == t->Ok_0 && is_involution(r->Ok_0@)
                &&& r is Err ==> r->Err_0 == t->Err_0
            }),
    {
        let pairs = words_of(connections);
        let r = Plugboard::from_pairs(&pairs);
        proof {
            if r is Ok {
                lemma_plugboard_table_involution(pairs@.map_values(|w: Vec<char>| w@));
            }
        }
        r
    }

    /// The plugboard's table.
    pub fn wiring(&self) -> (r: [u8; 26])
        ensures
            r@ == self@,
    {
        self.wiring
    }
}

impl Default for Plugboard {
    /// The identity table: every letter maps to itself.
    fn default() -> (r: Plugboard)
        ensures
            r@ == identity_table(),
            is_involution(r@),
    {
        Plugboard { wiring: identity_wiring() }
    }
}

impl Component for Plugboard {
    open spec fn well_formed(&self) -> bool {
        is_involution(self@)
    }

    open spec fn image(&self, letter: u8) -> u8 {
        self@[letter as int]
    }

    open spec fn preimage(&self, letter: u8) -> u8 {
        self@[letter as int]
    }

    proof fn lemma_directions_inverse(&self, letter: u8) {
    }

    fn forward(&self, letter: u8) -> (r: u8) {
        self.wiring[letter as usize]
    }

    fn backward(&self, letter: u8) -> (r: u8) {
        self.forward(letter)
    }
}

} // verus!
