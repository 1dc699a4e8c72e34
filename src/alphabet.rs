//! Letters as symbols `0..26`, and tables over them.
use crate::error::ConfigError;
use vstd::prelude::*;
use vstd::set_lib::{lemma_int_range, lemma_map_size, lemma_subset_equality, set_int_range};

verus! {

/// Number of letters in the alphabet the machine works over.
pub const ALPHABET_SIZE: usize = 26;

/// `c` is an ASCII upper-case letter.
pub open spec fn is_upper(c: char) -> bool {
    'A' <= c && c <= 'Z'
}

/// `c` is an ASCII lower-case letter.
pub open spec fn is_lower(c: char) -> bool {
    'a' <= c && c <= 'z'
}

/// `c` is an ASCII letter of either case.
pub open spec fn is_letter(c: char) -> bool {
    is_upper(c) || is_lower(c)
}

/// The symbol of a letter, ignoring its case: `A` and `a` are `0`.
pub open spec fn symbol_of(c: char) -> u8 {
    if is_lower(c) {
        (c as u32 - 97) as u8
    } else {
        (c as u32 - 65) as u8
    }
}

/// The upper-case letter of symbol `s`.
pub open spec fn upper_of(s: u8) -> char {
    ((s as u32) + 65) as char
}

/// The lower-case letter of symbol `s`.
pub open spec fn lower_of(s: u8) -> char {
    ((s as u32) + 97) as char
}

/// Every entry of `t` is a symbol.
pub open spec fn is_table(t: Seq<u8>) -> bool {
    &&& t.len() == 26
    &&& forall|i: int| 0 <= i < 26 ==> #[trigger] t[i] < 26
}

/// `t` is a permutation of the symbols: no two symbols have the same image.
pub open spec fn is_permutation(t: Seq<u8>) -> bool {
    &&& is_table(t)
    &&& forall|i: int, j: int| 0 <= i < 26 && 0 <= j < 26 && i != j ==> #[trigger] t[i] != #[trigger] t[j]
}

/// `t` is its own inverse.
pub open spec fn is_involution(t: Seq<u8>) -> bool {
    &&& is_table(t)
    &&& forall|i: int| 0 <= i < 26 ==> #[trigger] t[t[i] as int] == i
}

/// `inv` undoes `t` and `t` undoes `inv`.
pub open spec fn are_inverse(t: Seq<u8>, inv: Seq<u8>) -> bool {
    &&& is_table(t)
    &&& is_table(inv)
    &&& forall|i: int| 0 <= i < 26 ==> #[trigger] inv[t[i] as int] == i
    &&& forall|i: int| 0 <= i < 26 ==> #[trigger] t[inv[i] as int] == i
}

/// The identity table, in which every symbol maps to itself.
pub open spec fn identity_table() -> Seq<u8> {
    Seq::new(26, |i: int| i as u8)
}

/// The table that an encoding of 26 letters describes: entry `i` is the
/// symbol of the `i`-th letter.
pub open spec fn table_of_encoding(e: Seq<char>) -> Seq<u8> {
    e.map_values(|c: char| symbol_of(c))
}

/// `e` is 26 letters.
pub open spec fn is_encoding(e: Seq<char>) -> bool {
    &&& e.len() == 26
    &&& forall|i: int| 0 <= i < 26 ==> is_letter(#[trigger] e[i])
}

/// Upper-case letters and symbols correspond one to one.
pub proof fn lemma_upper_letters(s: u8, c: char)
    ensures
        s < 26 ==> is_upper(upper_of(s)) && symbol_of(upper_of(s)) == s,
        is_upper(c) ==> symbol_of(c) < 26 && upper_of(symbol_of(c)) == c,
{
}

/// Two inverses of one table are the same.
pub proof fn lemma_inverse_unique(t: Seq<u8>, a: Seq<u8>, b: Seq<u8>)
    requires
        are_inverse(t, a),
        are_inverse(t, b),
    ensures
        a == b,
{
    assert forall|j: int| 0 <= j < 26 implies a[j] == b[j] by {
        assert(t[a[j] as int] == j);
        assert(b[t[a[j] as int] as int] == a[j]);
    }
    assert(a =~= b);
}

/// An involution is a permutation.
pub proof fn lemma_involution_is_permutation(t: Seq<u8>)
    requires
        is_involution(t),
    ensures
        is_permutation(t),
{
    assert forall|i: int, j: int| 0 <= i < 26 && 0 <= j < 26 && i != j implies #[trigger] t[i]
        != #[trigger] t[j] by {
        if t[i] == t[j] {
            assert(t[t[i] as int] == i);
            assert(t[t[j] as int] == j);
        }
    }
}

/// A permutation reaches every symbol.
pub proof fn lemma_permutation_is_onto(t: Seq<u8>, j: int)
    requires
        is_permutation(t),
        0 <= j < 26,
    ensures
        exists|i: int| 0 <= i < 26 && t[i] as int == j,
{
    let x = set_int_range(0, 26);
    let f = |i: int| t[i] as int;
    let y = x.map(f);
    lemma_int_range(0, 26);
    assert(vstd::relations::injective_on(f, x));
    lemma_map_size(x, y, f);
    assert(y.subset_of(x)) by {
        assert forall|k: int| y.contains(k) implies x.contains(k) by {
            let i = choose|i: int| x.contains(i) && f(i) == k;
            assert(t[i] < 26);
        }
    }
    lemma_subset_equality(y, x);
    assert(x.contains(j));
    assert(y.contains(j));
}

/// The identity table.
pub fn identity_wiring() -> (r: [u8; 26])
    ensures
        r@ == identity_table(),
{
    let mut r: [u8; 26] = [0; 26];
    let mut i: usize = 0;
    while i < 26
        invariant
            i <= 26,
            r@.len() == 26,
            forall|k: int| 0 <= k < i ==> r@[k] == k as u8,
        decreases 26 - i,
    {
        r[i] = i as u8;
        i = i + 1;
    }
    assert(r@ =~= identity_table());
    r
}

/// The symbol of a letter of either case.
pub fn char_to_wire(c: char) -> (r: u8)
    requires
        is_letter(c),
    ensures
        r == symbol_of(c),
        r < 26,
{
    if 'a' <= c && c <= 'z' {
        (c as u32 - 97) as u8
    } else {
        (c as u32 - 65) as u8
    }
}

/// The upper-case letter of a symbol.
pub fn wire_to_char(w: u8) -> (c: char)
    requires
        w < 26,
    ensures
        c == upper_of(w),
        is_upper(c),
        symbol_of(c) == w,
{
    (w + 65) as char
}

/// The table described by an encoding of 26 letters, in either case.
///
/// Fails with `MalformedEncoding` unless `encoding` is exactly 26 letters.
pub fn encoding_to_wiring(encoding: &str) -> (r: Result<[u8; 26], ConfigError>)
    ensures
        is_encoding(encoding@) <==> r is Ok,
        r is Ok ==> r->Ok_0@ == table_of_encoding(encoding@),
        r is Err ==> r->Err_0 == ConfigError::MalformedEncoding,
{
    let n = encoding.unicode_len();
    if n != 26 {
        return Err(ConfigError::MalformedEncoding);
    }
    let mut wiring: [u8; 26] = [0; 26];
    let mut i: usize = 0;
    while i < 26
        invariant
            i <= 26,
            encoding@.len() == 26,
            wiring@.len() == 26,
            forall|k: int| 0 <= k < i ==> is_letter(#[trigger] encoding@[k]),
            forall|k: int| 0 <= k < i ==> wiring@[k] == symbol_of(#[trigger] encoding@[k]),
        decreases 26 - i,
    {
        let c = encoding.get_char(i);
        if !(('a' <= c && c <= 'z') || ('A' <= c && c <= 'Z')) {
            return Err(ConfigError::MalformedEncoding);
        }
        wiring[i] = char_to_wire(c);
        i = i + 1;
    }
    assert(wiring@ =~= table_of_encoding(encoding@));
    Ok(wiring)
}

/// Whether a table of symbols is a permutation.
pub fn is_permutation_table(wiring: &[u8; 26]) -> (r: bool)
    requires
        is_table(wiring@),
    ensures
        r == is_permutation(wiring@),
{
    let mut seen: [bool; 26] = [false; 26];
    let mut i: usize = 0;
    while i < 26
        invariant
            i <= 26,
            is_table(wiring@),
            seen@.len() == 26,
            forall|v: int| 0 <= v < 26 ==> (#[trigger] seen@[v] <==> exists|k: int| 0 <= k < i && wiring@[k] == v),
            forall|a: int, b: int| 0 <= a < i && 0 <= b < i && a != b ==> #[trigger] wiring@[a] != #[trigger] wiring@[b],
        decreases 26 - i,
    {
        let w = wiring[i];
        if seen[w as usize] {
            proof {
                let k = choose|k: int| 0 <= k < i && wiring@[k] == w;
                assert(wiring@[k] == wiring@[i as int]);
            }
            return false;
        }
        seen[w as usize] = true;
        i = i + 1;
    }
    true
}

/// Whether a table of symbols is its own inverse.
pub fn is_involution_table(wiring: &[u8; 26]) -> (r: bool)
    requires
        is_table(wiring@),
    ensures
        r == is_involution(wiring@),
{
    let mut i: usize = 0;
    while i < 26
        invariant
            i <= 26,
            is_table(wiring@),
            forall|k: int| 0 <= k < i ==> #[trigger] wiring@[wiring@[k] as int] == k,
        decreases 26 - i,
    {
        let w = wiring[i];
        if wiring[w as usize] != i as u8 {
            return false;
        }
        i = i + 1;
    }
    true
}

/// Whether two strings hold the same characters.
pub(crate) fn same_text(s: &str, t: &str) -> (r: bool)
    ensures
        r == (s@ == t@),
{
    let n = s.unicode_len();
    if n != t.unicode_len() {
        return false;
    }
    let mut i: usize = 0;
    while i < n
        invariant
            i <= n,
            n == s@.len(),
            n == t@.len(),
            s@.subrange(0, i as int) == t@.subrange(0, i as int),
        decreases n - i,
    {
        if s.get_char(i) != t.get_char(i) {
            return false;
        }
        assert(s@.subrange(0, i + 1) =~= s@.subrange(0, i as int).push(s@[i as int]));
        assert(t@.subrange(0, i + 1) =~= t@.subrange(0, i as int).push(t@[i as int]));
        i = i + 1;
    }
    assert(s@ =~= s@.subrange(0, n as int));
    assert(t@ =~= t@.subrange(0, n as int));
    true
}

/// Relies on `String::push`: the character is appended at the end.
#[verifier::external_body]
pub(crate) fn push_char(s: &mut String, c: char)
    ensures
        final(s)@ == old(s)@.push(c),
{
    s.push(c);
}

/// The lower-case encoding of a table: letter `i` names the image of symbol `i`.
pub fn wiring_to_encoding(wiring: [u8; 26]) -> (r: String)
    requires
        is_table(wiring@),
    ensures
        r@ == wiring@.map_values(|w: u8| lower_of(w)),
{
    let mut r = String::new();
    let mut i: usize = 0;
    while i < 26
        invariant
            i <= 26,
            is_table(wiring@),
            r@ == wiring@.subrange(0, i as int).map_values(|w: u8| lower_of(w)),
        decreases 26 - i,
    {
        let w = wiring[i];
        assert(w < 26);
        push_char(&mut r, (w + 97) as char);
        i = i + 1;
        assert(r@ =~= wiring@.subrange(0, i as int).map_values(|w: u8| lower_of(w)));
    }
    assert(wiring@.subrange(0, 26) =~= wiring@);
    r
}

/// The inverse of a permutation: entry `wiring[i]` of the result is `i`.
pub fn invert_wiring(wiring: [u8; 26]) -> (r: [u8; 26])
    requires
        is_permutation(wiring@),
    ensures
        are_inverse(wiring@, r@),
        is_permutation(r@),
{
    let mut inverse: [u8; 26] = [0; 26];
    let mut i: usize = 0;
    while i < 26
        invariant
            i <= 26,
            is_permutation(wiring@),
            inverse@.len() == 26,
            forall|k: int| 0 <= k < 26 ==> #[trigger] inverse@[k] < 26,
            forall|k: int| 0 <= k < i ==> #[trigger] inverse@[wiring@[k] as int] == k,
        decreases 26 - i,
    {
        inverse[wiring[i] as usize] = i as u8;
        i = i + 1;
    }
    proof {
        assert forall|j: int| 0 <= j < 26 implies #[trigger] wiring@[inverse@[j] as int] == j by {
            lemma_permutation_is_onto(wiring@, j);
            let k = choose|k: int| 0 <= k < 26 && wiring@[k] as int == j;
            assert(inverse@[wiring@[k] as int] == k);
        }
        assert forall|i: int, j: int| 0 <= i < 26 && 0 <= j < 26 && i != j implies #[trigger] inverse@[i]
            != #[trigger] inverse@[j] by {
            if inverse@[i] == inverse@[j] {
                assert(wiring@[inverse@[i] as int] == i);
                assert(wiring@[inverse@[j] as int] == j);
            }
        }
    }
    inverse
}

} // verus!
