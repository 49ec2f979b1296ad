//! The 64 base64 symbols, and permutations of them.

use vstd::prelude::*;

verus! {

/// The padding byte `=`. It is not one of the 64 symbols and is never substituted.
pub const PAD: u8 = 61;

pub const UPPER_A: u8 = 65;

pub const UPPER_Z: u8 = 90;

pub const LOWER_A: u8 = 97;

pub const LOWER_Z: u8 = 122;

pub const DIGIT_0: u8 = 48;

pub const DIGIT_9: u8 = 57;

pub const PLUS: u8 = 43;

pub const SLASH: u8 = 47;

/// The symbol that stands for the 6-bit value `value` in the canonical alphabet
/// `A`-`Z`, `a`-`z`, `0`-`9`, `+`, `/`.
pub open spec fn symbol(value: int) -> u8 {
    if value < 26 {
        (value + 65) as u8
    } else if value < 52 {
        (value + 71) as u8
    } else if value < 62 {
        (value - 4) as u8
    } else if value == 62 {
        PLUS
    } else {
        SLASH
    }
}

/// The 6-bit value that `b` stands for in the canonical alphabet, if it is a symbol.
pub open spec fn symbol_value(b: u8) -> Option<u8> {
    if UPPER_A <= b <= UPPER_Z {
        Some((b - 65) as u8)
    } else if LOWER_A <= b <= LOWER_Z {
        Some((b - 71) as u8)
    } else if DIGIT_0 <= b <= DIGIT_9 {
        Some((b + 4) as u8)
    } else if b == PLUS {
        Some(62u8)
    } else if b == SLASH {
        Some(63u8)
    } else {
        None
    }
}

/// Whether `b` is one of the 64 canonical symbols.
pub open spec fn is_symbol(b: u8) -> bool {
    symbol_value(b) is Some
}

/// The canonical alphabet as a sequence: position `i` holds `symbol(i)`.
pub open spec fn canonical() -> Seq<u8> {
    Seq::new(64, |i: int| symbol(i))
}

/// An alphabet is a permutation of the canonical one: 64 symbols, none twice, none
/// missing.
pub open spec fn is_alphabet(a: Seq<u8>) -> bool {
    &&& a.len() == 64
    &&& forall|i: int| 0 <= i < 64 ==> is_symbol(#[trigger] a[i])
    &&& forall|i: int, j: int| 0 <= i < j < 64 ==> a[i] != a[j]
    &&& forall|v: int| 0 <= v < 64 ==> a.contains(#[trigger] symbol(v))
}

/// `a` with the entries at `i` and `j` exchanged.
pub open spec fn swapped(a: Seq<u8>, i: int, j: int) -> Seq<u8> {
    a.update(i, a[j]).update(j, a[i])
}

/// The position that step `i` of the shuffle exchanges with position `i`.
pub open spec fn swap_target(digest: Seq<u8>, i: int) -> int {
    (digest[i % 32] + i) % 64
}

/// The canonical alphabet after the first `steps` exchanges of the shuffle that
/// `digest` drives: step `i` exchanges positions `i` and `swap_target(digest, i)`.
pub open spec fn shuffled(digest: Seq<u8>, steps: nat) -> Seq<u8>
    decreases steps,
{
    if steps == 0 {
        canonical()
    } else {
        swapped(
            shuffled(digest, (steps - 1) as nat),
            steps - 1,
            swap_target(digest, steps - 1),
        )
    }
}

/// `symbol` and `symbol_value` are inverse to each other.
pub proof fn lemma_symbol_value(value: int)
    requires
        0 <= value < 64,
    ensures
        symbol_value(symbol(value)) == Some(value as u8),
        symbol(value) != PAD,
{
}

pub proof fn lemma_value_symbol(b: u8)
    requires
        is_symbol(b),
    ensures
        symbol(symbol_value(b).unwrap() as int) == b,
        symbol_value(b).unwrap() < 64,
        b != PAD,
{
}

/// The canonical alphabet is an alphabet.
pub proof fn lemma_canonical_is_alphabet()
    ensures
        is_alphabet(canonical()),
{
    let a = canonical();
    assert forall|i: int| 0 <= i < 64 implies is_symbol(#[trigger] a[i]) by {
        lemma_symbol_value(i);
    }
    assert forall|i: int, j: int| 0 <= i < j < 64 implies a[i] != a[j] by {
        lemma_symbol_value(i);
        lemma_symbol_value(j);
    }
    assert forall|v: int| 0 <= v < 64 implies a.contains(#[trigger] symbol(v)) by {
        assert(a[v] == symbol(v));
    }
}

/// Exchanging two entries of an alphabet gives an alphabet.
pub proof fn lemma_swapped_is_alphabet(a: Seq<u8>, i: int, j: int)
    requires
        is_alphabet(a),
        0 <= i < 64,
        0 <= j < 64,
    ensures
        is_alphabet(swapped(a, i, j)),
{
    let s = swapped(a, i, j);
    assert forall|k: int| 0 <= k < 64 implies is_symbol(#[trigger] s[k]) by {
        assert(s[k] == a[if k == i { j } else if k == j { i } else { k }]);
    }
    assert forall|k: int, l: int| 0 <= k < l < 64 implies s[k] != s[l] by {
        let k0 = if k == i { j } else if k == j { i } else { k };
        let l0 = if l == i { j } else if l == j { i } else { l };
        assert(s[k] == a[k0] && s[l] == a[l0]);
        assert(k0 != l0);
    }
    assert forall|v: int| 0 <= v < 64 implies s.contains(#[trigger] symbol(v)) by {
        assert(a.contains(symbol(v)));
        let k = choose|k: int| 0 <= k < a.len() && a[k] == symbol(v);
        let k1 = if k == i { j } else if k == j { i } else { k };
        assert(s[k1] == symbol(v));
    }
}

/// Every stage of the shuffle is an alphabet, whatever the digest holds.
pub proof fn lemma_shuffled_is_alphabet(digest: Seq<u8>, steps: nat)
    requires
        steps <= 64,
    ensures
        is_alphabet(shuffled(digest, steps)),
    decreases steps,
{
    if steps == 0 {
        lemma_canonical_is_alphabet();
    } else {
        lemma_shuffled_is_alphabet(digest, (steps - 1) as nat);
        lemma_swapped_is_alphabet(
            shuffled(digest, (steps - 1) as nat),
            steps - 1,
            swap_target(digest, steps - 1),
        );
    }
}

/// The canonical symbol for a 6-bit value.
pub fn symbol_for(value: u8) -> (b: u8)
    requires
        value < 64,
    ensures
        b == symbol(value as int),
{
    if value < 26 {
        value + 65
    } else if value < 52 {
        value + 71
    } else if value < 62 {
        value - 4
    } else if value == 62 {
        PLUS
    } else {
        SLASH
    }
}

/// The 6-bit value of a canonical symbol; `None` for every other byte.
pub fn value_of(b: u8) -> (value: Option<u8>)
    ensures
        value == symbol_value(b),
{
    if UPPER_A <= b && b <= UPPER_Z {
        Some(b - 65)
    } else if LOWER_A <= b && b <= LOWER_Z {
        Some(b - 71)
    } else if DIGIT_0 <= b && b <= DIGIT_9 {
        Some(b + 4)
    } else if b == PLUS {
        Some(62)
    } else if b == SLASH {
        Some(63)
    } else {
        None
    }
}

/// The canonical alphabet `A`-`Z`, `a`-`z`, `0`-`9`, `+`, `/`.
pub fn canonical_alphabet() -> (alphabet: [u8; 64])
    ensures
        alphabet@ == canonical(),
        is_alphabet(alphabet@),
{
    let mut alphabet: [u8; 64] = [0u8; 64];
    let mut i: u8 = 0;
    while i < 64
        invariant
            i <= 64,
            forall|k: int| 0 <= k < i ==> alphabet@[k] == symbol(k),
        decreases 64 - i,
    {
        alphabet[i as usize] = symbol_for(i);
        i = i + 1;
    }
    proof {
        assert(alphabet@ =~= canonical());
        lemma_canonical_is_alphabet();
    }
    alphabet
}

/// The alphabet that a 32-byte digest selects: starting from the canonical alphabet,
/// step `i` (for `i` from 0 to 63) exchanges position `i` with position
/// `(digest[i % 32] + i) % 64`.
pub fn alphabet_from_digest(digest: &[u8; 32]) -> (alphabet: [u8; 64])
    ensures
        alphabet@ == shuffled(digest@, 64),
        is_alphabet(alphabet@),
{
    let mut alphabet: [u8; 64] = canonical_alphabet();
    let mut i: usize = 0;
    while i < 64
        invariant
            i <= 64,
            alphabet@ == shuffled(digest@, i as nat),
        decreases 64 - i,
    {
        let j: usize = (digest[i % 32] as usize + i) % 64;
        let held: u8 = alphabet[i];
        let other: u8 = alphabet[j];
        alphabet[i] = other;
        alphabet[j] = held;
        i = i + 1;
        proof {
            assert(alphabet@ =~= shuffled(digest@, i as nat));
        }
    }
    proof {
        lemma_shuffled_is_alphabet(digest@, 64);
    }
    alphabet
}

} // verus!
