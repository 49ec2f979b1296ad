//! Substitution of base64 symbols through an alphabet, and its reversal.

use crate::alphabet::{
    is_alphabet, is_symbol, lemma_symbol_value, lemma_value_symbol, symbol, symbol_for,
    symbol_value, value_of, PAD,
};
use crate::b64::is_base64_text;
use crate::error::{outcome, CodecError};
use vstd::prelude::*;

verus! {

/// Whether `i` is the first position of `s` that holds `b`.
pub open spec fn occurs_first_at(s: Seq<u8>, b: u8, i: int) -> bool {
    &&& 0 <= i < s.len()
    &&& s[i] == b
    &&& forall|j: int| 0 <= j < i ==> s[j] != b
}

/// The first position of `s` that holds `b`, if any does.
pub open spec fn position(s: Seq<u8>, b: u8) -> Option<int> {
    if exists|i: int| occurs_first_at(s, b, i) {
        Some(choose|i: int| occurs_first_at(s, b, i))
    } else {
        None
    }
}

/// What a byte of base64 text becomes: padding stays, and a symbol is replaced by the
/// entry of `alphabet` at the symbol's own position in the canonical alphabet.
pub open spec fn substituted_byte(alphabet: Seq<u8>, b: u8) -> u8 {
    if b == PAD {
        PAD
    } else {
        alphabet[symbol_value(b).unwrap() as int]
    }
}

/// `text` with every byte substituted through `alphabet`.
pub open spec fn substituted(text: Seq<u8>, alphabet: Seq<u8>) -> Seq<u8> {
    Seq::new(text.len(), |i: int| substituted_byte(alphabet, text[i]))
}

/// What a substituted byte stood for: padding stays, and a member of `alphabet` is
/// replaced by the canonical symbol of its position there. A byte that is neither
/// stands for nothing.
pub open spec fn restored_byte(alphabet: Seq<u8>, b: u8) -> Option<u8> {
    if b == PAD {
        Some(PAD)
    } else {
        match position(alphabet, b) {
            Some(i) => Some(symbol(i)),
            None => None,
        }
    }
}

/// The text that `encoded` stood for under `alphabet`, if each of its bytes stands for
/// something.
pub open spec fn restored(encoded: Seq<u8>, alphabet: Seq<u8>) -> Option<Seq<u8>> {
    if forall|i: int| 0 <= i < encoded.len() ==> restored_byte(alphabet, #[trigger] encoded[i])
        is Some {
        Some(Seq::new(encoded.len(), |i: int| restored_byte(alphabet, encoded[i]).unwrap()))
    } else {
        None
    }
}

/// The text read leniently, as a text in the canonical alphabet: padding and symbols
/// stay, and every other byte is taken for the first symbol, `A`.
pub open spec fn lenient_text(encoded: Seq<u8>) -> Seq<u8> {
    Seq::new(
        encoded.len(),
        |i: int|
            if encoded[i] == PAD || is_symbol(encoded[i]) {
                encoded[i]
            } else {
                symbol(0)
            },
    )
}

/// The first occurrence is the position.
pub proof fn lemma_position_found(s: Seq<u8>, b: u8, i: int)
    requires
        occurs_first_at(s, b, i),
    ensures
        position(s, b) == Some(i),
{
    let found = choose|k: int| occurs_first_at(s, b, k);
    assert(occurs_first_at(s, b, found));
    assert(found == i);
}

/// Where there is a position, `b` occurs there first; where there is none, `b` does
/// not occur.
pub proof fn lemma_position(s: Seq<u8>, b: u8)
    ensures
        position(s, b) matches Some(i) ==> occurs_first_at(s, b, i),
        position(s, b) is None ==> forall|j: int| 0 <= j < s.len() ==> s[j] != b,
{
    if position(s, b) is None {
        assert forall|j: int| 0 <= j < s.len() implies s[j] != b by {
            if s[j] == b {
                lemma_occurs(s, b, j);
            }
        }
    }
}

/// A byte that occurs at all occurs somewhere first.
proof fn lemma_occurs(s: Seq<u8>, b: u8, j: int)
    requires
        0 <= j < s.len(),
        s[j] == b,
    ensures
        exists|i: int| occurs_first_at(s, b, i),
    decreases j,
{
    if exists|k: int| 0 <= k < j && s[k] == b {
        let k = choose|k: int| 0 <= k < j && s[k] == b;
        lemma_occurs(s, b, k);
    } else {
        assert(occurs_first_at(s, b, j));
    }
}

/// Under an alphabet, substitution can be undone.
pub proof fn lemma_restored_substituted(text: Seq<u8>, alphabet: Seq<u8>)
    requires
        is_alphabet(alphabet),
        is_base64_text(text),
    ensures
        restored(substituted(text, alphabet), alphabet) == Some(text),
{
    let encoded = substituted(text, alphabet);
    assert forall|i: int| 0 <= i < encoded.len() implies restored_byte(
        alphabet,
        #[trigger] encoded[i],
    ) == Some(text[i]) by {
        let b = text[i];
        if b != PAD {
            assert(is_symbol(b));
            lemma_value_symbol(b);
            let v = symbol_value(b).unwrap() as int;
            assert(encoded[i] == alphabet[v]);
            assert(is_symbol(alphabet[v]));
            lemma_value_symbol(alphabet[v]);
            assert(occurs_first_at(alphabet, alphabet[v], v));
            lemma_position_found(alphabet, alphabet[v], v);
        }
    }
    assert(restored(encoded, alphabet).unwrap() =~= text);
}

/// Under an alphabet, what can be restored is base64 text, and substituting that text
/// gives back what it was restored from.
pub proof fn lemma_substituted_restored(encoded: Seq<u8>, alphabet: Seq<u8>)
    requires
        is_alphabet(alphabet),
        restored(encoded, alphabet) is Some,
    ensures
        is_base64_text(restored(encoded, alphabet).unwrap()),
        substituted(restored(encoded, alphabet).unwrap(), alphabet) == encoded,
{
    let text = restored(encoded, alphabet).unwrap();
    assert forall|i: int| 0 <= i < text.len() implies (is_symbol(#[trigger] text[i]) || text[i]
        == PAD) && substituted_byte(alphabet, text[i]) == encoded[i] by {
        let c = encoded[i];
        assert(restored_byte(alphabet, c) is Some);
        if c != PAD {
            lemma_position(alphabet, c);
            let k = position(alphabet, c).unwrap();
            lemma_symbol_value(k);
        }
    }
    assert(substituted(text, alphabet) =~= encoded);
}

/// The position of `b` in `alphabet`, by a search from the front.
pub fn find(alphabet: &[u8; 64], b: u8) -> (found: Option<usize>)
    ensures
        found matches Some(i) ==> i < 64 && position(alphabet@, b) == Some(i as int),
        found is None ==> position(alphabet@, b) is None,
{
    let mut i: usize = 0;
    while i < 64
        invariant
            i <= 64,
            forall|j: int| 0 <= j < i ==> alphabet@[j] != b,
        decreases 64 - i,
    {
        if alphabet[i] == b {
            proof {
                lemma_position_found(alphabet@, b, i as int);
            }
            return Some(i);
        }
        i = i + 1;
    }
    proof {
        lemma_position(alphabet@, b);
    }
    None
}

/// Substitutes every symbol of a base64 text through `alphabet`; padding stays.
pub fn substitute(text: &[u8], alphabet: &[u8; 64]) -> (encoded: Vec<u8>)
    requires
        is_base64_text(text@),
    ensures
        encoded@ == substituted(text@, alphabet@),
{
    let mut encoded: Vec<u8> = Vec::new();
    let mut i: usize = 0;
    while i < text.len()
        invariant
            i <= text@.len(),
            is_base64_text(text@),
            encoded@.len() == i,
            forall|k: int| 0 <= k < i ==> encoded@[k] == substituted_byte(alphabet@, text@[k]),
        decreases text@.len() - i,
    {
        let b: u8 = text[i];
        if b == PAD {
            encoded.push(PAD);
        } else {
            assert(is_symbol(text@[i as int]));
            proof {
                lemma_value_symbol(b);
            }
            let value: u8 = value_of(b).unwrap();
            encoded.push(alphabet[value as usize]);
        }
        i = i + 1;
    }
    assert(encoded@ =~= substituted(text@, alphabet@));
    encoded
}

/// Replaces every member of `alphabet` by the canonical symbol of its position;
/// padding stays. Fails with `InvalidCharacter` exactly where some byte is neither.
pub fn restore(encoded: &[u8], alphabet: &[u8; 64]) -> (text: Result<Vec<u8>, CodecError>)
    ensures
        outcome(text) == match restored(encoded@, alphabet@) {
            Some(t) => Ok::<Seq<u8>, CodecError>(t),
            None => Err(CodecError::InvalidCharacter),
        },
{
    let mut text: Vec<u8> = Vec::new();
    let mut i: usize = 0;
    while i < encoded.len()
        invariant
            i <= encoded@.len(),
            text@.len() == i,
            forall|k: int|
                0 <= k < i ==> restored_byte(alphabet@, #[trigger] encoded@[k]) == Some(text@[k]),
        decreases encoded@.len() - i,
    {
        let b: u8 = encoded[i];
        if b == PAD {
            text.push(PAD);
        } else {
            match find(alphabet, b) {
                Some(at) => {
                    text.push(symbol_for(at as u8));
                },
                None => {
                    assert(restored_byte(alphabet@, encoded@[i as int]) is None);
                    return Err(CodecError::InvalidCharacter);
                },
            }
        }
        i = i + 1;
    }
    assert(restored(encoded@, alphabet@).unwrap() =~= text@);
    Ok(text)
}

/// Reads `encoded` leniently as canonical text: padding and symbols stay, and every
/// other byte is replaced by `A`.
pub fn restore_leniently(encoded: &[u8]) -> (text: Vec<u8>)
    ensures
        text@ == lenient_text(encoded@),
{
    let mut text: Vec<u8> = Vec::new();
    let mut i: usize = 0;
    while i < encoded.len()
        invariant
            i <= encoded@.len(),
            text@.len() == i,
            forall|k: int| 0 <= k < i ==> text@[k] == lenient_text(encoded@)[k],
        decreases encoded@.len() - i,
    {
        let b: u8 = encoded[i];
        if b == PAD {
            text.push(PAD);
        } else {
            match value_of(b) {
                Some(value) => {
                    proof {
                        lemma_value_symbol(b);
                    }
                    text.push(symbol_for(value));
                },
                None => {
                    text.push(symbol_for(0));
                },
            }
        }
        i = i + 1;
    }
    assert(text@ =~= lenient_text(encoded@));
    text
}

} // verus!
