use cyphersolbase::alphabet::{alphabet_from_digest, canonical_alphabet, symbol_for, value_of};
use cyphersolbase::derive_alphabet;
use cyphersolbase::substitution::{find, restore, restore_leniently, substitute};
use cyphersolbase::CodecError;

const CANONICAL: &[u8; 64] = b"ABCDEFGHIJKLMNOPQRSTUVWXYZabcdefghijklmnopqrstuvwxyz0123456789+/";

fn is_permutation(alphabet: &[u8; 64]) -> bool {
    let mut sorted = *alphabet;
    sorted.sort();
    let mut canonical = *CANONICAL;
    canonical.sort();
    sorted == canonical
}

#[test]
fn canonical_alphabet_is_the_standard_one() {
    assert_eq!(&canonical_alphabet(), CANONICAL);
}

#[test]
fn symbols_and_values_correspond() {
    for value in 0..64u8 {
        assert_eq!(symbol_for(value), CANONICAL[value as usize]);
        assert_eq!(value_of(CANONICAL[value as usize]), Some(value));
    }
    for b in 0..=255u8 {
        assert_eq!(value_of(b).is_some(), CANONICAL.contains(&b));
    }
    assert_eq!(value_of(b'='), None);
}

#[test]
fn derived_alphabets_are_the_known_ones() {
    assert_eq!(
        &derive_alphabet(b"secret_key"),
        b"lZxOhgGfSnsPqNtyKWvdb4ic1Lmr+/8YzIpuBDwAkF35X6aUM20j79JeCEQoHRTV"
    );
    assert_eq!(
        &derive_alphabet(b""),
        b"jDoSJsiOCH+Tl8591hL6RwnyfuP2UvqBFXmMW/GZIYpax47QA0rVk3KgtbdeNzcE"
    );
    assert_eq!(
        &derive_alphabet(b"k"),
        b"cVLyu6WqZFn+4gkHT1j35AUwXmIYCvrd8NebBO2lGa9pMhtKzRsDfx0SQ/o7iEJP"
    );
    assert_eq!(
        &derive_alphabet(b"key"),
        b"Nx/fQLMs6BaG2HCJ0hlye4AF1OocVuIitXv9UrWTEdkmzn7RZSp3K+gjwDq8Yb5P"
    );
}

#[test]
fn derive_alphabet_is_deterministic() {
    assert_eq!(derive_alphabet(b"secret_key"), derive_alphabet(b"secret_key"));
    assert_eq!(derive_alphabet(b""), derive_alphabet(b""));
}

#[test]
fn derived_alphabets_are_permutations() {
    for len in 0..200usize {
        let seed: Vec<u8> = (0..len).map(|i| (i * 11 + len * 3) as u8).collect();
        assert!(is_permutation(&derive_alphabet(&seed)));
    }
}

#[test]
fn zero_digest_leaves_the_alphabet_canonical() {
    assert_eq!(&alphabet_from_digest(&[0u8; 32]), CANONICAL);
    assert_eq!(&alphabet_from_digest(&[64u8; 32]), CANONICAL);
}

#[test]
fn digest_of_ones_moves_the_second_symbol_to_the_end() {
    let moved = alphabet_from_digest(&[1u8; 32]);
    assert_eq!(
        &moved,
        b"ACDEFGHIJKLMNOPQRSTUVWXYZabcdefghijklmnopqrstuvwxyz0123456789+/B"
    );
}

#[test]
fn every_digest_gives_a_permutation() {
    for fill in 0..=255u8 {
        let mut digest = [fill; 32];
        digest[7] = fill.wrapping_mul(3);
        digest[31] = fill.wrapping_add(91);
        assert!(is_permutation(&alphabet_from_digest(&digest)));
    }
}

#[test]
fn find_gives_the_first_position() {
    let alphabet = derive_alphabet(b"secret_key");
    for at in 0..64usize {
        assert_eq!(find(&alphabet, alphabet[at]), Some(at));
    }
    assert_eq!(find(&alphabet, b'='), None);
    assert_eq!(find(&alphabet, b'!'), None);
    assert_eq!(find(&[b'x'; 64], b'x'), Some(0));
}

#[test]
fn substitution_keeps_padding() {
    let alphabet = derive_alphabet(b"secret_key");
    assert_eq!(substitute(b"AB==", &alphabet), b"lZ==".to_vec());
    assert_eq!(substitute(b"", &alphabet), Vec::<u8>::new());
    assert_eq!(substitute(b"+/09", &alphabet), b"TV7R".to_vec());
}

#[test]
fn restore_undoes_substitution() {
    let alphabet = derive_alphabet(b"secret_key");
    assert_eq!(restore(b"lZ==", &alphabet), Ok(b"AB==".to_vec()));
    assert_eq!(restore(b"TV7R", &alphabet), Ok(b"+/09".to_vec()));
    let text = b"ABCDEFGHIJKLMNOPQRSTUVWXYZabcdefghijklmnopqrstuvwxyz0123456789+/==";
    assert_eq!(restore(&substitute(text, &alphabet), &alphabet), Ok(text.to_vec()));
}

#[test]
fn restore_rejects_what_is_not_in_the_alphabet() {
    let alphabet = derive_alphabet(b"secret_key");
    assert_eq!(restore(b"lZ!=", &alphabet), Err(CodecError::InvalidCharacter));
    assert_eq!(restore(b" ", &alphabet), Err(CodecError::InvalidCharacter));
    assert_eq!(restore(&[0x80], &alphabet), Err(CodecError::InvalidCharacter));
}

#[test]
fn lenient_reading_replaces_unknown_bytes() {
    assert_eq!(restore_leniently(b"Ab1+/=!\x00\xff"), b"Ab1+/=AAA".to_vec());
    assert_eq!(restore_leniently(b""), Vec::<u8>::new());
}
