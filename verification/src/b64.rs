//! Standard base64 with padding, as a function on byte sequences.

use crate::alphabet::{is_symbol, lemma_symbol_value, symbol, symbol_value, PAD};
use vstd::prelude::*;

verus! {

/// The four symbols that stand for three bytes: the 24 bits, most significant first,
/// cut into four 6-bit values.
pub open spec fn group(b0: u8, b1: u8, b2: u8) -> Seq<u8> {
    let (x, y, z) = (b0 as int, b1 as int, b2 as int);
    seq![symbol(x / 4), symbol((x % 4) * 16 + y / 16), symbol((y % 16) * 4 + z / 64), symbol(z % 64)]
}

/// The base64 text of `bytes`: one group of four symbols for every three bytes, and
/// for one or two bytes left over a last group of two or three symbols filled up with
/// `=`. The bits that a last group has to spare are zero.
pub open spec fn base64_text(bytes: Seq<u8>) -> Seq<u8>
    decreases bytes.len(),
{
    if bytes.len() == 0 {
        Seq::empty()
    } else if bytes.len() == 1 {
        let x = bytes[0] as int;
        seq![symbol(x / 4), symbol((x % 4) * 16), PAD, PAD]
    } else if bytes.len() == 2 {
        let (x, y) = (bytes[0] as int, bytes[1] as int);
        seq![symbol(x / 4), symbol((x % 4) * 16 + y / 16), symbol((y % 16) * 4), PAD]
    } else {
        group(bytes[0], bytes[1], bytes[2]) + base64_text(bytes.skip(3))
    }
}

/// The length of the base64 text of `n` bytes.
pub open spec fn base64_len(n: nat) -> nat {
    ((n + 2) / 3 * 4) as nat
}

/// Whether every byte of `text` is a canonical symbol or the padding byte.
pub open spec fn is_base64_text(text: Seq<u8>) -> bool {
    forall|i: int| 0 <= i < text.len() ==> is_symbol(#[trigger] text[i]) || text[i] == PAD
}

/// The bytes that `text` is the base64 text of; `None` where it is the text of none.
/// Decoding is strict: a text with symbols outside the alphabet, with missing or
/// misplaced padding, or with spare bits set, stands for no bytes at all.
pub open spec fn base64_bytes(text: Seq<u8>) -> Option<Seq<u8>> {
    if exists|bytes: Seq<u8>| base64_text(bytes) == text {
        Some(choose|bytes: Seq<u8>| base64_text(bytes) == text)
    } else {
        None
    }
}

/// The text of `n` bytes is `base64_len(n)` bytes long.
pub proof fn lemma_text_len(bytes: Seq<u8>)
    ensures
        base64_text(bytes).len() == base64_len(bytes.len()),
    decreases bytes.len(),
{
    if bytes.len() >= 3 {
        lemma_text_len(bytes.skip(3));
    }
}

/// A base64 text holds only symbols and padding.
pub proof fn lemma_text_symbols(bytes: Seq<u8>)
    ensures
        is_base64_text(base64_text(bytes)),
    decreases bytes.len(),
{
    let text = base64_text(bytes);
    if bytes.len() == 0 {
    } else if bytes.len() == 1 {
        lemma_symbol_value(bytes[0] as int / 4);
        lemma_symbol_value((bytes[0] as int % 4) * 16);
    } else if bytes.len() == 2 {
        lemma_symbol_value(bytes[0] as int / 4);
        lemma_symbol_value((bytes[0] as int % 4) * 16 + bytes[1] as int / 16);
        lemma_symbol_value((bytes[1] as int % 16) * 4);
    } else {
        lemma_text_symbols(bytes.skip(3));
        lemma_group(bytes[0], bytes[1], bytes[2]);
        let head = group(bytes[0], bytes[1], bytes[2]);
        let tail = base64_text(bytes.skip(3));
        assert forall|i: int| 0 <= i < text.len() implies is_symbol(#[trigger] text[i]) || text[i]
            == PAD by {
            if i < 4 {
                assert(text[i] == head[i]);
            } else {
                assert(text[i] == tail[i - 4]);
            }
        }
    }
}

/// A full group is four symbols, and tells its three bytes.
pub proof fn lemma_group(b0: u8, b1: u8, b2: u8)
    ensures
        group(b0, b1, b2).len() == 4,
        forall|i: int| 0 <= i < 4 ==> is_symbol(#[trigger] group(b0, b1, b2)[i]),
        symbol_value(group(b0, b1, b2)[0]) == Some((b0 / 4) as u8),
        symbol_value(group(b0, b1, b2)[1]) == Some(((b0 % 4) * 16 + b1 / 16) as u8),
        symbol_value(group(b0, b1, b2)[2]) == Some(((b1 % 16) * 4 + b2 / 64) as u8),
        symbol_value(group(b0, b1, b2)[3]) == Some((b2 % 64) as u8),
{
    lemma_symbol_value(b0 as int / 4);
    lemma_symbol_value((b0 as int % 4) * 16 + b1 as int / 16);
    lemma_symbol_value((b1 as int % 16) * 4 + b2 as int / 64);
    lemma_symbol_value(b2 as int % 64);
}

/// Two full groups that are equal stand for the same three bytes.
proof fn lemma_group_injective(a0: u8, a1: u8, a2: u8, b0: u8, b1: u8, b2: u8)
    requires
        group(a0, a1, a2) == group(b0, b1, b2),
    ensures
        a0 == b0,
        a1 == b1,
        a2 == b2,
{
    lemma_group(a0, a1, a2);
    lemma_group(b0, b1, b2);
    let ga = group(a0, a1, a2);
    let gb = group(b0, b1, b2);
    assert(ga[0] == gb[0] && ga[1] == gb[1] && ga[2] == gb[2] && ga[3] == gb[3]);
}

/// Different byte sequences have different texts.
pub proof fn lemma_text_injective(a: Seq<u8>, b: Seq<u8>)
    requires
        base64_text(a) == base64_text(b),
    ensures
        a == b,
    decreases a.len(),
{
    let ta = base64_text(a);
    let tb = base64_text(b);
    lemma_text_len(a);
    lemma_text_len(b);
    if a.len() == 0 || b.len() == 0 {
        assert(a =~= b);
    } else if a.len() >= 3 && b.len() >= 3 {
        let ga = group(a[0], a[1], a[2]);
        let gb = group(b[0], b[1], b[2]);
        let ra = base64_text(a.skip(3));
        let rb = base64_text(b.skip(3));
        assert(ta == ga + ra);
        assert(tb == gb + rb);
        lemma_group(a[0], a[1], a[2]);
        lemma_group(b[0], b[1], b[2]);
        assert(ga =~= gb) by {
            assert forall|i: int| 0 <= i < 4 implies ga[i] == gb[i] by {
                assert(ta[i] == ga[i]);
                assert(tb[i] == gb[i]);
            }
        }
        assert(ra =~= rb) by {
            lemma_text_len(a.skip(3));
            lemma_text_len(b.skip(3));
            assert forall|i: int| 0 <= i < ra.len() implies ra[i] == rb[i] by {
                assert(ta[i + 4] == ra[i]);
                assert(tb[i + 4] == rb[i]);
            }
        }
        lemma_group_injective(a[0], a[1], a[2], b[0], b[1], b[2]);
        lemma_text_injective(a.skip(3), b.skip(3));
        assert(a =~= b) by {
            assert(a.len() == b.len());
            assert forall|i: int| 0 <= i < a.len() implies a[i] == b[i] by {
                if i >= 3 {
                    assert(a[i] == a.skip(3)[i - 3]);
                    assert(b[i] == b.skip(3)[i - 3]);
                }
            }
        }
    } else {
        lemma_last_group_injective(a, b);
    }
}

/// The case of `lemma_text_injective` in which one of the two is shorter than three
/// bytes: its text is a single group with padding, which only a text of the same
/// length and the same bytes can equal.
proof fn lemma_last_group_injective(a: Seq<u8>, b: Seq<u8>)
    requires
        base64_text(a) == base64_text(b),
        0 < a.len(),
        0 < b.len(),
        a.len() < 3 || b.len() < 3,
    ensures
        a == b,
{
    let ta = base64_text(a);
    let tb = base64_text(b);
    lemma_text_len(a);
    lemma_text_len(b);
    lemma_first_group(a);
    lemma_first_group(b);
    assert(a.len() <= 3 && b.len() <= 3);
    assert(ta[0] == tb[0] && ta[1] == tb[1] && ta[2] == tb[2] && ta[3] == tb[3]);
    assert(a.len() == b.len());
    assert(a =~= b);
}

/// What the first four bytes of a non-empty text are, in values.
proof fn lemma_first_group(bytes: Seq<u8>)
    requires
        bytes.len() > 0,
    ensures
        base64_text(bytes).len() >= 4,
        symbol_value(base64_text(bytes)[0]) == Some((bytes[0] / 4) as u8),
        bytes.len() == 1 ==> {
            &&& symbol_value(base64_text(bytes)[1]) == Some(((bytes[0] % 4) * 16) as u8)
            &&& base64_text(bytes)[2] == PAD
            &&& base64_text(bytes)[3] == PAD
        },
        bytes.len() == 2 ==> {
            &&& symbol_value(base64_text(bytes)[1]) == Some(
                ((bytes[0] % 4) * 16 + bytes[1] / 16) as u8,
            )
            &&& symbol_value(base64_text(bytes)[2]) == Some(((bytes[1] % 16) * 4) as u8)
            &&& base64_text(bytes)[3] == PAD
        },
        bytes.len() >= 3 ==> {
            &&& symbol_value(base64_text(bytes)[1]) == Some(
                ((bytes[0] % 4) * 16 + bytes[1] / 16) as u8,
            )
            &&& symbol_value(base64_text(bytes)[2]) == Some(
                ((bytes[1] % 16) * 4 + bytes[2] / 64) as u8,
            )
            &&& symbol_value(base64_text(bytes)[3]) == Some((bytes[2] % 64) as u8)
        },
{
    lemma_text_len(bytes);
    lemma_symbol_value(bytes[0] as int / 4);
    if bytes.len() == 1 {
        lemma_symbol_value((bytes[0] as int % 4) * 16);
    } else if bytes.len() == 2 {
        lemma_symbol_value((bytes[0] as int % 4) * 16 + bytes[1] as int / 16);
        lemma_symbol_value((bytes[1] as int % 16) * 4);
    } else {
        lemma_group(bytes[0], bytes[1], bytes[2]);
        let head = group(bytes[0], bytes[1], bytes[2]);
        let text = base64_text(bytes);
        assert(text[0] == head[0] && text[1] == head[1] && text[2] == head[2] && text[3]
            == head[3]);
    }
}

/// Decoding the text of `bytes` gives `bytes` back.
pub proof fn lemma_bytes_of_text(bytes: Seq<u8>)
    ensures
        base64_bytes(base64_text(bytes)) == Some(bytes),
{
    let text = base64_text(bytes);
    let found = choose|other: Seq<u8>| base64_text(other) == text;
    lemma_text_injective(found, bytes);
}

} // verus!
