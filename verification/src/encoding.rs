//! UTF-16 encoding of a text, and the way back through the decoder.

use crate::utf16::{
    collect_lossy, decode, decode_from, is_first_error, is_surrogate, item_at, lossy_text,
    pair_at, scalar_of, strict_text, width_at, DecodeError, Item,
};
use vstd::prelude::*;

verus! {

/// The code units of one scalar value: itself within the Basic Multilingual
/// Plane, a surrogate pair above it.
pub open spec fn encode_scalar(c: char) -> Seq<u16> {
    if (c as int) < 0x10000 {
        seq![c as u16]
    } else {
        seq![
            (0xD800 + (c as int - 0x10000) / 0x400) as u16,
            (0xDC00 + (c as int - 0x10000) % 0x400) as u16,
        ]
    }
}

/// The code units of a text.
pub open spec fn encode(text: Seq<char>) -> Seq<u16>
    decreases text.len(),
{
    if text.len() == 0 {
        Seq::empty()
    } else {
        encode_scalar(text[0]) + encode(text.drop_first())
    }
}

/// Every scalar value of `text` lies within the Basic Multilingual Plane.
pub open spec fn is_bmp_text(text: Seq<char>) -> bool {
    forall|i: int| 0 <= i < text.len() ==> ((#[trigger] text[i]) as int) < 0x10000
}

/// None of `units` is a surrogate.
pub open spec fn has_no_surrogate(units: Seq<u16>) -> bool {
    forall|i: int| 0 <= i < units.len() ==> !is_surrogate(#[trigger] units[i])
}

/// Each item as the success that it is.
pub open spec fn all_ok(text: Seq<char>) -> Seq<Item> {
    text.map_values(|c: char| Ok::<char, DecodeError>(c))
}

/// A scalar value is a code point that is no surrogate.
proof fn lemma_scalar_range(c: char)
    ensures
        0 <= c as int <= 0x10FFFF,
        !(0xD800 <= c as int <= 0xDFFF),
{
}

proof fn lemma_decode_after_prefix(prefix: Seq<u16>, units: Seq<u16>, i: int)
    requires
        0 <= i,
    ensures
        decode_from(prefix + units, prefix.len() + i) == decode_from(units, i),
    decreases units.len() - i,
{
    let whole = prefix + units;
    let at = prefix.len() + i;
    if i < units.len() {
        assert(whole[at] == units[i]);
        if i + 1 < units.len() {
            assert(whole[at + 1] == units[i + 1]);
        }
        assert(pair_at(whole, at) == pair_at(units, i));
        assert(item_at(whole, at) == item_at(units, i));
        lemma_decode_after_prefix(prefix, units, i + width_at(units, i));
    }
}

proof fn lemma_decode_scalar_first(c: char, units: Seq<u16>)
    ensures
        decode(encode_scalar(c) + units) == seq![Ok::<char, DecodeError>(c)] + decode(units),
{
    let head = encode_scalar(c);
    let whole = head + units;
    assert(whole[0] == head[0]);
    if (c as int) < 0x10000 {
        assert(!is_surrogate(whole[0]));
        assert(!pair_at(whole, 0));
        assert(whole[0] as char == c);
    } else {
        let offset = c as int - 0x10000;
        assert(0 <= offset / 0x400 <= 0x3FF);
        assert(0 <= offset % 0x400 <= 0x3FF);
        assert(offset == (offset / 0x400) * 0x400 + offset % 0x400);
        assert(whole[1] == head[1]);
        assert(pair_at(whole, 0));
    }
    assert(item_at(whole, 0) == Ok::<char, DecodeError>(c));
    assert(width_at(whole, 0) == head.len());
    lemma_decode_after_prefix(head, units, 0);
}

/// Decoding what a text was encoded to gives each of its scalar values, with
/// no error among them.
pub proof fn lemma_decode_encode(text: Seq<char>)
    ensures
        decode(encode(text)) == all_ok(text),
    decreases text.len(),
{
    if text.len() == 0 {
        assert(decode(encode(text)) =~= all_ok(text));
    } else {
        let rest = text.drop_first();
        lemma_decode_encode(rest);
        lemma_decode_scalar_first(text[0], encode(rest));
        assert(seq![Ok::<char, DecodeError>(text[0])] + all_ok(rest) =~= all_ok(text));
    }
}

/// A text that is encoded and then decoded, strictly or lossily, comes back
/// as it was. This holds of every text, and so of ASCII and of text within
/// the Basic Multilingual Plane.
pub proof fn lemma_round_trip(text: Seq<char>)
    ensures
        strict_text(encode(text)) == Ok::<Seq<char>, DecodeError>(text),
        lossy_text(encode(text)) == text,
{
    lemma_decode_encode(text);
    let items = all_ok(text);
    assert(!exists|k: int| is_first_error(items, k));
    assert(items.map_values(|item: Item| scalar_of(item)) =~= text);
    assert(collect_lossy(items) =~= text);
}

/// A text within the Basic Multilingual Plane is encoded one code unit to the
/// scalar value, and none of them is a surrogate.
pub proof fn lemma_encode_bmp(text: Seq<char>)
    requires
        is_bmp_text(text),
    ensures
        encode(text) == text.map_values(|c: char| c as u16),
        has_no_surrogate(encode(text)),
    decreases text.len(),
{
    let units = text.map_values(|c: char| c as u16);
    if text.len() == 0 {
        assert(encode(text) =~= units);
    } else {
        let rest = text.drop_first();
        assert(is_bmp_text(rest)) by {
            assert forall|i: int| 0 <= i < rest.len() implies ((#[trigger] rest[i]) as int)
                < 0x10000 by {
                assert(rest[i] == text[i + 1]);
            }
        }
        lemma_encode_bmp(rest);
        assert(encode(text) =~= units);
    }
    assert forall|i: int| 0 <= i < encode(text).len() implies !is_surrogate(
        #[trigger] encode(text)[i],
    ) by {
        lemma_scalar_range(text[i]);
        assert(encode(text)[i] == text[i] as u16);
    }
}

/// Code units without a surrogate among them decode strictly to the text that
/// has each code unit as its scalar value, and that text encodes to them again.
pub proof fn lemma_strict_text_without_surrogates(units: Seq<u16>)
    requires
        has_no_surrogate(units),
    ensures
        strict_text(units) == Ok::<Seq<char>, DecodeError>(units.map_values(|u: u16| u as char)),
        encode(units.map_values(|u: u16| u as char)) == units,
{
    let text = units.map_values(|u: u16| u as char);
    assert forall|i: int| 0 <= i < text.len() implies ((#[trigger] text[i]) as int) < 0x10000 by {
        assert(!is_surrogate(units[i]));
        assert(text[i] == units[i] as char);
    }
    lemma_encode_bmp(text);
    assert(encode(text) =~= units) by {
        assert forall|i: int| 0 <= i < units.len() implies text.map_values(|c: char| c as u16)[i]
            == units[i] by {
            assert(!is_surrogate(units[i]));
            assert(text[i] == units[i] as char);
        }
    }
    lemma_round_trip(text);
}

} // verus!
