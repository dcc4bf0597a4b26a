//! Which code units cannot be decoded, told position by position, and what
//! strict and lossy decoding make of them.

use crate::utf16::{
    collect_lossy, decode, decode_from, is_first_error, is_surrogate, item_at, lossy_text,
    pair_at, pair_scalar, scalar_of, scalar_or_replacement, strict_text, width_at, DecodeError,
    Item, REPLACEMENT_CHARACTER,
};
use vstd::prelude::*;

verus! {

/// The code unit at position `i` is a surrogate without its partner: it
/// neither opens a pair with the unit after it nor closes one with the unit
/// before it.
pub open spec fn unpaired_at(units: Seq<u16>, i: int) -> bool {
    &&& 0 <= i < units.len()
    &&& is_surrogate(units[i])
    &&& !pair_at(units, i)
    &&& !pair_at(units, i - 1)
}

/// `k` is the first position of a surrogate without its partner.
pub open spec fn is_first_unpaired(units: Seq<u16>, k: int) -> bool {
    &&& unpaired_at(units, k)
    &&& forall|j: int| 0 <= j < k ==> !unpaired_at(units, j)
}

/// What the code unit at position `i` adds to the text: the scalar of the
/// pair it opens, nothing where it closes a pair, U+FFFD where it is a
/// surrogate without its partner, and otherwise itself.
pub open spec fn rendered_at(units: Seq<u16>, i: int) -> Seq<char>
    recommends
        0 <= i < units.len(),
{
    if pair_at(units, i) {
        seq![pair_scalar(units[i], units[i + 1])]
    } else if pair_at(units, i - 1) {
        Seq::empty()
    } else if is_surrogate(units[i]) {
        seq![REPLACEMENT_CHARACTER]
    } else {
        seq![units[i] as char]
    }
}

/// What the code units from position `i` on add to the text, one after another.
pub open spec fn rendered_from(units: Seq<u16>, i: int) -> Seq<char>
    decreases units.len() - i,
{
    if 0 <= i < units.len() {
        rendered_at(units, i) + rendered_from(units, i + 1)
    } else {
        Seq::empty()
    }
}

/// An item starts at position `i`, or the code units end there.
spec fn starts_at(units: Seq<u16>, i: int) -> bool {
    0 <= i <= units.len() && !pair_at(units, i - 1)
}

proof fn lemma_unfold(units: Seq<u16>, i: int)
    requires
        0 <= i < units.len(),
    ensures
        decode_from(units, i) == seq![item_at(units, i)] + decode_from(
            units,
            i + width_at(units, i),
        ),
        decode_from(units, i).len() > 0,
        decode_from(units, i)[0] == item_at(units, i),
        decode_from(units, i).drop_first() == decode_from(units, i + width_at(units, i)),
{
    let rest = decode_from(units, i + width_at(units, i));
    assert((seq![item_at(units, i)] + rest).drop_first() =~= rest);
}

proof fn lemma_lossy_from(units: Seq<u16>, i: int)
    requires
        starts_at(units, i),
    ensures
        collect_lossy(decode_from(units, i)) == rendered_from(units, i),
    decreases units.len() - i,
{
    if i < units.len() {
        let next = i + width_at(units, i);
        lemma_unfold(units, i);
        lemma_lossy_from(units, next);
        let head = seq![item_at(units, i)];
        let tail = decode_from(units, next);
        assert(collect_lossy(head + tail) =~= collect_lossy(head) + collect_lossy(tail));
        assert(collect_lossy(head) =~= seq![scalar_or_replacement(item_at(units, i))]);
        if pair_at(units, i) {
            assert(rendered_at(units, i + 1) =~= Seq::<char>::empty());
            assert(rendered_from(units, i + 1) =~= rendered_from(units, i + 2));
        }
    } else {
        assert(collect_lossy(decode_from(units, i)) =~= Seq::<char>::empty());
    }
}

proof fn lemma_all_paired_from(units: Seq<u16>, i: int)
    requires
        starts_at(units, i),
        forall|j: int| i <= j < units.len() ==> !unpaired_at(units, j),
    ensures
        forall|k: int|
            0 <= k < decode_from(units, i).len() ==> (#[trigger] decode_from(units, i)[k]) is Ok,
    decreases units.len() - i,
{
    if i < units.len() {
        let next = i + width_at(units, i);
        lemma_unfold(units, i);
        lemma_all_paired_from(units, next);
        assert(!unpaired_at(units, i));
        let items = decode_from(units, i);
        let tail = decode_from(units, next);
        assert forall|k: int| 0 <= k < items.len() implies (#[trigger] items[k]) is Ok by {
            if k > 0 {
                assert(items[k] == tail[k - 1]);
            }
        }
    }
}

proof fn lemma_first_unpaired_from(units: Seq<u16>, i: int, first: int)
    requires
        starts_at(units, i),
        i <= first,
        unpaired_at(units, first),
        forall|j: int| i <= j < first ==> !unpaired_at(units, j),
    ensures
        exists|k: int|
            is_first_error(decode_from(units, i), k) && decode_from(units, i)[k] == Err::<
                char,
                DecodeError,
            >(DecodeError { code: units[first] }),
    decreases units.len() - i,
{
    let items = decode_from(units, i);
    lemma_unfold(units, i);
    if i == first {
        assert(is_first_error(items, 0));
    } else {
        let next = i + width_at(units, i);
        assert(!unpaired_at(units, i));
        assert(next <= first) by {
            if pair_at(units, i) {
                assert(!unpaired_at(units, i + 1));
            }
        }
        lemma_first_unpaired_from(units, next, first);
        let tail = decode_from(units, next);
        let k = choose|k: int|
            is_first_error(tail, k) && tail[k] == Err::<char, DecodeError>(
                DecodeError { code: units[first] },
            );
        assert forall|j: int| 0 <= j < k + 1 implies (#[trigger] items[j]) is Ok by {
            if j > 0 {
                assert(items[j] == tail[j - 1]);
            }
        }
        assert(items[k + 1] == tail[k]);
        assert(is_first_error(items, k + 1));
    }
}

proof fn lemma_least_unpaired(units: Seq<u16>, from: int, some: int) -> (first: int)
    requires
        0 <= from <= some,
        unpaired_at(units, some),
        forall|j: int| 0 <= j < from ==> !unpaired_at(units, j),
    ensures
        is_first_unpaired(units, first),
    decreases some - from,
{
    if unpaired_at(units, from) {
        from
    } else {
        lemma_least_unpaired(units, from + 1, some)
    }
}

/// Among any items, the first error stands at one position only.
pub proof fn lemma_first_error_unique(items: Seq<Item>, a: int, b: int)
    requires
        is_first_error(items, a),
        is_first_error(items, b),
    ensures
        a == b,
{
    if a < b {
        assert(items[a] is Ok);
    }
    if b < a {
        assert(items[b] is Ok);
    }
}

/// Lossy decoding goes position by position: each code unit adds what
/// [`rendered_at`] says, so every surrogate without its partner becomes one
/// U+FFFD and nothing around it is lost.
pub proof fn lemma_lossy_text_rendered(units: Seq<u16>)
    ensures
        lossy_text(units) == rendered_from(units, 0),
        forall|i: int| unpaired_at(units, i) ==> #[trigger] rendered_at(units, i) == seq![
            REPLACEMENT_CHARACTER,
        ],
{
    lemma_lossy_from(units, 0);
}

/// Strict decoding fails on the first surrogate that stands without its
/// partner, and names it.
pub proof fn lemma_strict_text_first_unpaired(units: Seq<u16>, first: int)
    requires
        is_first_unpaired(units, first),
    ensures
        strict_text(units) == Err::<Seq<char>, DecodeError>(DecodeError { code: units[first] }),
{
    let items = decode(units);
    lemma_first_unpaired_from(units, 0, first);
    let k = choose|k: int|
        is_first_error(items, k) && items[k] == Err::<char, DecodeError>(
            DecodeError { code: units[first] },
        );
    let chosen = choose|k: int| is_first_error(items, k);
    lemma_first_error_unique(items, k, chosen);
}

/// Strict decoding fails if and only if some surrogate stands without its
/// partner. Where none does, it gives the text that lossy decoding gives.
pub proof fn lemma_strict_text_fails_iff_unpaired(units: Seq<u16>)
    ensures
        strict_text(units) is Err <==> exists|i: int| unpaired_at(units, i),
        strict_text(units) is Ok ==> strict_text(units) == Ok::<Seq<char>, DecodeError>(
            lossy_text(units),
        ),
{
    let items = decode(units);
    if exists|i: int| unpaired_at(units, i) {
        let some = choose|i: int| unpaired_at(units, i);
        let first = lemma_least_unpaired(units, 0, some);
        lemma_strict_text_first_unpaired(units, first);
    } else {
        lemma_all_paired_from(units, 0);
        assert(!exists|k: int| is_first_error(items, k));
        assert(items.map_values(|item: Item| scalar_of(item)) =~= collect_lossy(items));
    }
}

/// Where any surrogate stands without its partner, strict decoding fails,
/// while lossy decoding gives a text that has U+FFFD for that code unit.
pub proof fn lemma_unpaired_surrogate(units: Seq<u16>, i: int)
    requires
        unpaired_at(units, i),
    ensures
        strict_text(units) is Err,
        lossy_text(units) == rendered_from(units, 0),
        rendered_at(units, i) == seq![REPLACEMENT_CHARACTER],
{
    lemma_strict_text_fails_iff_unpaired(units);
    lemma_lossy_text_rendered(units);
}

} // verus!
