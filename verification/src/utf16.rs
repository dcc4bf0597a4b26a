//! UTF-16 decoding of code units that may hold unpaired surrogates.

use vstd::prelude::*;

verus! {

/// U+FFFD, which lossy decoding writes for every code unit that cannot be decoded.
pub const REPLACEMENT_CHARACTER: char = '\u{FFFD}';

/// A surrogate code unit that has no partner where it stands.
#[derive(Clone, Copy, Debug, PartialEq, Eq, Structural)]
pub struct DecodeError {
    pub code: u16,
}

impl DecodeError {
    /// The code unit that could not be decoded.
    pub fn unpaired_surrogate(&self) -> (code: u16)
        ensures
            code == self.code,
    {
        self.code
    }
}

/// What one step of decoding yields: a scalar value, or the surrogate that stood alone.
pub type Item = Result<char, DecodeError>;

/// `unit` opens a surrogate pair (U+D800 ..= U+DBFF).
pub open spec fn is_leading_surrogate(unit: u16) -> bool {
    0xD800 <= unit <= 0xDBFF
}

/// `unit` closes a surrogate pair (U+DC00 ..= U+DFFF).
pub open spec fn is_trailing_surrogate(unit: u16) -> bool {
    0xDC00 <= unit <= 0xDFFF
}

/// `unit` is a surrogate of either kind.
pub open spec fn is_surrogate(unit: u16) -> bool {
    0xD800 <= unit <= 0xDFFF
}

/// The scalar value above the Basic Multilingual Plane that a surrogate pair encodes.
pub open spec fn pair_scalar(leading: u16, trailing: u16) -> char
    recommends
        is_leading_surrogate(leading),
        is_trailing_surrogate(trailing),
{
    (0x10000 + (leading - 0xD800) * 0x400 + (trailing - 0xDC00)) as char
}

/// A surrogate pair starts at position `i`.
pub open spec fn pair_at(units: Seq<u16>, i: int) -> bool {
    &&& 0 <= i
    &&& i + 1 < units.len()
    &&& is_leading_surrogate(units[i])
    &&& is_trailing_surrogate(units[i + 1])
}

/// How many code units the item that starts at position `i` takes up.
pub open spec fn width_at(units: Seq<u16>, i: int) -> int {
    if pair_at(units, i) {
        2
    } else {
        1
    }
}

/// The item that starts at position `i`: the scalar of a pair, an error for a
/// surrogate without its partner, and otherwise the code unit itself.
pub open spec fn item_at(units: Seq<u16>, i: int) -> Item
    recommends
        0 <= i < units.len(),
{
    if pair_at(units, i) {
        Ok(pair_scalar(units[i], units[i + 1]))
    } else if is_surrogate(units[i]) {
        Err(DecodeError { code: units[i] })
    } else {
        Ok(units[i] as char)
    }
}

/// The items decoded from position `i` to the end, in order.
pub open spec fn decode_from(units: Seq<u16>, i: int) -> Seq<Item>
    decreases units.len() - i,
{
    if 0 <= i < units.len() {
        seq![item_at(units, i)] + decode_from(units, i + width_at(units, i))
    } else {
        Seq::empty()
    }
}

/// The items that `units` decode to.
pub open spec fn decode(units: Seq<u16>) -> Seq<Item> {
    decode_from(units, 0)
}

/// `k` is the position of the first error among `items`.
pub open spec fn is_first_error(items: Seq<Item>, k: int) -> bool {
    &&& 0 <= k < items.len()
    &&& items[k] is Err
    &&& forall|j: int| 0 <= j < k ==> (#[trigger] items[j]) is Ok
}

/// The scalar of an item that is one.
pub open spec fn scalar_of(item: Item) -> char
    recommends
        item is Ok,
{
    item->Ok_0
}

/// The scalar of an item, or U+FFFD in place of an error.
pub open spec fn scalar_or_replacement(item: Item) -> char {
    match item {
        Ok(c) => c,
        Err(_) => REPLACEMENT_CHARACTER,
    }
}

/// Strict collection: the first error if there is one, else every scalar in order.
pub open spec fn collect_strict(items: Seq<Item>) -> Result<Seq<char>, DecodeError> {
    if exists|k: int| is_first_error(items, k) {
        let k = choose|k: int| is_first_error(items, k);
        Err(items[k]->Err_0)
    } else {
        Ok(items.map_values(|item: Item| scalar_of(item)))
    }
}

/// Lossy collection: every scalar in order, with U+FFFD in place of each error.
pub open spec fn collect_lossy(items: Seq<Item>) -> Seq<char> {
    items.map_values(|item: Item| scalar_or_replacement(item))
}

/// The text that `units` encode, or the first surrogate among them that stands alone.
pub open spec fn strict_text(units: Seq<u16>) -> Result<Seq<char>, DecodeError> {
    collect_strict(decode(units))
}

/// The text that `units` encode, with U+FFFD for every surrogate that stands alone.
pub open spec fn lossy_text(units: Seq<u16>) -> Seq<char> {
    collect_lossy(decode(units))
}

/// A cursor over code units that decodes one item at a time.
///
/// Its view is what is still to come. A decoder borrows the code units and
/// changes nothing in them, so a second decoder made from the same units
/// starts over and yields the same items.
pub struct Decoder<'a> {
    units: &'a [u16],
    pos: usize,
}

impl<'a> View for Decoder<'a> {
    type V = Seq<Item>;

    open spec fn view(&self) -> Seq<Item> {
        decode_from(self.units(), self.position())
    }
}

impl<'a> Decoder<'a> {
    #[verifier::type_invariant]
    spec fn in_bounds(self) -> bool {
        self.pos <= self.units@.len()
    }

    /// The code units that the decoder reads.
    pub closed spec fn units(&self) -> Seq<u16> {
        self.units@
    }

    /// How many code units the decoder has consumed.
    pub closed spec fn position(&self) -> int {
        self.pos as int
    }

    /// A decoder that stands before the first of `units`.
    pub fn new(units: &'a [u16]) -> (decoder: Self)
        ensures
            decoder.units() == units@,
            decoder.position() == 0,
            decoder@ == decode(units@),
    {
        Decoder { units, pos: 0 }
    }

    /// Decodes the next item and moves past it; `None` at the end.
    pub fn next(&mut self) -> (item: Option<Item>)
        ensures
            final(self).units() == old(self).units(),
            item is None <==> old(self)@.len() == 0,
            item is None ==> final(self).position() == old(self).position(),
            item is Some ==> item == Some(old(self)@[0]),
            item is Some ==> final(self)@ == old(self)@.drop_first(),
            item is Some ==> final(self).position() == old(self).position() + width_at(
                old(self).units(),
                old(self).position(),
            ),
    {
        proof {
            use_type_invariant(&*self);
        }
        let ghost units = self.units@;
        let ghost start = self.pos as int;
        if self.pos >= self.units.len() {
            return None;
        }
        assert(decode_from(units, start) == seq![item_at(units, start)] + decode_from(
            units,
            start + width_at(units, start),
        ));
        assert(decode_from(units, start).drop_first() =~= decode_from(
            units,
            start + width_at(units, start),
        ));
        let unit: u16 = self.units[self.pos];
        if unit < 0xD800 || unit > 0xDFFF {
            self.pos = self.pos + 1;
            return Some(Ok(char::from_u32(unit as u32).unwrap()));
        }
        if unit <= 0xDBFF && self.pos + 1 < self.units.len() {
            let next: u16 = self.units[self.pos + 1];
            if 0xDC00 <= next && next <= 0xDFFF {
                let high: u32 = (unit - 0xD800) as u32;
                let low: u32 = (next - 0xDC00) as u32;
                let scalar: u32 = 0x10000 + high * 0x400 + low;
                self.pos = self.pos + 2;
                return Some(Ok(char::from_u32(scalar).unwrap()));
            }
        }
        self.pos = self.pos + 1;
        Some(Err(DecodeError { code: unit }))
    }
}

/// Decoding can be started over. What a decoder has yet to yield depends on
/// the code units and on its position alone, so two decoders over the same
/// code units that stand at the same position, such as two fresh ones, yield
/// the same items, however often either was made or used before.
pub proof fn lemma_decoding_restarts(first: Decoder, second: Decoder)
    requires
        first.units() == second.units(),
        first.position() == second.position(),
    ensures
        first@ == second@,
{
}

} // verus!
