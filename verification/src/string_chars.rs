//! The view of a Java string's code units while its buffer is held.

use crate::access::{Access, Event, Phase};
use crate::surrogates::{
    lemma_lossy_text_rendered, lemma_strict_text_fails_iff_unpaired, rendered_from, unpaired_at,
};
use crate::utf16::{
    decode, is_first_error, lossy_text, scalar_of, scalar_or_replacement, strict_text,
    DecodeError, Decoder, Item, REPLACEMENT_CHARACTER,
};
use jni::sys::jchar;
use vstd::prelude::*;

verus! {

/// The code units of a Java string, borrowed for as long as the buffer that
/// the runtime granted for them is held.
///
/// A view is made from a bracket that has reached [`Phase::Acquired`] and from
/// the code units found in the granted buffer. It reads and never changes
/// them. [`StringChars::release`] consumes the view and asks for the buffer to
/// be taken back, so nothing is read from the buffer after that, and the
/// request is made once.
///
/// The code units are mostly UTF-16, but nothing guarantees it: a surrogate
/// may stand without its partner. The view of a `StringChars` in contracts is
/// the sequence of its code units.
#[derive(Debug)]
pub struct StringChars<'a> {
    access: Access,
    units: &'a [jchar],
}

impl<'a> View for StringChars<'a> {
    type V = Seq<u16>;

    closed spec fn view(&self) -> Seq<u16> {
        self.units@
    }
}

impl<'a> StringChars<'a> {
    #[verifier::type_invariant]
    spec fn holds_what_was_granted(self) -> bool {
        self.access@ matches Phase::Acquired { length, .. } && self.units@.len() == length
    }

    /// The phase of the bracket that the view was made from.
    pub closed spec fn bracket(&self) -> Phase {
        self.access@
    }

    /// The view can be made: the bracket holds a buffer of known length, and
    /// `units` are as many as the runtime said the buffer holds.
    pub open spec fn matches_grant(phase: Phase, units: Seq<u16>) -> bool {
        phase matches Phase::Acquired { length, .. } && units.len() == length
    }

    /// Makes the view of `units`, which were found in the buffer that `access`
    /// holds. Where `access` holds no buffer of known length, or the length
    /// that the runtime reported is not that of `units`, there is no view and
    /// the bracket comes back as it was.
    pub fn from_env_jstring(access: Access, units: &'a [jchar]) -> (made: Result<Self, Access>)
        ensures
            Self::matches_grant(access@, units@) ==> (made matches Ok(view) && view.bracket()
                == access@ && view@ == units@),
            !Self::matches_grant(access@, units@) ==> (made matches Err(back) && back@
                == access@),
    {
        match access.phase() {
            Phase::Acquired { length, .. } => {
                if length >= 0 && units.len() == length as usize {
                    Ok(StringChars { access, units })
                } else {
                    Err(access)
                }
            },
            _ => Err(access),
        }
    }

    /// The code units. There are as many as the runtime reported when the
    /// buffer was acquired.
    pub fn chars(&self) -> (units: &[jchar])
        ensures
            units@ == self@,
            self.bracket() is Acquired,
            units@.len() == self.bracket()->length,
    {
        proof {
            use_type_invariant(self);
        }
        self.units
    }

    /// The code units as plain 16-bit integers.
    pub fn as_u16_slice(&self) -> (units: &[u16])
        ensures
            units@ == self@,
            self.bracket() is Acquired,
            units@.len() == self.bracket()->length,
    {
        self.chars()
    }

    /// A decoder that stands before the first code unit. Each call makes a
    /// new one, which yields the same items as every other.
    pub fn decode(&self) -> (decoder: Decoder<'_>)
        ensures
            decoder@ == decode(self@),
            decoder.units() == self@,
            decoder.position() == 0,
    {
        Decoder::new(self.as_u16_slice())
    }

    /// The text that the code units encode, or the first surrogate among them
    /// that stands without its partner. It fails if and only if there is
    /// such a surrogate.
    pub fn to_string(&self) -> (text: Result<String, DecodeError>)
        ensures
            strict_text(self@) matches Ok(scalars) ==> (text matches Ok(s) && s@ == scalars),
            strict_text(self@) matches Err(error) ==> (text matches Err(e) && e == error),
            text is Err <==> exists|i: int| unpaired_at(self@, i),
    {
        let mut decoder = self.decode();
        let mut text = String::new();
        loop
            invariant
                text@.len() <= decode(self@).len(),
                decoder@ == decode(self@).skip(text@.len() as int),
                forall|j: int|
                    0 <= j < text@.len() ==> (#[trigger] decode(self@)[j]) == Ok::<
                        char,
                        DecodeError,
                    >(text@[j]),
            decreases decoder@.len(),
        {
            let ghost items = decode(self@);
            let ghost done = text@.len() as int;
            match decoder.next() {
                None => {
                    proof {
                        assert(done == items.len());
                        assert(!exists|k: int| is_first_error(items, k));
                        assert(text@ =~= items.map_values(|item: Item| scalar_of(item)));
                        lemma_strict_text_fails_iff_unpaired(self@);
                    }
                    return Ok(text);
                },
                Some(Ok(c)) => {
                    text.push(c);
                    proof {
                        assert(items[done] == Ok::<char, DecodeError>(c));
                        assert(items.skip(done).drop_first() =~= items.skip(done + 1));
                    }
                },
                Some(Err(error)) => {
                    proof {
                        assert(items[done] == Err::<char, DecodeError>(error));
                        assert(is_first_error(items, done));
                        let k = choose|k: int| is_first_error(items, k);
                        assert(k == done);
                        lemma_strict_text_fails_iff_unpaired(self@);
                    }
                    return Err(error);
                },
            }
        }
    }

    /// The text that the code units encode, with U+FFFD in place of every
    /// surrogate that stands without its partner. It is made up position by
    /// position of what each code unit adds.
    pub fn to_string_lossy(&self) -> (text: String)
        ensures
            text@ == lossy_text(self@),
            text@ == rendered_from(self@, 0),
    {
        let mut decoder = self.decode();
        let mut text = String::new();
        loop
            invariant
                text@.len() <= decode(self@).len(),
                decoder@ == decode(self@).skip(text@.len() as int),
                forall|j: int|
                    0 <= j < text@.len() ==> text@[j] == scalar_or_replacement(
                        #[trigger] decode(self@)[j],
                    ),
            decreases decoder@.len(),
        {
            let ghost items = decode(self@);
            let ghost done = text@.len() as int;
            match decoder.next() {
                None => {
                    proof {
                        assert(done == items.len());
                        assert(text@ =~= lossy_text(self@));
                        lemma_lossy_text_rendered(self@);
                    }
                    return text;
                },
                Some(item) => {
                    let c: char = match item {
                        Ok(c) => c,
                        Err(_) => REPLACEMENT_CHARACTER,
                    };
                    text.push(c);
                    proof {
                        assert(items[done] == item);
                        assert(items.skip(done).drop_first() =~= items.skip(done + 1));
                    }
                },
            }
        }
    }

    /// Ends the view. The bracket that comes back has `EndStringAccess` due,
    /// for the string and the buffer that the view was made for.
    pub fn release(self) -> (access: Access)
        ensures
            self.bracket() is Acquired,
            access@ == self.bracket().step(Event::Dropped),
            access@ == (Phase::Releasing {
                string: self.bracket()->Acquired_string,
                buffer: self.bracket()->Acquired_buffer,
                failed: false,
            }),
    {
        proof {
            use_type_invariant(&self);
        }
        let mut access = self.access;
        let _ = access.advance(Event::Dropped);
        access
    }
}

} // verus!
