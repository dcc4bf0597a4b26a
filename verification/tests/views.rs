use jni_glue::access::{Access, Action, Event, Phase, Request};
use jni_glue::string_chars::StringChars;
use jni_glue::utf16::{DecodeError, Decoder, REPLACEMENT_CHARACTER};

const STRING: usize = 0x7000;
const BUFFER: usize = 0x9000;

/// Plays the runtime: grants a buffer that holds `units` and tells its length.
fn acquire(units: &[u16]) -> StringChars<'_> {
    let mut access = Access::begin(STRING);
    assert_eq!(
        access.advance(Event::Granted { buffer: BUFFER }),
        Some(Action::Ask(Request::QueryCodeUnitLength { buffer: BUFFER }))
    );
    let length: i32 = units.len() as i32;
    assert_eq!(
        access.advance(Event::Measured { length }),
        Some(Action::Expose { buffer: BUFFER, length })
    );
    StringChars::from_env_jstring(access, units).unwrap()
}

fn collect(mut decoder: Decoder<'_>) -> Vec<Result<char, DecodeError>> {
    let mut items = Vec::new();
    while let Some(item) = decoder.next() {
        items.push(item);
    }
    items
}

#[test]
fn hi_decodes_strictly() {
    let units: [u16; 2] = [0x0048, 0x0069];
    let view = acquire(&units);
    assert_eq!(view.to_string(), Ok("Hi".to_string()));
    assert_eq!(view.to_string_lossy(), "Hi");
}

#[test]
fn lone_high_surrogate_fails_strictly_and_is_replaced_lossily() {
    let units: [u16; 1] = [0xD800];
    let view = acquire(&units);
    assert_eq!(view.to_string(), Err(DecodeError { code: 0xD800 }));
    assert_eq!(view.to_string_lossy(), "\u{FFFD}");
}

#[test]
fn lone_low_surrogate_fails_strictly_and_is_replaced_lossily() {
    let units: [u16; 1] = [0xDC00];
    let view = acquire(&units);
    assert_eq!(view.to_string(), Err(DecodeError { code: 0xDC00 }));
    assert_eq!(view.to_string_lossy(), "\u{FFFD}");
}

#[test]
fn empty_string_decodes_to_empty_text() {
    let units: [u16; 0] = [];
    let view = acquire(&units);
    assert_eq!(view.chars().len(), 0);
    assert_eq!(view.to_string(), Ok(String::new()));
    assert_eq!(view.to_string_lossy(), "");
    assert_eq!(collect(view.decode()), vec![]);
}

#[test]
fn ascii_text_round_trips() {
    let text = "The quick brown fox, 0123456789 ~!";
    let units: Vec<u16> = text.encode_utf16().collect();
    let view = acquire(&units);
    assert_eq!(view.to_string(), Ok(text.to_string()));
    assert_eq!(view.to_string_lossy(), text);
}

#[test]
fn bmp_text_round_trips() {
    let text = "h\u{e9}llo \u{4e16}\u{754c} \u{20ac} \u{ffff} \u{e000} \u{d7ff}";
    let units: Vec<u16> = text.encode_utf16().collect();
    assert_eq!(units.len(), text.chars().count());
    let view = acquire(&units);
    assert_eq!(view.to_string(), Ok(text.to_string()));
    assert_eq!(view.to_string_lossy(), text);
}

#[test]
fn text_above_the_bmp_round_trips() {
    let text = "a\u{1F600}b\u{10000}c\u{10FFFF}";
    let units: Vec<u16> = text.encode_utf16().collect();
    assert_eq!(units.len(), 9);
    let view = acquire(&units);
    assert_eq!(view.to_string(), Ok(text.to_string()));
    assert_eq!(view.to_string_lossy(), text);
}

#[test]
fn surrogate_pairs_combine_to_the_exact_scalar() {
    let lowest: [u16; 2] = [0xD800, 0xDC00];
    assert_eq!(collect(acquire(&lowest).decode()), vec![Ok('\u{10000}')]);
    let face: [u16; 2] = [0xD83D, 0xDE00];
    assert_eq!(collect(acquire(&face).decode()), vec![Ok('\u{1F600}')]);
    let clef: [u16; 2] = [0xD834, 0xDD1E];
    assert_eq!(collect(acquire(&clef).decode()), vec![Ok('\u{1D11E}')]);
    let highest: [u16; 2] = [0xDBFF, 0xDFFF];
    assert_eq!(collect(acquire(&highest).decode()), vec![Ok('\u{10FFFF}')]);
}

#[test]
fn code_units_next_to_the_surrogate_range_are_scalars() {
    let units: [u16; 4] = [0x0000, 0xD7FF, 0xE000, 0xFFFF];
    let view = acquire(&units);
    assert_eq!(
        collect(view.decode()),
        vec![Ok('\u{0}'), Ok('\u{D7FF}'), Ok('\u{E000}'), Ok('\u{FFFF}')]
    );
}

#[test]
fn decoding_yields_an_error_for_each_unpaired_surrogate() {
    // The well-known sample: a clef, "mu", an unpaired trailing half, "ic",
    // an unpaired leading half.
    let units: [u16; 8] = [0xD834, 0xDD1E, 0x006D, 0x0075, 0xDD1E, 0x0069, 0x0063, 0xD834];
    let view = acquire(&units);
    assert_eq!(
        collect(view.decode()),
        vec![
            Ok('\u{1D11E}'),
            Ok('m'),
            Ok('u'),
            Err(DecodeError { code: 0xDD1E }),
            Ok('i'),
            Ok('c'),
            Err(DecodeError { code: 0xD834 }),
        ]
    );
    assert_eq!(view.to_string(), Err(DecodeError { code: 0xDD1E }));
    assert_eq!(view.to_string_lossy(), "\u{1D11E}mu\u{FFFD}ic\u{FFFD}");
}

#[test]
fn strict_decoding_names_the_first_unpaired_surrogate() {
    let units: [u16; 5] = [0x0041, 0xDBFF, 0x0042, 0xDC01, 0xD801];
    let view = acquire(&units);
    let error = view.to_string().unwrap_err();
    assert_eq!(error.unpaired_surrogate(), 0xDBFF);
    assert_eq!(view.to_string_lossy(), "A\u{FFFD}B\u{FFFD}\u{FFFD}");
}

#[test]
fn a_pair_the_wrong_way_round_is_two_errors() {
    let units: [u16; 2] = [0xDC00, 0xD800];
    let view = acquire(&units);
    assert_eq!(
        collect(view.decode()),
        vec![Err(DecodeError { code: 0xDC00 }), Err(DecodeError { code: 0xD800 })]
    );
    assert_eq!(view.to_string_lossy(), "\u{FFFD}\u{FFFD}");
}

#[test]
fn a_leading_surrogate_does_not_swallow_what_follows() {
    let before_scalar: [u16; 2] = [0xD800, 0x0041];
    assert_eq!(
        collect(acquire(&before_scalar).decode()),
        vec![Err(DecodeError { code: 0xD800 }), Ok('A')]
    );
    let before_pair: [u16; 3] = [0xD800, 0xD800, 0xDC00];
    assert_eq!(
        collect(acquire(&before_pair).decode()),
        vec![Err(DecodeError { code: 0xD800 }), Ok('\u{10000}')]
    );
    let after_pair: [u16; 3] = [0xD800, 0xDC00, 0xDC00];
    assert_eq!(
        collect(acquire(&after_pair).decode()),
        vec![Ok('\u{10000}'), Err(DecodeError { code: 0xDC00 })]
    );
}

#[test]
fn lossy_decoding_writes_the_replacement_character() {
    let units: [u16; 3] = [0x0078, 0xDFFF, 0x0079];
    let view = acquire(&units);
    let text = view.to_string_lossy();
    let scalars: Vec<char> = text.chars().collect();
    assert_eq!(scalars, vec!['x', REPLACEMENT_CHARACTER, 'y']);
    assert_eq!(REPLACEMENT_CHARACTER, '\u{FFFD}');
}

#[test]
fn decoding_twice_yields_the_same_items() {
    let units: [u16; 6] = [0x0061, 0xD83D, 0xDE00, 0xDE00, 0xD83D, 0x0062];
    let view = acquire(&units);
    let first = collect(view.decode());
    let second = collect(view.decode());
    assert_eq!(first, second);
    assert_eq!(first.len(), 5);
    // A decoder that was used half way does not disturb a fresh one.
    let mut used = view.decode();
    assert_eq!(used.next(), Some(Ok('a')));
    assert_eq!(used.next(), Some(Ok('\u{1F600}')));
    assert_eq!(collect(view.decode()), first);
    assert_eq!(used.next(), Some(Err(DecodeError { code: 0xDE00 })));
}

#[test]
fn a_decoder_at_the_end_stays_there() {
    let units: [u16; 1] = [0x0041];
    let mut decoder = Decoder::new(&units);
    assert_eq!(decoder.next(), Some(Ok('A')));
    assert_eq!(decoder.next(), None);
    assert_eq!(decoder.next(), None);
}

#[test]
fn code_units_are_as_many_as_the_runtime_reported() {
    let units: [u16; 4] = [0x0041, 0xD83D, 0xDE00, 0xD800];
    let view = acquire(&units);
    assert_eq!(view.chars().len(), 4);
    assert_eq!(view.chars(), &units[..]);
    assert_eq!(view.as_u16_slice(), &units[..]);
    // Decoding changes nothing in what the view holds.
    let _ = view.to_string();
    let _ = view.to_string_lossy();
    assert_eq!(view.chars().len(), 4);
    assert_eq!(view.as_u16_slice(), &[0x0041, 0xD83D, 0xDE00, 0xD800]);
}

#[test]
fn no_view_of_fewer_or_more_units_than_reported() {
    let units: [u16; 3] = [0x0041, 0x0042, 0x0043];
    let mut access = Access::begin(STRING);
    access.advance(Event::Granted { buffer: BUFFER });
    access.advance(Event::Measured { length: 2 });
    let back = StringChars::from_env_jstring(access, &units).unwrap_err();
    assert_eq!(back.phase(), Phase::Acquired { string: STRING, buffer: BUFFER, length: 2 });
    let back = StringChars::from_env_jstring(back, &units[..1]).unwrap_err();
    let view = StringChars::from_env_jstring(back, &units[..2]).unwrap();
    assert_eq!(view.to_string(), Ok("AB".to_string()));
}

#[test]
fn no_view_before_the_buffer_is_acquired() {
    let units: [u16; 0] = [];
    let access = Access::begin(STRING);
    let mut access = StringChars::from_env_jstring(access, &units).unwrap_err();
    assert_eq!(access.phase(), Phase::Beginning { string: STRING });
    access.advance(Event::Granted { buffer: BUFFER });
    let access = StringChars::from_env_jstring(access, &units).unwrap_err();
    assert_eq!(access.phase(), Phase::Measuring { string: STRING, buffer: BUFFER });
}

#[test]
fn releasing_a_view_asks_for_the_end_of_access() {
    let units: [u16; 2] = [0x0048, 0x0069];
    let view = acquire(&units);
    let mut access = view.release();
    assert_eq!(
        access.phase(),
        Phase::Releasing { string: STRING, buffer: BUFFER, failed: false }
    );
    assert_eq!(
        access.action(),
        Action::Ask(Request::EndStringAccess { string: STRING, buffer: BUFFER })
    );
    assert_eq!(access.advance(Event::Ended), Some(Action::Finish));
    assert_eq!(access.phase(), Phase::Released);
}

#[test]
fn no_view_of_a_released_buffer() {
    let units: [u16; 1] = [0x0041];
    let mut access = acquire(&units).release();
    let access_back = StringChars::from_env_jstring(access, &units).unwrap_err();
    access = access_back;
    access.advance(Event::Ended);
    let access = StringChars::from_env_jstring(access, &units).unwrap_err();
    assert_eq!(access.phase(), Phase::Released);
}
