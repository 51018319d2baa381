//! Text built from raw code units.

use vstd::prelude::*;

verus! {

/// `char::from_u32`: the character with code point `i` when `i` is a Unicode
/// scalar value (not a surrogate, at most `0x10FFFF`), and `None` otherwise.
pub assume_specification[ char::from_u32 ](i: u32) -> (r: Option<char>)
    ensures
        r == if i <= 0xD7FF || (0xE000 <= i && i <= 0x10FFFF) {
            Some(i as char)
        } else {
            None::<char>
        },
;

/// `String::from_iter` over a vector of characters: the string made of
/// exactly those characters, in order.
#[verifier::external_body]
pub(crate) fn string_from_chars(chars: &Vec<char>) -> (s: String)
    ensures
        s@ == chars@,
{
    String::from_iter(chars.iter())
}

/// The symbol that stands in for a code unit that is not valid text.
pub open spec fn replacement() -> char {
    '\u{FFFD}'
}

/// `u` is the first half of a surrogate pair.
pub open spec fn is_high_surrogate(u: u16) -> bool {
    0xD800 <= u <= 0xDBFF
}

/// `u` is the second half of a surrogate pair.
pub open spec fn is_low_surrogate(u: u16) -> bool {
    0xDC00 <= u <= 0xDFFF
}

/// The character that a high and a low surrogate encode together.
pub open spec fn pair_value(high: u16, low: u16) -> char {
    (0x1_0000 + (high - 0xD800) * 0x400 + (low - 0xDC00)) as char
}

/// The text encoded by `units` from index `i` on: a unit outside the
/// surrogate range is its own character, a high surrogate directly followed
/// by a low one is the pair's character, and any other surrogate becomes the
/// replacement symbol, one unit at a time.
pub open spec fn decode_from(units: Seq<u16>, i: int) -> Seq<char>
    decreases units.len() - i,
{
    if i < 0 || i >= units.len() {
        Seq::empty()
    } else if !is_high_surrogate(units[i]) && !is_low_surrogate(units[i]) {
        seq![units[i] as char] + decode_from(units, i + 1)
    } else if is_high_surrogate(units[i]) && i + 1 < units.len() && is_low_surrogate(
        units[i + 1],
    ) {
        seq![pair_value(units[i], units[i + 1])] + decode_from(units, i + 2)
    } else {
        seq![replacement()] + decode_from(units, i + 1)
    }
}

/// The text encoded by all of `units`.
pub open spec fn decode_utf16(units: Seq<u16>) -> Seq<char> {
    decode_from(units, 0)
}

/// Units from index `i` on that hold no surrogate decode to themselves, one
/// character for each unit.
pub proof fn lemma_decode_without_surrogates(units: Seq<u16>, i: int)
    requires
        0 <= i <= units.len(),
        forall|k: int|
            i <= k < units.len() ==> !is_high_surrogate(#[trigger] units[k]) && !is_low_surrogate(
                units[k],
            ),
    ensures
        decode_from(units, i) == units.subrange(i, units.len() as int).map_values(
            |u: u16| u as char,
        ),
    decreases units.len() - i,
{
    let rest = units.subrange(i, units.len() as int).map_values(|u: u16| u as char);
    if i < units.len() {
        lemma_decode_without_surrogates(units, i + 1);
        let tail = units.subrange(i + 1, units.len() as int).map_values(|u: u16| u as char);
        assert(rest =~= seq![units[i] as char] + tail);
    } else {
        assert(rest =~= Seq::<char>::empty());
    }
}

/// The characters that stand for single bytes, one for one.
pub open spec fn bytes_as_chars(bytes: Seq<u8>) -> Seq<char> {
    bytes.map_values(|b: u8| b as char)
}

/// The character whose code point is `v`, or the replacement symbol when
/// there is none.
fn scalar_or_replacement(v: u32) -> (c: char)
    ensures
        c == if v <= 0xD7FF || (0xE000 <= v && v <= 0x10FFFF) {
            v as char
        } else {
            replacement()
        },
{
    match char::from_u32(v) {
        Some(c) => c,
        None => '\u{FFFD}',
    }
}

/// Decodes 16-bit code units into text, putting the replacement symbol in
/// place of every surrogate that is not part of a well-formed pair.
pub fn utf16_to_str(utf: &[u16]) -> (s: String)
    ensures
        s@ == decode_utf16(utf@),
{
    let n: usize = utf.len();
    let mut out: Vec<char> = Vec::new();
    let mut i: usize = 0;
    while i < n
        invariant
            i <= n,
            n == utf@.len(),
            out@ + decode_from(utf@, i as int) == decode_utf16(utf@),
        decreases n - i,
    {
        let u: u16 = utf[i];
        let ghost before = out@;
        if u < 0xD800 || u > 0xDFFF {
            out.push(scalar_or_replacement(u as u32));
            assert(out@ + decode_from(utf@, i + 1) =~= before + decode_from(utf@, i as int));
            i += 1;
        } else if u <= 0xDBFF && i + 1 < n && 0xDC00 <= utf[i + 1] && utf[i + 1] <= 0xDFFF {
            let high: u32 = (u - 0xD800) as u32;
            let low: u32 = (utf[i + 1] - 0xDC00) as u32;
            out.push(scalar_or_replacement(0x1_0000 + high * 0x400 + low));
            assert(out@ + decode_from(utf@, i + 2) =~= before + decode_from(utf@, i as int));
            i += 2;
        } else {
            out.push('\u{FFFD}');
            assert(out@ + decode_from(utf@, i + 1) =~= before + decode_from(utf@, i as int));
            i += 1;
        }
    }
    assert(out@ =~= decode_utf16(utf@));
    string_from_chars(&out)
}

/// The text whose characters are the given bytes, one for one.
pub fn bytes_to_string(bytes: &Vec<u8>) -> (s: String)
    ensures
        s@ == bytes_as_chars(bytes@),
{
    let n: usize = bytes.len();
    let mut out: Vec<char> = Vec::new();
    let mut i: usize = 0;
    while i < n
        invariant
            i <= n,
            n == bytes@.len(),
            out@ == bytes_as_chars(bytes@.subrange(0, i as int)),
        decreases n - i,
    {
        out.push(bytes[i] as char);
        assert(out@ =~= bytes_as_chars(bytes@.subrange(0, i + 1)));
        i += 1;
    }
    assert(bytes@.subrange(0, n as int) =~= bytes@);
    string_from_chars(&out)
}

} // verus!
