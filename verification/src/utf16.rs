//! UTF-16 as a mathematical model, the codecs proved against it, and the
//! laws that tie encoding and decoding together.

use vstd::prelude::*;

verus! {

/// True for the first half of a surrogate pair.
pub open spec fn is_high_surrogate(unit: u16) -> bool {
    0xD800 <= unit <= 0xDBFF
}

/// True for the second half of a surrogate pair.
pub open spec fn is_low_surrogate(unit: u16) -> bool {
    0xDC00 <= unit <= 0xDFFF
}

/// True for a code unit that cannot stand for a character by itself.
pub open spec fn is_surrogate(unit: u16) -> bool {
    0xD800 <= unit <= 0xDFFF
}

/// True for the numbers that are characters: everything up to `0x10FFFF`
/// but the surrogate range.
pub open spec fn is_scalar_value(v: u32) -> bool {
    v <= 0xD7FF || 0xE000 <= v <= 0x10FFFF
}

/// The character that stands in for code units that decode to nothing.
pub const REPLACEMENT_CHARACTER: char = '\u{FFFD}';

/// The code units of one character: the character itself below the
/// supplementary planes, a surrogate pair above.
pub open spec fn encode_char(c: char) -> Seq<u16> {
    let v = c as int;
    if v < 0x10000 {
        seq![v as u16]
    } else {
        seq![(0xD800 + (v - 0x10000) / 0x400) as u16, (0xDC00 + (v - 0x10000) % 0x400) as u16]
    }
}

/// The UTF-16 encoding of a text: the code units of its characters in order.
pub open spec fn encode_utf16(text: Seq<char>) -> Seq<u16>
    decreases text.len(),
{
    if text.len() == 0 {
        Seq::empty()
    } else {
        encode_char(text[0]) + encode_utf16(text.drop_first())
    }
}

/// The number that a surrogate pair stands for.
pub open spec fn pair_value(high: u16, low: u16) -> int {
    0x10000 + (high - 0xD800) * 0x400 + (low - 0xDC00)
}

/// True when the code units begin with a well-formed surrogate pair.
pub open spec fn starts_with_pair(units: Seq<u16>) -> bool {
    units.len() >= 2 && is_high_surrogate(units[0]) && is_low_surrogate(units[1])
}

/// Lossy UTF-16 decoding: a well-formed pair gives its character, any other
/// surrogate gives one replacement character, every other unit gives itself.
pub open spec fn decode_utf16_lossy(units: Seq<u16>) -> Seq<char>
    decreases units.len(),
{
    if units.len() == 0 {
        Seq::empty()
    } else if starts_with_pair(units) {
        seq![pair_value(units[0], units[1]) as char] + decode_utf16_lossy(units.skip(2))
    } else if is_surrogate(units[0]) {
        seq![REPLACEMENT_CHARACTER] + decode_utf16_lossy(units.skip(1))
    } else {
        seq![units[0] as char] + decode_utf16_lossy(units.skip(1))
    }
}

/// True when joining `a` and `b` makes a surrogate pair of the last unit of
/// `a` and the first of `b`.
pub open spec fn pairs_across(a: Seq<u16>, b: Seq<u16>) -> bool {
    a.len() > 0 && b.len() > 0 && is_high_surrogate(a.last()) && is_low_surrogate(b[0])
}

/// True when `unit`, standing between `before` and `after`, is a surrogate
/// without its partner: a high one that no low one follows, or a low one that
/// no high one precedes.
pub open spec fn is_unpaired(before: Seq<u16>, unit: u16, after: Seq<u16>) -> bool {
    ||| is_high_surrogate(unit) && !(after.len() > 0 && is_low_surrogate(after[0]))
    ||| is_low_surrogate(unit) && !(before.len() > 0 && is_high_surrogate(before.last()))
}

/// Assumed of `char::from_u32` in the standard library, not proved: it gives
/// the character with the given number where there is one, and `None` for a
/// surrogate or a number past `0x10FFFF`.
pub assume_specification[ char::from_u32 ](i: u32) -> (c: Option<char>)
    ensures
        c == (if is_scalar_value(i) {
            Some(i as char)
        } else {
            None::<char>
        }),
;

/// Assumed of `String::push` in the standard library, not proved: the string
/// afterwards is the string before with the character appended.
pub assume_specification[ String::push ](s: &mut String, ch: char)
    ensures
        final(s)@ == old(s)@.push(ch),
;

/// Appends the code units of one character to `out`.
pub fn encode_char_into(c: char, out: &mut Vec<u16>)
    ensures
        final(out)@ == old(out)@ + encode_char(c),
{
    let v: u32 = c as u32;
    if v < 0x10000 {
        out.push(v as u16);
    } else {
        let w: u32 = v - 0x10000;
        out.push((0xD800 + w / 0x400) as u16);
        out.push((0xDC00 + w % 0x400) as u16);
    }
    assert(out@ =~= old(out)@ + encode_char(c));
}

/// Appends the UTF-16 encoding of `data` to `out`.
pub fn encode_into(data: &str, out: &mut Vec<u16>)
    ensures
        final(out)@ == old(out)@ + encode_utf16(data@),
{
    let ghost before = out@;
    for c in it: data.chars()
        invariant
            it.seq() == data@,
            out@ == before + encode_utf16(data@.take(it.index())),
    {
        proof {
            let i = it.index();
            assert(data@.take(i + 1) =~= data@.take(i) + seq![c]);
            lemma_encode_concat(data@.take(i), seq![c]);
            lemma_encode_single(c);
        }
        encode_char_into(c, out);
    }
    proof {
        assert(data@.take(data@.len() as int) =~= data@);
    }
}

/// The character with the given number, or the replacement character where
/// the number is not a character.
pub fn scalar_or_replacement(v: u32) -> (c: char)
    ensures
        c == (if is_scalar_value(v) {
            v as char
        } else {
            REPLACEMENT_CHARACTER
        }),
{
    match char::from_u32(v) {
        Some(c) => c,
        None => REPLACEMENT_CHARACTER,
    }
}

/// Decodes UTF-16 code units into a string, lossily.
pub fn decode_lossy(units: &[u16]) -> (text: String)
    ensures
        text@ == decode_utf16_lossy(units@),
{
    let mut text = String::new();
    let mut i: usize = 0;
    assert(units@.skip(0) =~= units@);
    while i < units.len()
        invariant
            i <= units@.len(),
            text@ + decode_utf16_lossy(units@.skip(i as int)) == decode_utf16_lossy(units@),
        decreases units@.len() - i,
    {
        let unit: u16 = units[i];
        let ghost rest = units@.skip(i as int);
        if 0xD800 <= unit && unit <= 0xDBFF && i + 1 < units.len() && 0xDC00 <= units[i + 1]
            && units[i + 1] <= 0xDFFF {
            let low: u16 = units[i + 1];
            let v: u32 = 0x10000 + ((unit - 0xD800) as u32) * 0x400 + ((low - 0xDC00) as u32);
            let c = scalar_or_replacement(v);
            proof {
                assert(starts_with_pair(rest));
                assert(rest.skip(2) =~= units@.skip(i + 2));
                assert(text@.push(c) + decode_utf16_lossy(rest.skip(2)) =~= text@
                    + decode_utf16_lossy(rest));
            }
            text.push(c);
            i += 2;
        } else {
            let c = scalar_or_replacement(unit as u32);
            proof {
                assert(!starts_with_pair(rest));
                assert(rest.skip(1) =~= units@.skip(i + 1));
                assert(text@.push(c) + decode_utf16_lossy(rest.skip(1)) =~= text@
                    + decode_utf16_lossy(rest));
            }
            text.push(c);
            i += 1;
        }
    }
    assert(text@ + decode_utf16_lossy(units@.skip(i as int)) =~= text@);
    text
}

/// The code units of a character: one that is no surrogate and equals the
/// character's number, or a high surrogate followed by a low one. Only the
/// null character gives a zero.
pub proof fn lemma_encode_char_units(c: char)
    ensures
        1 <= encode_char(c).len() <= 2,
        encode_char(c).len() == 1 ==> encode_char(c)[0] == c as int && !is_surrogate(
            encode_char(c)[0],
        ),
        encode_char(c).len() == 2 ==> is_high_surrogate(encode_char(c)[0]) && is_low_surrogate(
            encode_char(c)[1],
        ),
        forall|j: int| 0 <= j < encode_char(c).len() && c != '\0' ==> encode_char(c)[j] != 0,
{
    let v = c as int;
    if v >= 0x10000 {
        let offset = v - 0x10000;
        assert(0 <= offset / 0x400 <= 0x3FF && 0 <= offset % 0x400 <= 0x3FF);
    }
}

/// Encoding distributes over concatenation.
pub proof fn lemma_encode_concat(a: Seq<char>, b: Seq<char>)
    ensures
        encode_utf16(a + b) == encode_utf16(a) + encode_utf16(b),
    decreases a.len(),
{
    if a.len() == 0 {
        assert(a + b =~= b);
    } else {
        assert((a + b).drop_first() =~= a.drop_first() + b);
        lemma_encode_concat(a.drop_first(), b);
    }
}

/// A text of one character encodes to that character's code units.
pub proof fn lemma_encode_single(c: char)
    ensures
        encode_utf16(seq![c]) == encode_char(c),
{
    assert(seq![c].drop_first() =~= Seq::<char>::empty());
    assert(encode_utf16(Seq::<char>::empty()) =~= Seq::<u16>::empty());
    assert(encode_utf16(seq![c]) =~= encode_char(c) + encode_utf16(seq![c].drop_first()));
}

/// Decoding what one character encodes to, followed by anything, gives the
/// character back, followed by what the rest decodes to.
pub proof fn lemma_decode_encoded_char(c: char, rest: Seq<u16>)
    ensures
        decode_utf16_lossy(encode_char(c) + rest) == seq![c] + decode_utf16_lossy(rest),
{
    let units = encode_char(c) + rest;
    let v = c as int;
    if v < 0x10000 {
        assert(units[0] == v);
        assert(units.skip(1) =~= rest);
    } else {
        let offset = v - 0x10000;
        assert(0 <= offset / 0x400 <= 0x3FF && 0 <= offset % 0x400 <= 0x3FF);
        assert(units[0] == 0xD800 + offset / 0x400);
        assert(units[1] == 0xDC00 + offset % 0x400);
        assert(pair_value(units[0], units[1]) == v);
        assert(units.skip(2) =~= rest);
    }
}

/// Decoding the encoding of a text gives the text back.
pub proof fn lemma_decode_encode(text: Seq<char>)
    ensures
        decode_utf16_lossy(encode_utf16(text)) == text,
    decreases text.len(),
{
    if text.len() == 0 {
        assert(decode_utf16_lossy(encode_utf16(text)) =~= text);
    } else {
        lemma_decode_encode(text.drop_first());
        lemma_decode_encoded_char(text[0], encode_utf16(text.drop_first()));
        assert(seq![text[0]] + text.drop_first() =~= text);
    }
}

/// A surrogate with no partner decodes to one replacement character.
pub proof fn lemma_decode_lone_surrogate(unit: u16)
    requires
        is_surrogate(unit),
    ensures
        decode_utf16_lossy(seq![unit]) == seq![REPLACEMENT_CHARACTER],
{
    assert(seq![unit].skip(1) =~= Seq::<u16>::empty());
    assert(decode_utf16_lossy(Seq::<u16>::empty()) =~= Seq::<char>::empty());
    assert(decode_utf16_lossy(seq![unit]) =~= seq![REPLACEMENT_CHARACTER] + decode_utf16_lossy(
        seq![unit].skip(1),
    ));
}

/// Decoding distributes over concatenation wherever no surrogate pair forms
/// across the seam.
pub proof fn lemma_decode_concat(a: Seq<u16>, b: Seq<u16>)
    requires
        !pairs_across(a, b),
    ensures
        decode_utf16_lossy(a + b) == decode_utf16_lossy(a) + decode_utf16_lossy(b),
    decreases a.len(),
{
    if a.len() == 0 {
        assert(a + b =~= b);
    } else if starts_with_pair(a) {
        assert(starts_with_pair(a + b));
        assert((a + b).skip(2) =~= a.skip(2) + b);
        lemma_decode_concat(a.skip(2), b);
    } else {
        assert(!starts_with_pair(a + b));
        assert((a + b).skip(1) =~= a.skip(1) + b);
        lemma_decode_concat(a.skip(1), b);
    }
}

/// An unpaired surrogate decodes to one replacement character, which stands
/// between what the units in front of it and the units behind it decode to.
pub proof fn lemma_decode_unpaired_surrogate(before: Seq<u16>, unit: u16, after: Seq<u16>)
    requires
        is_unpaired(before, unit, after),
    ensures
        decode_utf16_lossy(before + seq![unit] + after) == decode_utf16_lossy(before)
            + seq![REPLACEMENT_CHARACTER] + decode_utf16_lossy(after),
        decode_utf16_lossy(before + seq![unit] + after)[decode_utf16_lossy(before).len() as int]
            == REPLACEMENT_CHARACTER,
{
    lemma_decode_lone_surrogate(unit);
    lemma_decode_concat(before, seq![unit]);
    lemma_decode_concat(before + seq![unit], after);
}

} // verus!
