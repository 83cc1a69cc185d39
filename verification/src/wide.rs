//! Null-terminated wide buffers as a mathematical model.

use crate::utf16::{
    decode_utf16_lossy, encode_char, encode_utf16, is_unpaired, lemma_decode_encoded_char,
    lemma_decode_unpaired_surrogate, lemma_encode_char_units, REPLACEMENT_CHARACTER,
};
use vstd::prelude::*;

verus! {

/// True when a zero code unit occurs somewhere in the buffer.
pub open spec fn is_terminated(units: Seq<u16>) -> bool {
    exists|i: int| 0 <= i < units.len() && units[i] == 0
}

/// The position of the first zero code unit, or the buffer's length where
/// there is none.
pub open spec fn terminator_index(units: Seq<u16>) -> int
    decreases units.len(),
{
    if units.len() == 0 || units[0] == 0 {
        0
    } else {
        1 + terminator_index(units.drop_first())
    }
}

/// The length that a scan of the buffer reports: the code units in front of
/// the terminator, and one for the terminator.
pub open spec fn wide_len(units: Seq<u16>) -> int {
    terminator_index(units) + 1
}

/// The code units in front of the terminator.
pub open spec fn wide_content(units: Seq<u16>) -> Seq<u16> {
    units.take(terminator_index(units))
}

/// The text that a null-terminated wide buffer holds.
pub open spec fn wide_text(units: Seq<u16>) -> Seq<char> {
    decode_utf16_lossy(wide_content(units))
}

/// The null-terminated wide buffer of a text: its encoding and one zero.
pub open spec fn wide_buffer(text: Seq<char>) -> Seq<u16> {
    encode_utf16(text).push(0)
}

/// The little-endian bytes of a run of code units, two for each.
pub open spec fn le_bytes(units: Seq<u16>) -> Seq<u8> {
    Seq::new(
        2 * units.len(),
        |i: int|
            if i % 2 == 0 {
                (units[i / 2] % 256) as u8
            } else {
                (units[i / 2] / 256) as u8
            },
    )
}

/// True when no code unit of the run is zero.
pub open spec fn is_zero_free(units: Seq<u16>) -> bool {
    forall|j: int| 0 <= j < units.len() ==> units[j] != 0
}

/// True when the text holds no null character.
pub open spec fn is_nul_free(text: Seq<char>) -> bool {
    forall|i: int| 0 <= i < text.len() ==> text[i] != '\0'
}

/// The part of a text in front of its first null character: the whole text
/// where it has none.
pub open spec fn until_nul(text: Seq<char>) -> Seq<char>
    decreases text.len(),
{
    if text.len() == 0 || text[0] == '\0' {
        Seq::empty()
    } else {
        seq![text[0]] + until_nul(text.drop_first())
    }
}

/// The terminator index is the first position that holds a zero: nothing in
/// front of it is zero, and in a terminated buffer a zero stands at it.
pub proof fn lemma_terminator_index(units: Seq<u16>)
    ensures
        0 <= terminator_index(units) <= units.len(),
        forall|j: int| 0 <= j < terminator_index(units) ==> units[j] != 0,
        is_terminated(units) ==> terminator_index(units) < units.len() && units[terminator_index(
            units,
        )] == 0,
    decreases units.len(),
{
    if units.len() == 0 || units[0] == 0 {
    } else {
        let rest = units.drop_first();
        lemma_terminator_index(rest);
        assert forall|j: int| 0 <= j < terminator_index(units) implies units[j] != 0 by {
            if j > 0 {
                assert(units[j] == rest[j - 1]);
            }
        }
        if is_terminated(units) {
            let i = choose|i: int| 0 <= i < units.len() && units[i] == 0;
            assert(rest[i - 1] == 0);
            assert(units[terminator_index(units)] == rest[terminator_index(rest)]);
        }
    }
}

/// A position that holds a zero with no zero in front of it is the
/// terminator index.
pub proof fn lemma_first_zero_is_terminator(units: Seq<u16>, n: int)
    requires
        0 <= n < units.len(),
        units[n] == 0,
        forall|j: int| 0 <= j < n ==> units[j] != 0,
    ensures
        terminator_index(units) == n,
        is_terminated(units),
{
    lemma_terminator_index(units);
}

/// Zero-free code units in front of a buffer move its terminator back by
/// their number.
pub proof fn lemma_terminator_after_prefix(prefix: Seq<u16>, units: Seq<u16>)
    requires
        is_zero_free(prefix),
    ensures
        terminator_index(prefix + units) == prefix.len() + terminator_index(units),
        is_terminated(units) ==> is_terminated(prefix + units),
    decreases prefix.len(),
{
    if prefix.len() == 0 {
        assert(prefix + units =~= units);
    } else {
        assert(prefix[0] != 0);
        assert((prefix + units).drop_first() =~= prefix.drop_first() + units);
        lemma_terminator_after_prefix(prefix.drop_first(), units);
    }
    if is_terminated(units) {
        let i = choose|i: int| 0 <= i < units.len() && units[i] == 0;
        assert((prefix + units)[prefix.len() + i] == 0);
    }
}

/// A text that holds no null character is all in front of its first one.
pub proof fn lemma_until_nul_of_nul_free(text: Seq<char>)
    requires
        is_nul_free(text),
    ensures
        until_nul(text) == text,
    decreases text.len(),
{
    if text.len() > 0 {
        let rest = text.drop_first();
        assert forall|i: int| 0 <= i < rest.len() implies rest[i] != '\0' by {
            assert(rest[i] == text[i + 1]);
        }
        lemma_until_nul_of_nul_free(rest);
        assert(seq![text[0]] + rest =~= text);
    } else {
        assert(until_nul(text) =~= text);
    }
}

/// Reading back the wide buffer of any text gives the text in front of its
/// first null character, and the scanned length counts the code units of
/// that part and the terminator.
pub proof fn lemma_wide_read_back(text: Seq<char>)
    ensures
        is_terminated(wide_buffer(text)),
        wide_text(wide_buffer(text)) == until_nul(text),
        wide_len(wide_buffer(text)) == encode_utf16(until_nul(text)).len() + 1,
    decreases text.len(),
{
    let buffer = wide_buffer(text);
    if text.len() == 0 {
        assert(buffer[0] == 0);
        assert(wide_content(buffer) =~= Seq::<u16>::empty());
    } else if text[0] == '\0' {
        assert(buffer[0] == 0);
        assert(wide_content(buffer) =~= Seq::<u16>::empty());
    } else {
        let head = encode_char(text[0]);
        let rest = text.drop_first();
        let tail = wide_buffer(rest);
        lemma_encode_char_units(text[0]);
        lemma_wide_read_back(rest);
        assert(buffer =~= head + tail);
        lemma_terminator_after_prefix(head, tail);
        lemma_terminator_index(tail);
        assert(wide_content(buffer) =~= head + wide_content(tail));
        lemma_decode_encoded_char(text[0], wide_content(tail));
        assert(encode_utf16(until_nul(text)) =~= head + encode_utf16(until_nul(rest))) by {
            assert(until_nul(text).drop_first() =~= until_nul(rest));
        }
    }
}

/// Reading back the wide buffer of a text without null characters gives the
/// text exactly.
pub proof fn lemma_wide_round_trip(text: Seq<char>)
    requires
        is_nul_free(text),
    ensures
        is_terminated(wide_buffer(text)),
        wide_text(wide_buffer(text)) == text,
{
    lemma_wide_read_back(text);
    lemma_until_nul_of_nul_free(text);
}

/// The scanned length of the wide buffer of a text without null characters
/// is the number of code units of the text, and one for the terminator.
pub proof fn lemma_wide_length(text: Seq<char>)
    requires
        is_nul_free(text),
    ensures
        wide_len(wide_buffer(text)) == encode_utf16(text).len() + 1,
{
    lemma_wide_read_back(text);
    lemma_until_nul_of_nul_free(text);
}

/// Reading a wide buffer that holds an unpaired surrogate does not fail: the
/// text has one replacement character where the surrogate stood.
pub proof fn lemma_wide_text_unpaired_surrogate(before: Seq<u16>, unit: u16, after: Seq<u16>)
    requires
        is_zero_free(before),
        is_zero_free(after),
        is_unpaired(before, unit, after),
    ensures
        is_terminated((before + seq![unit] + after).push(0)),
        wide_text((before + seq![unit] + after).push(0)) == decode_utf16_lossy(before)
            + seq![REPLACEMENT_CHARACTER] + decode_utf16_lossy(after),
{
    let content = before + seq![unit] + after;
    lemma_first_zero_is_terminator(content.push(0), content.len() as int);
    assert(wide_content(content.push(0)) =~= content);
    lemma_decode_unpaired_surrogate(before, unit, after);
}

} // verus!
