//! The marshaling operations themselves.

use crate::utf16::{decode_lossy, encode_into, encode_utf16};
use crate::wide::{
    is_terminated, le_bytes, lemma_terminator_index, terminator_index, wide_buffer, wide_len,
    wide_text,
};
use libc::c_char;
use vstd::prelude::*;
use vstd::slice::slice_subrange;

verus! {

/// The byte that occupies the same storage as a C character: the value itself
/// when it is not negative, its two's complement otherwise.
pub open spec fn byte_of(c: c_char) -> u8 {
    if c >= 0 {
        c as u8
    } else {
        (c + 256) as u8
    }
}

/// The bytes that occupy the same storage as a run of C characters.
pub open spec fn bytes_of(chars: Seq<c_char>) -> Seq<u8> {
    chars.map_values(|c: c_char| byte_of(c))
}

/// Copies a credential blob into an owned byte vector.
///
/// An absent buffer stands for "no value" and gives the empty vector,
/// whatever `len` says. A present buffer gives its first `len` bytes.
pub fn credentials_str_into_bytes(raw_buffer: Option<&[c_char]>, len: usize) -> (bytes: Vec<u8>)
    requires
        raw_buffer matches Some(buffer) ==> len <= buffer@.len(),
    ensures
        raw_buffer is None ==> bytes@ == Seq::<u8>::empty(),
        raw_buffer matches Some(buffer) ==> bytes@ == bytes_of(buffer@.take(len as int)),
{
    match raw_buffer {
        Some(buffer) => {
            let mut bytes: Vec<u8> = Vec::with_capacity(len);
            let mut i: usize = 0;
            while i < len
                invariant
                    i <= len <= buffer@.len(),
                    bytes@ == bytes_of(buffer@.take(i as int)),
                decreases len - i,
            {
                let c: c_char = buffer[i];
                let b: u8 = #[verifier::truncate] (c as u8);
                assert(b == byte_of(c)) by (bit_vector)
                    requires b == c as u8;
                bytes.push(b);
                i += 1;
                assert(bytes@ =~= bytes_of(buffer@.take(i as int)));
            }
            assert(buffer@.take(len as int) =~= buffer@.take(i as int));
            bytes
        },
        None => Vec::new(),
    }
}

/// Scans a null-terminated wide buffer for its terminator.
///
/// The result counts the code units in front of the first zero and the zero
/// itself.
pub fn w_str_len(s: &[u16]) -> (len: usize)
    requires
        is_terminated(s@),
    ensures
        len == wide_len(s@),
        0 < len <= s@.len(),
        s@[len - 1] == 0,
        forall|j: int| 0 <= j < len - 1 ==> s@[j] != 0,
{
    proof {
        lemma_terminator_index(s@);
    }
    let mut len: usize = 0;
    while s[len] != 0
        invariant
            len <= terminator_index(s@) < s@.len(),
            s@[terminator_index(s@)] == 0,
        decreases terminator_index(s@) - len,
    {
        len += 1;
    }
    proof {
        if len < terminator_index(s@) {
            assert(s@[len as int] != 0);
        }
    }
    len + 1
}

/// Reads the text of a null-terminated wide buffer.
///
/// The code units in front of the first zero are decoded lossily; the
/// terminator is no part of the text.
pub fn c_w_str_to_string(s: &[u16]) -> (text: String)
    requires
        is_terminated(s@),
    ensures
        text@ == wide_text(s@),
{
    let len = w_str_len(s) - 1;
    decode_lossy(slice_subrange(s, 0, len))
}

/// Encodes a text as a null-terminated wide buffer.
pub fn str_to_w_buff(data: &str) -> (buff: Vec<u16>)
    ensures
        buff@ == wide_buffer(data@),
{
    let mut buff: Vec<u16> = Vec::new();
    encode_into(data, &mut buff);
    buff.push(0);
    buff
}

/// Encodes a text as UTF-16 bytes, each code unit in little-endian order,
/// with no terminator.
pub fn str_encode_utf16(data: &str) -> (bytes: Vec<u8>)
    ensures
        bytes@ == le_bytes(encode_utf16(data@)),
{
    let mut units: Vec<u16> = Vec::new();
    encode_into(data, &mut units);
    let mut bytes: Vec<u8> = Vec::new();
    let mut i: usize = 0;
    while i < units.len()
        invariant
            i <= units@.len(),
            units@ == encode_utf16(data@),
            bytes@ == le_bytes(units@.take(i as int)),
        decreases units@.len() - i,
    {
        let unit: u16 = units[i];
        bytes.push((unit % 256) as u8);
        bytes.push((unit / 256) as u8);
        i += 1;
        assert(bytes@ =~= le_bytes(units@.take(i as int)));
    }
    assert(units@.take(i as int) =~= units@);
    bytes
}

} // verus!
