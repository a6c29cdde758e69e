//! Text inside binary messages: the length of its UTF-8 form, then that form.
use crate::storage::kvkey::{append_bytes, copy_bytes};
use crate::utils::varint::{
    lemma_decode_extend, lemma_varint_round_trip, spec_varint_decode, spec_varint_encode,
    varint_decode, varint_encode,
};
use vstd::prelude::*;
use vstd::slice::slice_subrange;
use vstd::string::*;
use vstd::utf8::{
    decode_utf8, encode_utf8, encode_utf8_decode_utf8, encode_utf8_valid_utf8, valid_utf8,
};

verus! {

/// A text as it is written: the length of its UTF-8 form, then that form.
pub open spec fn spec_text_field(text: Seq<char>) -> Seq<u8> {
    spec_varint_encode(encode_utf8(text).len()) + encode_utf8(text)
}

/// Reads a text from the front of `buf`: the text, and the count of bytes it
/// takes together with its length. There is none where the length cannot be
/// read, where the buffer ends before the text does, or where the bytes are
/// not UTF-8.
pub open spec fn spec_take_text(buf: Seq<u8>) -> Option<(Seq<char>, nat)> {
    match spec_varint_decode(buf) {
        Err(_) => None,
        Ok((len, used)) => {
            if used + len > buf.len() {
                None
            } else if !valid_utf8(buf.subrange(used as int, used + len)) {
                None
            } else {
                Some((decode_utf8(buf.subrange(used as int, used + len)), (used + len) as nat))
            }
        },
    }
}

/// A text that is read takes at least the byte of its length, and no more
/// bytes than there are.
pub proof fn lemma_take_text_bounds(buf: Seq<u8>)
    requires
        spec_take_text(buf) is Some,
    ensures
        1 <= spec_take_text(buf).unwrap().1 <= buf.len(),
{
    lemma_decode_extend(buf, Seq::empty());
}

/// A text that was written is read back whole, whatever follows it.
pub proof fn lemma_text_round_trip(text: Seq<char>, more: Seq<u8>)
    requires
        encode_utf8(text).len() <= u64::MAX,
    ensures
        spec_take_text(spec_text_field(text) + more) == Some((text, spec_text_field(text).len())),
{
    let bytes = encode_utf8(text);
    let prefix = spec_varint_encode(bytes.len());
    let buf = spec_text_field(text) + more;
    assert(buf =~= prefix + (bytes + more));
    lemma_varint_round_trip(bytes.len() as u64);
    lemma_decode_extend(prefix, bytes + more);
    assert(buf.subrange(prefix.len() as int, (prefix.len() + bytes.len()) as int) =~= bytes);
    encode_utf8_valid_utf8(text);
    encode_utf8_decode_utf8(text);
}

/// The text with the given UTF-8 form, if the bytes are one.
///
/// This is `String::from_utf8` of the standard library: it succeeds exactly
/// on valid UTF-8, and the text it returns has the bytes it was given.
#[verifier::external_body]
fn text_from_utf8(bytes: Vec<u8>) -> (text: Option<String>)
    ensures
        text is Some == valid_utf8(bytes@),
        text matches Some(t) ==> encode_utf8(t@) == bytes@,
{
    match String::from_utf8(bytes) {
        Ok(text) => Some(text),
        Err(_) => None,
    }
}

/// Appends a text in its written form.
pub fn put_text(out: &mut Vec<u8>, text: &str)
    ensures
        final(out)@ == old(out)@ + spec_text_field(text@),
        encode_utf8(text@).len() <= usize::MAX,
{
    let bytes = text.as_bytes();
    assert(bytes@.len() == bytes.len());
    let length = varint_encode(bytes.len() as u64);
    append_bytes(out, length.as_slice());
    append_bytes(out, bytes);
    assert(out@ =~= old(out)@ + spec_text_field(text@));
}

/// Reads a text at offset `start` of `data`.
pub fn take_text(data: &[u8], start: usize) -> (found: Option<(String, usize)>)
    ensures
        match found {
            Some((text, used)) => start <= data@.len() && spec_take_text(
                data@.skip(start as int),
            ) == Some((text@, used as nat)) && start + used <= data@.len(),
            None => start > data@.len() || spec_take_text(data@.skip(start as int)) is None,
        },
{
    if start > data.len() {
        return None;
    }
    let rest = slice_subrange(data, start, data.len());
    assert(rest@ =~= data@.skip(start as int));
    let (len, used) = match varint_decode(rest) {
        Ok(found) => found,
        Err(_) => {
            return None;
        },
    };
    proof {
        lemma_decode_extend(rest@, Seq::empty());
    }
    let left: usize = rest.len() - used;
    if len > left as u64 {
        return None;
    }
    let bytes = slice_subrange(rest, used, used + len as usize);
    match text_from_utf8(copy_bytes(bytes)) {
        Some(text) => {
            proof {
                encode_utf8_decode_utf8(text@);
            }
            Some((text, used + len as usize))
        },
        None => None,
    }
}

/// Whether `a` and `b` are the same bytes.
pub fn same_bytes(a: &[u8], b: &[u8]) -> (same: bool)
    ensures
        same == (a@ == b@),
{
    if a.len() != b.len() {
        return false;
    }
    let mut i: usize = 0;
    while i < a.len()
        invariant
            a@.len() == b@.len(),
            i <= a@.len(),
            forall|j: int| 0 <= j < i ==> a@[j] == b@[j],
        decreases a.len() - i,
    {
        if a[i] != b[i] {
            return false;
        }
        i = i + 1;
    }
    assert(a@ =~= b@);
    true
}

/// Whether `a` and `b` are the same text.
pub fn same_text(a: &str, b: &str) -> (same: bool)
    ensures
        same == (a@ == b@),
{
    proof {
        encode_utf8_decode_utf8(a@);
        encode_utf8_decode_utf8(b@);
    }
    same_bytes(a.as_bytes(), b.as_bytes())
}

} // verus!
