//! Slices of UTF-8 text, as the string backends cut them out of their buffer.
use vstd::prelude::*;
use vstd::utf8::*;

verus! {

/// Whether `len` bytes from `offset` on lie inside `bytes` and begin and end
/// between two characters.
pub open spec fn is_slice(bytes: Seq<u8>, offset: int, len: int) -> bool {
    &&& 0 <= offset
    &&& 0 <= len
    &&& offset + len <= bytes.len()
    &&& is_char_boundary(bytes, offset)
    &&& is_char_boundary(bytes, offset + len)
}

/// The characters that `len` bytes from `offset` on encode.
pub open spec fn slice_text(bytes: Seq<u8>, offset: int, len: int) -> Seq<char> {
    decode_utf8(bytes.subrange(offset, offset + len))
}

/// In valid UTF-8 a position lies between two characters when it is the end,
/// or the byte there does not continue a character.
pub proof fn lemma_boundary_by_byte(bytes: Seq<u8>, i: int)
    requires
        valid_utf8(bytes),
        0 <= i <= bytes.len(),
    ensures
        is_char_boundary(bytes, i) <==> (i == bytes.len() || !is_continuation_byte(bytes[i])),
{
    is_char_boundary_start_end_of_seq(bytes);
    if i < bytes.len() {
        is_char_boundary_iff_not_is_continuation_byte(bytes, i);
    }
}

/// The place where two encodings are joined lies between two characters.
pub proof fn lemma_join_is_boundary(b1: Seq<u8>, b2: Seq<u8>)
    requires
        valid_utf8(b1),
        valid_utf8(b2),
    ensures
        valid_utf8(b1 + b2),
        is_char_boundary(b1 + b2, b1.len() as int),
{
    valid_utf8_concat(b1, b2);
    lemma_boundary_by_byte(b1 + b2, b1.len() as int);
    if b2.len() > 0 {
        lemma_boundary_by_byte(b2, 0);
    }
}

/// Encoding a text that is made of two parts gives the two encodings, one
/// after the other.
pub proof fn lemma_encode_concat(a: Seq<char>, b: Seq<char>)
    ensures
        encode_utf8(a + b) == encode_utf8(a) + encode_utf8(b),
{
    let b1 = encode_utf8(a);
    let b2 = encode_utf8(b);
    let all = b1 + b2;
    encode_utf8_valid_utf8(a);
    encode_utf8_valid_utf8(b);
    lemma_join_is_boundary(b1, b2);
    decode_utf8_split(all, b1.len() as int);
    assert(all.subrange(0, b1.len() as int) =~= b1);
    assert(all.subrange(b1.len() as int, all.len() as int) =~= b2);
    encode_utf8_decode_utf8(a);
    encode_utf8_decode_utf8(b);
    decode_utf8_encode_utf8(all);
}

/// A slice of a text is the same slice of any text that goes on after it.
pub proof fn lemma_slice_of_prefix(b1: Seq<u8>, b2: Seq<u8>, offset: int, len: int)
    requires
        valid_utf8(b1),
        valid_utf8(b2),
        is_slice(b1, offset, len),
    ensures
        is_slice(b1 + b2, offset, len),
        (b1 + b2).subrange(offset, offset + len) == b1.subrange(offset, offset + len),
{
    let all = b1 + b2;
    lemma_join_is_boundary(b1, b2);
    lemma_boundary_by_byte(b1, offset);
    lemma_boundary_by_byte(b1, offset + len);
    lemma_boundary_by_byte(all, offset);
    lemma_boundary_by_byte(all, offset + len);
}

/// What is put after a text is a slice of the whole.
pub proof fn lemma_slice_of_suffix(b1: Seq<u8>, b2: Seq<u8>)
    requires
        valid_utf8(b1),
        valid_utf8(b2),
    ensures
        is_slice(b1 + b2, b1.len() as int, b2.len() as int),
        (b1 + b2).subrange(b1.len() as int, (b1.len() + b2.len()) as int) == b2,
{
    let all = b1 + b2;
    lemma_join_is_boundary(b1, b2);
    is_char_boundary_start_end_of_seq(all);
}

/// A slice can be cut out in two steps: first what lies before it, then what
/// lies after it.
pub proof fn lemma_slice_in_two_cuts(bytes: Seq<u8>, offset: int, len: int)
    requires
        valid_utf8(bytes),
        is_slice(bytes, offset, len),
    ensures
        valid_utf8(bytes.subrange(offset, bytes.len() as int)),
        is_char_boundary(bytes.subrange(offset, bytes.len() as int), len),
        bytes.subrange(offset, bytes.len() as int).subrange(0, len) == bytes.subrange(
            offset,
            offset + len,
        ),
        valid_utf8(bytes.subrange(offset, offset + len)),
{
    let tail = bytes.subrange(offset, bytes.len() as int);
    valid_utf8_split(bytes, offset);
    lemma_boundary_by_byte(bytes, offset + len);
    lemma_boundary_by_byte(tail, len);
    valid_utf8_split(tail, len);
    assert(tail.subrange(0, len) =~= bytes.subrange(offset, offset + len));
}

/// The slice of `text` that is `len` bytes long and begins at `offset`, if
/// there is such a slice.
pub fn slice_of(text: &str, offset: usize, len: usize) -> (found: Option<&str>)
    ensures
        match found {
            Some(s) => is_slice(encode_utf8(text@), offset as int, len as int) && s@ == slice_text(
                encode_utf8(text@),
                offset as int,
                len as int,
            ),
            None => !is_slice(encode_utf8(text@), offset as int, len as int),
        },
{
    let total = text.as_bytes().len();
    let end = match offset.checked_add(len) {
        Some(end) => end,
        None => { return None; },
    };
    if end > total || !text.is_char_boundary(offset) || !text.is_char_boundary(end) {
        return None;
    }
    proof {
        encode_utf8_valid_utf8(text@);
        lemma_slice_in_two_cuts(encode_utf8(text@), offset as int, len as int);
    }
    let (_, tail) = text.split_at(offset);
    let (found, _) = tail.split_at(len);
    proof {
        encode_utf8_decode_utf8(found@);
    }
    Some(found)
}

/// Putting `added` after a text keeps every slice of the text, and makes
/// `added` the slice after them.
pub proof fn lemma_append(text: Seq<char>, added: Seq<char>)
    ensures
        encode_utf8(text + added) == encode_utf8(text) + encode_utf8(added),
        is_slice(
            encode_utf8(text + added),
            encode_utf8(text).len() as int,
            encode_utf8(added).len() as int,
        ),
        slice_text(
            encode_utf8(text + added),
            encode_utf8(text).len() as int,
            encode_utf8(added).len() as int,
        ) == added,
        forall|o: int, l: int| #[trigger]
            is_slice(encode_utf8(text), o, l) ==> is_slice(encode_utf8(text + added), o, l)
                && slice_text(encode_utf8(text + added), o, l) == slice_text(
                encode_utf8(text),
                o,
                l,
            ),
{
    let b1 = encode_utf8(text);
    let b2 = encode_utf8(added);
    encode_utf8_valid_utf8(text);
    encode_utf8_valid_utf8(added);
    encode_utf8_decode_utf8(added);
    lemma_encode_concat(text, added);
    lemma_slice_of_suffix(b1, b2);
    assert forall|o: int, l: int| #[trigger] is_slice(b1, o, l) implies is_slice(b1 + b2, o, l)
        && slice_text(b1 + b2, o, l) == slice_text(b1, o, l) by {
        lemma_slice_of_prefix(b1, b2, o, l);
    }
}

} // verus!
