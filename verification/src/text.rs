//! Where a UTF-8 text may be cut: the lexer cuts before an introducer and
//! after the last byte of a sequence, and both are character boundaries.

use vstd::prelude::*;
use vstd::utf8::{
    is_char_boundary, is_char_boundary_iff_not_is_continuation_byte,
    is_char_boundary_start_end_of_seq, valid_utf8, valid_utf8_split,
};

verus! {

/// An ASCII byte in a UTF-8 text is a character of its own: the text may be
/// cut before it and after it.
pub proof fn lemma_boundary_at_ascii(bytes: Seq<u8>, i: int)
    requires
        valid_utf8(bytes),
        0 <= i < bytes.len(),
        bytes[i] < 0x80,
    ensures
        is_char_boundary(bytes, i),
        is_char_boundary(bytes, i + 1),
{
    is_char_boundary_iff_not_is_continuation_byte(bytes, i);
    if i + 1 == bytes.len() {
        is_char_boundary_start_end_of_seq(bytes);
    } else {
        let suffix = bytes.subrange(i, bytes.len() as int);
        valid_utf8_split(bytes, i);
        assert(suffix[0] == bytes[i]);
        let after = suffix.subrange(1, suffix.len() as int);
        assert(valid_utf8(after)) by {
            reveal_with_fuel(valid_utf8, 2);
        }
        assert(after[0] == bytes[i + 1]);
        assert(after.len() > 0);
        is_char_boundary_iff_not_is_continuation_byte(bytes, i + 1);
    }
}

/// Every index up to the length at which no continuation byte stands is a
/// place where the text may be cut; the end is one too.
pub proof fn lemma_boundary_before_ascii_or_end(bytes: Seq<u8>, i: int)
    requires
        valid_utf8(bytes),
        0 <= i <= bytes.len(),
        i < bytes.len() ==> bytes[i] < 0x80,
    ensures
        is_char_boundary(bytes, i),
{
    if i == bytes.len() {
        is_char_boundary_start_end_of_seq(bytes);
    } else {
        is_char_boundary_iff_not_is_continuation_byte(bytes, i);
    }
}

} // verus!
