//! Writing a sequence out as its canonical text.

use vstd::prelude::*;
use vstd::utf8::{encode_utf8, is_ascii_chars, is_ascii_chars_encode_utf8};
use crate::digits::{digits_of, lemma_digits_of, push_decimal};
use crate::enums::{AnsiSequence, AnsiSequenceView, ESC};
use crate::grammar::{body, fixed_text, is_fixed, params_text, render, text1, text2};

verus! {

/// Appends `text` to `out`.
fn push_all(out: &mut Vec<u8>, text: &[u8])
    ensures
        final(out)@ == old(out)@ + text@,
{
    let mut i: usize = 0;
    while i < text.len()
        invariant
            i <= text.len(),
            out@ == old(out)@ + text@.take(i as int),
        decreases text.len() - i,
    {
        out.push(text[i]);
        i += 1;
        assert(out@ =~= old(out)@ + text@.take(i as int));
    }
    assert(text@.take(text.len() as int) =~= text@);
}

/// Whether every byte of `s` is an ASCII byte.
pub open spec fn all_ascii(s: Seq<u8>) -> bool {
    forall|i: int| 0 <= i < s.len() ==> #[trigger] s[i] < 0x80
}

/// ASCII bytes read as characters, one for one.
pub open spec fn ascii_chars(s: Seq<u8>) -> Seq<char> {
    Seq::new(s.len(), |i: int| s[i] as char)
}

/// Graphics parameters are written with ASCII bytes only.
pub proof fn lemma_params_text_ascii(params: Seq<u32>)
    ensures
        all_ascii(params_text(params)),
    decreases params.len(),
{
    if params.len() == 1 {
        lemma_digits_of(params[0] as nat);
    } else if params.len() > 1 {
        let head = params_text(params.drop_last());
        lemma_params_text_ascii(params.drop_last());
        lemma_digits_of(params.last() as nat);
        lemma_all_ascii_concat(head, text1(';'));
        lemma_all_ascii_concat(head + text1(';'), digits_of(params.last() as nat));
    }
}

/// The fixed text of a sequence without parameters is not empty and holds
/// ASCII bytes only.
pub proof fn lemma_fixed_text_ascii(v: AnsiSequenceView)
    requires
        is_fixed(v),
    ensures
        1 <= fixed_text(v).len() <= 5,
        all_ascii(fixed_text(v)),
{
    let t = fixed_text(v);
    assert(1 <= t.len() <= 5);
    assert forall|i: int| 0 <= i < t.len() implies #[trigger] t[i] < 0x80 by {
        if i == 0 {
        } else if i == 1 {
        } else if i == 2 {
        } else if i == 3 {
        } else {
        }
    }
}

/// Joining texts of ASCII bytes gives a text of ASCII bytes.
pub proof fn lemma_all_ascii_concat(a: Seq<u8>, b: Seq<u8>)
    requires
        all_ascii(a),
        all_ascii(b),
    ensures
        all_ascii(a + b),
{
    assert forall|i: int| 0 <= i < (a + b).len() implies #[trigger] (a + b)[i] < 0x80 by {
        if i < a.len() {
            assert((a + b)[i] == a[i]);
        } else {
            assert((a + b)[i] == b[i - a.len()]);
        }
    }
}

/// The canonical text of a sequence holds ASCII bytes only.
pub proof fn lemma_render_ascii(v: AnsiSequenceView)
    ensures
        all_ascii(render(v)),
{
    let b = body(v);
    assert(all_ascii(b)) by {
        match v {
            AnsiSequenceView::CursorPos(row, col) => {
                lemma_digits_of(row as nat);
                lemma_digits_of(col as nat);
                lemma_all_ascii_concat(text1('['), digits_of(row as nat));
                lemma_all_ascii_concat(text1('[') + digits_of(row as nat), text1(';'));
                lemma_all_ascii_concat(
                    text1('[') + digits_of(row as nat) + text1(';'),
                    digits_of(col as nat),
                );
                lemma_all_ascii_concat(
                    text1('[') + digits_of(row as nat) + text1(';') + digits_of(col as nat),
                    text1('H'),
                );
            },
            AnsiSequenceView::CursorUp(n) => {
                lemma_amount_ascii(text1('['), n as nat, text1('A'));
            },
            AnsiSequenceView::CursorDown(n) => {
                lemma_amount_ascii(text1('['), n as nat, text1('B'));
            },
            AnsiSequenceView::CursorForward(n) => {
                lemma_amount_ascii(text1('['), n as nat, text1('C'));
            },
            AnsiSequenceView::CursorBackward(n) => {
                lemma_amount_ascii(text1('['), n as nat, text1('D'));
            },
            AnsiSequenceView::SetGraphicsMode(params) => {
                lemma_params_text_ascii(params);
                lemma_all_ascii_concat(text1('['), params_text(params));
                lemma_all_ascii_concat(text1('[') + params_text(params), text1('m'));
            },
            AnsiSequenceView::SetMode(mode) => {
                lemma_amount_ascii(text2('[', '='), mode as nat, text1('h'));
            },
            AnsiSequenceView::ResetMode(mode) => {
                lemma_amount_ascii(text2('[', '='), mode as nat, text1('l'));
            },
            _ => {
                lemma_fixed_text_ascii(v);
            },
        }
    }
    lemma_all_ascii_concat(seq![ESC], b);
}

/// A number between two ASCII texts gives an ASCII text.
proof fn lemma_amount_ascii(open: Seq<u8>, n: nat, close: Seq<u8>)
    requires
        all_ascii(open),
        all_ascii(close),
    ensures
        all_ascii(open + digits_of(n) + close),
{
    lemma_digits_of(n);
    lemma_all_ascii_concat(open, digits_of(n));
    lemma_all_ascii_concat(open + digits_of(n), close);
}

/// `String::push` appends the character to the end of the string.
pub assume_specification[ String::push ](s: &mut String, ch: char)
    ensures
        final(s)@ == old(s)@.push(ch),
;

impl AnsiSequence {
    /// The canonical text of the sequence, as bytes.
    pub fn render(&self) -> (out: Vec<u8>)
        requires
            self.wf(),
        ensures
            out@ == render(self@),
    {
        let mut out: Vec<u8> = Vec::new();
        out.push(ESC);
        match self {
            AnsiSequence::CursorPos(row, col) => {
                out.push('[' as u8);
                push_decimal(&mut out, *row);
                out.push(';' as u8);
                push_decimal(&mut out, *col);
                out.push('H' as u8);
            },
            AnsiSequence::CursorUp(n) => {
                out.push('[' as u8);
                push_decimal(&mut out, *n);
                out.push('A' as u8);
            },
            AnsiSequence::CursorDown(n) => {
                out.push('[' as u8);
                push_decimal(&mut out, *n);
                out.push('B' as u8);
            },
            AnsiSequence::CursorForward(n) => {
                out.push('[' as u8);
                push_decimal(&mut out, *n);
                out.push('C' as u8);
            },
            AnsiSequence::CursorBackward(n) => {
                out.push('[' as u8);
                push_decimal(&mut out, *n);
                out.push('D' as u8);
            },
            AnsiSequence::SetGraphicsMode(params) => {
                out.push('[' as u8);
                push_decimal(&mut out, params[0]);
                assert(params@.take(1) =~= seq![params@[0]]);
                let mut i: usize = 1;
                while i < params.len()
                    invariant
                        1 <= i <= params.len(),
                        out@ == seq![ESC, '[' as u8] + params_text(params@.take(i as int)),
                    decreases params.len() - i,
                {
                    out.push(';' as u8);
                    push_decimal(&mut out, params[i]);
                    i += 1;
                    proof {
                        let now = params@.take(i as int);
                        assert(now.drop_last() =~= params@.take(i - 1));
                        assert(now.last() == params@[i - 1]);
                        assert(out@ =~= seq![ESC, '[' as u8] + params_text(now));
                    }
                }
                assert(params@.take(params.len() as int) =~= params@);
                out.push('m' as u8);
            },
            AnsiSequence::SetMode(mode) => {
                out.push('[' as u8);
                out.push('=' as u8);
                push_decimal(&mut out, *mode as u32);
                out.push('h' as u8);
            },
            AnsiSequence::ResetMode(mode) => {
                out.push('[' as u8);
                out.push('=' as u8);
                push_decimal(&mut out, *mode as u32);
                out.push('l' as u8);
            },
            _ => {
                push_all(&mut out, self.fixed_bytes());
            },
        }
        assert(out@ =~= render(self@));
        out
    }

    /// The canonical text of the sequence, as a string: the bytes of
    /// [`AnsiSequence::render`], each of which is an ASCII character.
    pub fn to_string(&self) -> (text: String)
        requires
            self.wf(),
        ensures
            text@ == ascii_chars(render(self@)),
            encode_utf8(text@) == render(self@),
    {
        let bytes = self.render();
        proof {
            lemma_render_ascii(self@);
        }
        let mut text = String::new();
        let mut i: usize = 0;
        while i < bytes.len()
            invariant
                i <= bytes.len(),
                all_ascii(bytes@),
                text@ == ascii_chars(bytes@.take(i as int)),
            decreases bytes.len() - i,
        {
            text.push(bytes[i] as char);
            i += 1;
            assert(text@ =~= ascii_chars(bytes@.take(i as int)));
        }
        proof {
            assert(bytes@.take(bytes.len() as int) =~= bytes@);
            assert(is_ascii_chars(text@));
            is_ascii_chars_encode_utf8(text@);
            assert(encode_utf8(text@) =~= bytes@);
        }
        text
    }

    /// The text after the introducer of a sequence without parameters; empty
    /// for a sequence with parameters.
    pub fn fixed_bytes(&self) -> (text: &'static [u8])
        ensures
            text@ == fixed_text(self@),
    {
        match self {
            AnsiSequence::Escape => &[0x1b],
            AnsiSequence::CursorSave => &['[' as u8, 's' as u8],
            AnsiSequence::CursorRestore => &['[' as u8, 'u' as u8],
            AnsiSequence::EraseDisplay => &['[' as u8, '2' as u8, 'J' as u8],
            AnsiSequence::EraseLine => &['[' as u8, 'K' as u8],
            AnsiSequence::HideCursor => &['[' as u8, '?' as u8, '2' as u8, '5' as u8, 'l' as u8],
            AnsiSequence::ShowCursor => &['[' as u8, '?' as u8, '2' as u8, '5' as u8, 'h' as u8],
            AnsiSequence::CursorToApp => &['[' as u8, '?' as u8, '1' as u8, 'h' as u8],
            AnsiSequence::SetNewLineMode => &['[' as u8, '2' as u8, '0' as u8, 'h' as u8],
            AnsiSequence::SetCol132 => &['[' as u8, '?' as u8, '3' as u8, 'h' as u8],
            AnsiSequence::SetSmoothScroll => &['[' as u8, '?' as u8, '4' as u8, 'h' as u8],
            AnsiSequence::SetReverseVideo => &['[' as u8, '?' as u8, '5' as u8, 'h' as u8],
            AnsiSequence::SetOriginRelative => &['[' as u8, '?' as u8, '6' as u8, 'h' as u8],
            AnsiSequence::SetAutoWrap => &['[' as u8, '?' as u8, '7' as u8, 'h' as u8],
            AnsiSequence::SetAutoRepeat => &['[' as u8, '?' as u8, '8' as u8, 'h' as u8],
            AnsiSequence::SetInterlacing => &['[' as u8, '?' as u8, '9' as u8, 'h' as u8],
            AnsiSequence::SetLineFeedMode => &['[' as u8, '2' as u8, '0' as u8, 'l' as u8],
            AnsiSequence::SetCursorKeyToCursor => &['[' as u8, '?' as u8, '1' as u8, 'l' as u8],
            AnsiSequence::SetVT52 => &['[' as u8, '?' as u8, '2' as u8, 'l' as u8],
            AnsiSequence::SetCol80 => &['[' as u8, '?' as u8, '3' as u8, 'l' as u8],
            AnsiSequence::SetJumpScrolling => &['[' as u8, '?' as u8, '4' as u8, 'l' as u8],
            AnsiSequence::SetNormalVideo => &['[' as u8, '?' as u8, '5' as u8, 'l' as u8],
            AnsiSequence::SetOriginAbsolute => &['[' as u8, '?' as u8, '6' as u8, 'l' as u8],
            AnsiSequence::ResetAutoWrap => &['[' as u8, '?' as u8, '7' as u8, 'l' as u8],
            AnsiSequence::ResetAutoRepeat => &['[' as u8, '?' as u8, '8' as u8, 'l' as u8],
            AnsiSequence::ResetInterlacing => &['[' as u8, '?' as u8, '9' as u8, 'l' as u8],
            AnsiSequence::SetAlternateKeypad => &['=' as u8],
            AnsiSequence::SetNumericKeypad => &['>' as u8],
            AnsiSequence::SetUKG0 => &['(' as u8, 'A' as u8],
            AnsiSequence::SetUKG1 => &[')' as u8, 'A' as u8],
            AnsiSequence::SetUSG0 => &['(' as u8, 'B' as u8],
            AnsiSequence::SetUSG1 => &[')' as u8, 'B' as u8],
            AnsiSequence::SetG0SpecialChars => &['(' as u8, '0' as u8],
            AnsiSequence::SetG1SpecialChars => &[')' as u8, '0' as u8],
            AnsiSequence::SetG0AlternateChar => &['(' as u8, '1' as u8],
            AnsiSequence::SetG1AlternateChar => &[')' as u8, '1' as u8],
            AnsiSequence::SetG0AltAndSpecialGraph => &['(' as u8, '2' as u8],
            AnsiSequence::SetG1AltAndSpecialGraph => &[')' as u8, '2' as u8],
            AnsiSequence::SetSingleShift2 => &['N' as u8],
            AnsiSequence::SetSingleShift3 => &['O' as u8],
            _ => &[],
        }
    }
}

} // verus!
