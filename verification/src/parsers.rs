//! The executable rules: one function for each rule of the grammar, the
//! dispatch that tries them in order, and the parser of one whole sequence.

use vstd::prelude::*;
use vstd::slice::slice_subrange;
use vstd::string::StringSliceAdditionalSpecFns;
use vstd::utf8::encode_utf8_valid_utf8;
use crate::digits::{parse_int, parse_int_or_one};
use crate::enums::{AnsiSequence, ESC};
use crate::grammar::{
    amount_rule, byte_at, charset_rules, cursor_backward_rule, cursor_down_rule,
    cursor_forward_rule, cursor_pos_rule, cursor_rules, cursor_up_rule, escape_sequence_rule,
    fixed_rule, graphics_arity_rule, graphics_rule, int_list_rule, is_fixed, mode_rule,
    reset_mode_rule, reset_rules, sequence_rule, set_mode_rule, set_rules, starts_with, RuleResult,
};
use crate::render::lemma_fixed_text_ascii;
use crate::shape::{lemma_escape_sequence_rule_shape, lemma_sequence_rule_shape};
use crate::text::lemma_boundary_at_ascii;

verus! {

/// Whether what an executable rule returned is what the grammar says: the
/// same value and the same length, or no match on either side.
pub open spec fn agrees(r: Option<(AnsiSequence, usize)>, m: RuleResult) -> bool {
    match r {
        Some((seq, n)) => m == Some((seq@, n as nat)),
        None => m is None,
    }
}

fn at(input: &[u8], i: usize, b: u8) -> (r: bool)
    ensures
        r == byte_at(input@, i as nat, b),
        input@.len() <= usize::MAX,
{
    assert(input@.len() == input.len());
    i < input.len() && input[i] == b
}

fn tail(input: &[u8], from: usize) -> (rest: &[u8])
    requires
        from <= input.len(),
    ensures
        rest@ == input@.skip(from as int),
        rest@.len() == input@.len() - from,
{
    slice_subrange(input, from, input.len())
}

fn begins(input: &[u8], text: &[u8]) -> (r: bool)
    ensures
        r == starts_with(input@, text@),
{
    if input.len() < text.len() {
        return false;
    }
    let mut i: usize = 0;
    while i < text.len()
        invariant
            i <= text.len() <= input.len(),
            forall|j: int| 0 <= j < i ==> input@[j] == text@[j],
        decreases text.len() - i,
    {
        if input[i] != text[i] {
            assert(input@.take(text.len() as int)[i as int] != text@[i as int]);
            return false;
        }
        i += 1;
    }
    assert(input@.take(text.len() as int) =~= text@);
    true
}

/// The rule of one sequence without parameters. A sequence with parameters
/// has no fixed text and never matches here.
pub fn fixed(input: &[u8], seq: AnsiSequence) -> (r: Option<(AnsiSequence, usize)>)
    ensures
        agrees(r, fixed_rule(input@, seq@)),
{
    let text = seq.fixed_bytes();
    proof {
        if is_fixed(seq@) {
            lemma_fixed_text_ascii(seq@);
        }
    }
    if text.len() > 0 && begins(input, text) {
        Some((seq, text.len()))
    } else {
        None
    }
}

/// Cursor position.
pub fn cursor_pos(input: &[u8]) -> (r: Option<(AnsiSequence, usize)>)
    ensures
        agrees(r, cursor_pos_rule(input@)),
{
    if !at(input, 0, '[' as u8) {
        return None;
    }
    let (row, n) = match parse_int_or_one(tail(input, 1)) {
        Some(found) => found,
        None => {
            return None;
        },
    };
    let p: usize = 1 + n;
    let q: usize = if at(input, p, ';' as u8) {
        p + 1
    } else {
        p
    };
    let (col, m) = match parse_int_or_one(tail(input, q)) {
        Some(found) => found,
        None => {
            return None;
        },
    };
    let e: usize = q + m;
    if at(input, e, 'H' as u8) || at(input, e, 'f' as u8) {
        Some((AnsiSequence::CursorPos(row, col), e + 1))
    } else {
        None
    }
}

fn amount(input: &[u8], letter: u8) -> (r: Option<(u32, usize)>)
    ensures
        match r {
            Some((v, n)) => amount_rule(input@, letter) == Some((v, n as nat)),
            None => amount_rule(input@, letter) is None,
        },
{
    if !at(input, 0, '[' as u8) {
        return None;
    }
    match parse_int_or_one(tail(input, 1)) {
        None => None,
        Some((v, n)) => {
            if at(input, 1 + n, letter) {
                Some((v, n + 2))
            } else {
                None
            }
        },
    }
}

/// Cursor up.
pub fn cursor_up(input: &[u8]) -> (r: Option<(AnsiSequence, usize)>)
    ensures
        agrees(r, cursor_up_rule(input@)),
{
    match amount(input, 'A' as u8) {
        Some((v, n)) => Some((AnsiSequence::CursorUp(v), n)),
        None => None,
    }
}

/// Cursor down.
pub fn cursor_down(input: &[u8]) -> (r: Option<(AnsiSequence, usize)>)
    ensures
        agrees(r, cursor_down_rule(input@)),
{
    match amount(input, 'B' as u8) {
        Some((v, n)) => Some((AnsiSequence::CursorDown(v), n)),
        None => None,
    }
}

/// Cursor forward.
pub fn cursor_forward(input: &[u8]) -> (r: Option<(AnsiSequence, usize)>)
    ensures
        agrees(r, cursor_forward_rule(input@)),
{
    match amount(input, 'C' as u8) {
        Some((v, n)) => Some((AnsiSequence::CursorForward(v), n)),
        None => None,
    }
}

/// Cursor backward.
pub fn cursor_backward(input: &[u8]) -> (r: Option<(AnsiSequence, usize)>)
    ensures
        agrees(r, cursor_backward_rule(input@)),
{
    match amount(input, 'D' as u8) {
        Some((v, n)) => Some((AnsiSequence::CursorBackward(v), n)),
        None => None,
    }
}

fn int_list(input: &[u8], k: usize) -> (r: Option<(Vec<u32>, usize)>)
    ensures
        match r {
            Some((values, n)) => int_list_rule(input@, k as nat) == Some((values@, n as nat)) && n
                <= input@.len(),
            None => int_list_rule(input@, k as nat) is None,
        },
    decreases k,
{
    assert(input@.len() == input.len());
    if k == 0 {
        None
    } else if k == 1 {
        match parse_int(input) {
            Some((v, n)) => {
                let mut values: Vec<u32> = Vec::new();
                values.push(v);
                assert(values@ =~= seq![v]);
                Some((values, n))
            },
            None => None,
        }
    } else {
        match int_list(input, k - 1) {
            None => None,
            Some((values, n)) => {
                if !at(input, n, ';' as u8) {
                    return None;
                }
                match parse_int(tail(input, n + 1)) {
                    None => None,
                    Some((v, m)) => {
                        let mut values = values;
                        values.push(v);
                        Some((values, n + 1 + m))
                    },
                }
            },
        }
    }
}

/// Graphics mode with exactly `k` parameters. It never matches for `k == 0`.
pub fn graphics_mode_of_arity(input: &[u8], k: usize) -> (r: Option<(AnsiSequence, usize)>)
    ensures
        agrees(r, graphics_arity_rule(input@, k as nat)),
{
    if !at(input, 0, '[' as u8) {
        return None;
    }
    match int_list(tail(input, 1), k) {
        None => None,
        Some((values, n)) => {
            if at(input, 1 + n, 'm' as u8) {
                Some((AnsiSequence::SetGraphicsMode(values), n + 2))
            } else {
                None
            }
        },
    }
}

/// Graphics mode with one, two or three parameters.
pub fn graphics_mode(input: &[u8]) -> (r: Option<(AnsiSequence, usize)>)
    ensures
        agrees(r, graphics_rule(input@)),
{
    let r = graphics_mode_of_arity(input, 1);
    if r.is_some() {
        return r;
    }
    let r = graphics_mode_of_arity(input, 2);
    if r.is_some() {
        return r;
    }
    graphics_mode_of_arity(input, 3)
}

fn mode(input: &[u8], letter: u8) -> (r: Option<(u8, usize)>)
    ensures
        match r {
            Some((v, n)) => mode_rule(input@, letter) == Some((v, n as nat)),
            None => mode_rule(input@, letter) is None,
        },
{
    if !(at(input, 0, '[' as u8) && at(input, 1, '=' as u8)) {
        return None;
    }
    match parse_int(tail(input, 2)) {
        None => None,
        Some((v, n)) => {
            if v <= 255 && at(input, 2 + n, letter) {
                Some((v as u8, n + 3))
            } else {
                None
            }
        },
    }
}

/// Set mode.
pub fn set_mode(input: &[u8]) -> (r: Option<(AnsiSequence, usize)>)
    ensures
        agrees(r, set_mode_rule(input@)),
{
    match mode(input, 'h' as u8) {
        Some((v, n)) => Some((AnsiSequence::SetMode(v), n)),
        None => None,
    }
}

/// Reset mode.
pub fn reset_mode(input: &[u8]) -> (r: Option<(AnsiSequence, usize)>)
    ensures
        agrees(r, reset_mode_rule(input@)),
{
    match mode(input, 'l' as u8) {
        Some((v, n)) => Some((AnsiSequence::ResetMode(v), n)),
        None => None,
    }
}

/// The rules of the cursor and of erasing, in their order.
fn cursor_sequences(input: &[u8]) -> (r: Option<(AnsiSequence, usize)>)
    ensures
        agrees(r, cursor_rules(input@)),
{
    let r = cursor_pos(input);
    if r.is_some() {
        return r;
    }
    let r = cursor_up(input);
    if r.is_some() {
        return r;
    }
    let r = cursor_down(input);
    if r.is_some() {
        return r;
    }
    let r = cursor_forward(input);
    if r.is_some() {
        return r;
    }
    let r = cursor_backward(input);
    if r.is_some() {
        return r;
    }
    let r = fixed(input, AnsiSequence::CursorSave);
    if r.is_some() {
        return r;
    }
    let r = fixed(input, AnsiSequence::CursorRestore);
    if r.is_some() {
        return r;
    }
    let r = fixed(input, AnsiSequence::EraseDisplay);
    if r.is_some() {
        return r;
    }
    fixed(input, AnsiSequence::EraseLine)
}

/// The rules that set a mode of the terminal, in their order.
fn set_sequences(input: &[u8]) -> (r: Option<(AnsiSequence, usize)>)
    ensures
        agrees(r, set_rules(input@)),
{
    let r = fixed(input, AnsiSequence::HideCursor);
    if r.is_some() {
        return r;
    }
    let r = fixed(input, AnsiSequence::ShowCursor);
    if r.is_some() {
        return r;
    }
    let r = fixed(input, AnsiSequence::CursorToApp);
    if r.is_some() {
        return r;
    }
    let r = fixed(input, AnsiSequence::SetNewLineMode);
    if r.is_some() {
        return r;
    }
    let r = fixed(input, AnsiSequence::SetCol132);
    if r.is_some() {
        return r;
    }
    let r = fixed(input, AnsiSequence::SetSmoothScroll);
    if r.is_some() {
        return r;
    }
    let r = fixed(input, AnsiSequence::SetReverseVideo);
    if r.is_some() {
        return r;
    }
    let r = fixed(input, AnsiSequence::SetOriginRelative);
    if r.is_some() {
        return r;
    }
    let r = fixed(input, AnsiSequence::SetAutoWrap);
    if r.is_some() {
        return r;
    }
    let r = fixed(input, AnsiSequence::SetAutoRepeat);
    if r.is_some() {
        return r;
    }
    fixed(input, AnsiSequence::SetInterlacing)
}

/// The rules that reset a mode of the terminal, in their order.
fn reset_sequences(input: &[u8]) -> (r: Option<(AnsiSequence, usize)>)
    ensures
        agrees(r, reset_rules(input@)),
{
    let r = fixed(input, AnsiSequence::SetLineFeedMode);
    if r.is_some() {
        return r;
    }
    let r = fixed(input, AnsiSequence::SetCursorKeyToCursor);
    if r.is_some() {
        return r;
    }
    let r = fixed(input, AnsiSequence::SetVT52);
    if r.is_some() {
        return r;
    }
    let r = fixed(input, AnsiSequence::SetCol80);
    if r.is_some() {
        return r;
    }
    let r = fixed(input, AnsiSequence::SetJumpScrolling);
    if r.is_some() {
        return r;
    }
    let r = fixed(input, AnsiSequence::SetNormalVideo);
    if r.is_some() {
        return r;
    }
    let r = fixed(input, AnsiSequence::SetOriginAbsolute);
    if r.is_some() {
        return r;
    }
    let r = fixed(input, AnsiSequence::ResetAutoWrap);
    if r.is_some() {
        return r;
    }
    let r = fixed(input, AnsiSequence::ResetAutoRepeat);
    if r.is_some() {
        return r;
    }
    fixed(input, AnsiSequence::ResetInterlacing)
}

/// The rules of keypad mode, character sets and single shifts, in their order.
fn charset_sequences(input: &[u8]) -> (r: Option<(AnsiSequence, usize)>)
    ensures
        agrees(r, charset_rules(input@)),
{
    let r = fixed(input, AnsiSequence::SetAlternateKeypad);
    if r.is_some() {
        return r;
    }
    let r = fixed(input, AnsiSequence::SetNumericKeypad);
    if r.is_some() {
        return r;
    }
    let r = fixed(input, AnsiSequence::SetUKG0);
    if r.is_some() {
        return r;
    }
    let r = fixed(input, AnsiSequence::SetUKG1);
    if r.is_some() {
        return r;
    }
    let r = fixed(input, AnsiSequence::SetUSG0);
    if r.is_some() {
        return r;
    }
    let r = fixed(input, AnsiSequence::SetUSG1);
    if r.is_some() {
        return r;
    }
    let r = fixed(input, AnsiSequence::SetG0SpecialChars);
    if r.is_some() {
        return r;
    }
    let r = fixed(input, AnsiSequence::SetG1SpecialChars);
    if r.is_some() {
        return r;
    }
    let r = fixed(input, AnsiSequence::SetG0AlternateChar);
    if r.is_some() {
        return r;
    }
    let r = fixed(input, AnsiSequence::SetG1AlternateChar);
    if r.is_some() {
        return r;
    }
    let r = fixed(input, AnsiSequence::SetG0AltAndSpecialGraph);
    if r.is_some() {
        return r;
    }
    let r = fixed(input, AnsiSequence::SetG1AltAndSpecialGraph);
    if r.is_some() {
        return r;
    }
    let r = fixed(input, AnsiSequence::SetSingleShift2);
    if r.is_some() {
        return r;
    }
    fixed(input, AnsiSequence::SetSingleShift3)
}

/// The dispatch: tries every rule on the text after the introducer, in the
/// fixed order of the grammar, and returns what the first match gives.
pub fn combined(input: &[u8]) -> (r: Option<(AnsiSequence, usize)>)
    ensures
        agrees(r, sequence_rule(input@)),
{
    let r = fixed(input, AnsiSequence::Escape);
    if r.is_some() {
        return r;
    }
    let r = cursor_sequences(input);
    if r.is_some() {
        return r;
    }
    let r = graphics_mode(input);
    if r.is_some() {
        return r;
    }
    let r = set_mode(input);
    if r.is_some() {
        return r;
    }
    let r = reset_mode(input);
    if r.is_some() {
        return r;
    }
    let r = set_sequences(input);
    if r.is_some() {
        return r;
    }
    let r = reset_sequences(input);
    if r.is_some() {
        return r;
    }
    charset_sequences(input)
}

/// One whole escape sequence at the front of `input`: the introducer and
/// what the dispatch matches after it. The length counts the introducer.
pub fn parse_escape_bytes(input: &[u8]) -> (r: Option<(AnsiSequence, usize)>)
    ensures
        agrees(r, escape_sequence_rule(input@)),
        r matches Some((seq, n)) ==> 2 <= n <= input@.len() && seq.wf(),
{
    if !at(input, 0, ESC) {
        return None;
    }
    proof {
        lemma_sequence_rule_shape(input@.skip(1));
    }
    match combined(tail(input, 1)) {
        Some((seq, n)) => Some((seq, n + 1)),
        None => None,
    }
}

/// Why a text does not begin with an escape sequence.
#[derive(Debug, PartialEq, Eq, Clone, Copy, Structural)]
pub enum ParseError {
    /// The text does not begin with the introducer.
    NotEscape,
    /// The text begins with the introducer, but no rule matches what follows.
    Unrecognized,
}

/// Parses the escape sequence at the front of `input` and returns the rest
/// of the text with the sequence.
///
/// It fails with `NotEscape` exactly when `input` does not begin with the
/// introducer, and with `Unrecognized` exactly when it does and no rule
/// matches what follows.
pub fn parse_escape<'a>(input: &'a str) -> (r: Result<(&'a str, AnsiSequence), ParseError>)
    ensures
        match r {
            Ok((rest, seq)) => {
                &&& escape_sequence_rule(input.spec_bytes()) matches Some((v, n))
                &&& seq@ == v
                &&& rest.spec_bytes() == input.spec_bytes().skip(n as int)
            },
            Err(ParseError::NotEscape) => !byte_at(input.spec_bytes(), 0, ESC),
            Err(ParseError::Unrecognized) => byte_at(input.spec_bytes(), 0, ESC)
                && escape_sequence_rule(input.spec_bytes()) is None,
        },
{
    let bytes = input.as_bytes();
    if !at(bytes, 0, ESC) {
        return Err(ParseError::NotEscape);
    }
    match parse_escape_bytes(bytes) {
        None => Err(ParseError::Unrecognized),
        Some((seq, n)) => {
            proof {
                encode_utf8_valid_utf8(input@);
                lemma_escape_sequence_rule_shape(bytes@);
                lemma_boundary_at_ascii(bytes@, n - 1);
            }
            let (_, rest) = input.split_at(n);
            Ok((rest, seq))
        },
    }
}

} // verus!
