//! The grammar of the escape sequences, as functions on bytes.
//!
//! Every rule looks at the text that follows the introducer `ESC`. It either
//! matches a prefix of that text, and gives a value and the length of the
//! prefix, or does not match. [`render`] is the way back: the canonical text
//! of a value.

use vstd::prelude::*;
use crate::digits::{digits_of, int_or_one_rule, int_rule};
use crate::enums::{AnsiSequenceView, ESC};

verus! {

/// What a rule gives: the value and how many bytes it took, or nothing.
pub type RuleResult = Option<(AnsiSequenceView, nat)>;

/// The bytes of a text of one ASCII character. `text2` to `text5` are the
/// same for longer texts.
pub open spec fn text1(a: char) -> Seq<u8> {
    seq![a as u8]
}

pub open spec fn text2(a: char, b: char) -> Seq<u8> {
    seq![a as u8, b as u8]
}

pub open spec fn text3(a: char, b: char, c: char) -> Seq<u8> {
    seq![a as u8, b as u8, c as u8]
}

pub open spec fn text4(a: char, b: char, c: char, d: char) -> Seq<u8> {
    seq![a as u8, b as u8, c as u8, d as u8]
}

pub open spec fn text5(a: char, b: char, c: char, d: char, e: char) -> Seq<u8> {
    seq![a as u8, b as u8, c as u8, d as u8, e as u8]
}

/// Whether `s` begins with the bytes `t`.
pub open spec fn starts_with(s: Seq<u8>, t: Seq<u8>) -> bool {
    t.len() <= s.len() && s.take(t.len() as int) == t
}

/// Whether `s` has the byte `b` at index `i`.
pub open spec fn byte_at(s: Seq<u8>, i: nat, b: u8) -> bool {
    i < s.len() && s[i as int] == b
}

/// Ordered choice: the first result if there is one, else the second.
pub open spec fn first_of(a: RuleResult, b: RuleResult) -> RuleResult {
    if a is Some {
        a
    } else {
        b
    }
}

/// Whether a sequence carries no parameter, so that its text is fixed.
pub open spec fn is_fixed(v: AnsiSequenceView) -> bool {
    match v {
        AnsiSequenceView::CursorPos(_, _) => false,
        AnsiSequenceView::CursorUp(_) => false,
        AnsiSequenceView::CursorDown(_) => false,
        AnsiSequenceView::CursorForward(_) => false,
        AnsiSequenceView::CursorBackward(_) => false,
        AnsiSequenceView::SetGraphicsMode(_) => false,
        AnsiSequenceView::SetMode(_) => false,
        AnsiSequenceView::ResetMode(_) => false,
        _ => true,
    }
}

/// The text that follows `ESC` in a sequence without parameters. For one with
/// parameters it is empty: see [`body`].
pub open spec fn fixed_text(v: AnsiSequenceView) -> Seq<u8> {
    match v {
        AnsiSequenceView::Escape => seq![ESC],
        AnsiSequenceView::CursorSave => text2('[', 's'),
        AnsiSequenceView::CursorRestore => text2('[', 'u'),
        AnsiSequenceView::EraseDisplay => text3('[', '2', 'J'),
        AnsiSequenceView::EraseLine => text2('[', 'K'),
        AnsiSequenceView::HideCursor => text5('[', '?', '2', '5', 'l'),
        AnsiSequenceView::ShowCursor => text5('[', '?', '2', '5', 'h'),
        AnsiSequenceView::CursorToApp => text4('[', '?', '1', 'h'),
        AnsiSequenceView::SetNewLineMode => text4('[', '2', '0', 'h'),
        AnsiSequenceView::SetCol132 => text4('[', '?', '3', 'h'),
        AnsiSequenceView::SetSmoothScroll => text4('[', '?', '4', 'h'),
        AnsiSequenceView::SetReverseVideo => text4('[', '?', '5', 'h'),
        AnsiSequenceView::SetOriginRelative => text4('[', '?', '6', 'h'),
        AnsiSequenceView::SetAutoWrap => text4('[', '?', '7', 'h'),
        AnsiSequenceView::SetAutoRepeat => text4('[', '?', '8', 'h'),
        AnsiSequenceView::SetInterlacing => text4('[', '?', '9', 'h'),
        AnsiSequenceView::SetLineFeedMode => text4('[', '2', '0', 'l'),
        AnsiSequenceView::SetCursorKeyToCursor => text4('[', '?', '1', 'l'),
        AnsiSequenceView::SetVT52 => text4('[', '?', '2', 'l'),
        AnsiSequenceView::SetCol80 => text4('[', '?', '3', 'l'),
        AnsiSequenceView::SetJumpScrolling => text4('[', '?', '4', 'l'),
        AnsiSequenceView::SetNormalVideo => text4('[', '?', '5', 'l'),
        AnsiSequenceView::SetOriginAbsolute => text4('[', '?', '6', 'l'),
        AnsiSequenceView::ResetAutoWrap => text4('[', '?', '7', 'l'),
        AnsiSequenceView::ResetAutoRepeat => text4('[', '?', '8', 'l'),
        AnsiSequenceView::ResetInterlacing => text4('[', '?', '9', 'l'),
        AnsiSequenceView::SetAlternateKeypad => text1('='),
        AnsiSequenceView::SetNumericKeypad => text1('>'),
        AnsiSequenceView::SetUKG0 => text2('(', 'A'),
        AnsiSequenceView::SetUKG1 => text2(')', 'A'),
        AnsiSequenceView::SetUSG0 => text2('(', 'B'),
        AnsiSequenceView::SetUSG1 => text2(')', 'B'),
        AnsiSequenceView::SetG0SpecialChars => text2('(', '0'),
        AnsiSequenceView::SetG1SpecialChars => text2(')', '0'),
        AnsiSequenceView::SetG0AlternateChar => text2('(', '1'),
        AnsiSequenceView::SetG1AlternateChar => text2(')', '1'),
        AnsiSequenceView::SetG0AltAndSpecialGraph => text2('(', '2'),
        AnsiSequenceView::SetG1AltAndSpecialGraph => text2(')', '2'),
        AnsiSequenceView::SetSingleShift2 => text1('N'),
        AnsiSequenceView::SetSingleShift3 => text1('O'),
        _ => Seq::<u8>::empty(),
    }
}

/// The rule of a sequence without parameters: the text begins with the
/// sequence's fixed text.
pub open spec fn fixed_rule(s: Seq<u8>, v: AnsiSequenceView) -> RuleResult {
    if is_fixed(v) && starts_with(s, fixed_text(v)) {
        Some((v, fixed_text(v).len()))
    } else {
        None
    }
}

/// Cursor position: `[`, a row, an optional `;`, a column, then `H` or `f`.
/// A row or column that is left out is 1.
pub open spec fn cursor_pos_rule(s: Seq<u8>) -> RuleResult {
    if !byte_at(s, 0, '[' as u8) {
        None
    } else {
        match int_or_one_rule(s.skip(1)) {
            None => None,
            Some((row, n)) => {
                let p = 1 + n;
                let q = if byte_at(s, p, ';' as u8) {
                    p + 1
                } else {
                    p
                };
                match int_or_one_rule(s.skip(q as int)) {
                    None => None,
                    Some((col, m)) => {
                        let e = q + m;
                        if byte_at(s, e, 'H' as u8) || byte_at(s, e, 'f' as u8) {
                            Some((AnsiSequenceView::CursorPos(row, col), e + 1))
                        } else {
                            None
                        }
                    },
                }
            },
        }
    }
}

/// The shape of the four cursor movements: `[`, an amount, the letter. An
/// amount that is left out is 1.
pub open spec fn amount_rule(s: Seq<u8>, letter: u8) -> Option<(u32, nat)> {
    if !byte_at(s, 0, '[' as u8) {
        None
    } else {
        match int_or_one_rule(s.skip(1)) {
            None => None,
            Some((amount, n)) => {
                if byte_at(s, 1 + n, letter) {
                    Some((amount, n + 2))
                } else {
                    None
                }
            },
        }
    }
}

/// Cursor up: an amount and `A`.
pub open spec fn cursor_up_rule(s: Seq<u8>) -> RuleResult {
    match amount_rule(s, 'A' as u8) {
        Some((amount, n)) => Some((AnsiSequenceView::CursorUp(amount), n)),
        None => None,
    }
}

/// Cursor down: an amount and `B`.
pub open spec fn cursor_down_rule(s: Seq<u8>) -> RuleResult {
    match amount_rule(s, 'B' as u8) {
        Some((amount, n)) => Some((AnsiSequenceView::CursorDown(amount), n)),
        None => None,
    }
}

/// Cursor forward: an amount and `C`.
pub open spec fn cursor_forward_rule(s: Seq<u8>) -> RuleResult {
    match amount_rule(s, 'C' as u8) {
        Some((amount, n)) => Some((AnsiSequenceView::CursorForward(amount), n)),
        None => None,
    }
}

/// Cursor backward: an amount and `D`.
pub open spec fn cursor_backward_rule(s: Seq<u8>) -> RuleResult {
    match amount_rule(s, 'D' as u8) {
        Some((amount, n)) => Some((AnsiSequenceView::CursorBackward(amount), n)),
        None => None,
    }
}

/// `k` integers with a `;` between each two: the values and the length.
pub open spec fn int_list_rule(s: Seq<u8>, k: nat) -> Option<(Seq<u32>, nat)>
    decreases k,
{
    if k == 0 {
        None
    } else if k == 1 {
        match int_rule(s) {
            Some((v, n)) => Some((seq![v], n)),
            None => None,
        }
    } else {
        match int_list_rule(s, (k - 1) as nat) {
            None => None,
            Some((values, n)) => {
                if byte_at(s, n, ';' as u8) {
                    match int_rule(s.skip(n + 1 as int)) {
                        Some((v, m)) => Some((values.push(v), n + 1 + m)),
                        None => None,
                    }
                } else {
                    None
                }
            },
        }
    }
}

/// Graphics mode with exactly `k` parameters: `[`, the parameters, `m`.
pub open spec fn graphics_arity_rule(s: Seq<u8>, k: nat) -> RuleResult {
    if !byte_at(s, 0, '[' as u8) {
        None
    } else {
        match int_list_rule(s.skip(1), k) {
            None => None,
            Some((values, n)) => {
                if byte_at(s, 1 + n, 'm' as u8) {
                    Some((AnsiSequenceView::SetGraphicsMode(values), n + 2))
                } else {
                    None
                }
            },
        }
    }
}

/// Graphics mode: one, two or three parameters, none of which may be left out.
pub open spec fn graphics_rule(s: Seq<u8>) -> RuleResult {
    first_of(
        graphics_arity_rule(s, 1),
        first_of(graphics_arity_rule(s, 2), graphics_arity_rule(s, 3)),
    )
}

/// The shape of set mode and reset mode: `[=`, a mode that fits a byte, the
/// letter.
pub open spec fn mode_rule(s: Seq<u8>, letter: u8) -> Option<(u8, nat)> {
    if !(byte_at(s, 0, '[' as u8) && byte_at(s, 1, '=' as u8)) {
        None
    } else {
        match int_rule(s.skip(2)) {
            None => None,
            Some((mode, n)) => {
                if mode <= 255 && byte_at(s, 2 + n, letter) {
                    Some((mode as u8, n + 3))
                } else {
                    None
                }
            },
        }
    }
}

/// Set mode: `[=`, a mode, `h`.
pub open spec fn set_mode_rule(s: Seq<u8>) -> RuleResult {
    match mode_rule(s, 'h' as u8) {
        Some((mode, n)) => Some((AnsiSequenceView::SetMode(mode), n)),
        None => None,
    }
}

/// Reset mode: `[=`, a mode, `l`.
pub open spec fn reset_mode_rule(s: Seq<u8>) -> RuleResult {
    match mode_rule(s, 'l' as u8) {
        Some((mode, n)) => Some((AnsiSequenceView::ResetMode(mode), n)),
        None => None,
    }
}

/// The rules that move, save and restore the cursor and erase, in the order
/// in which they are tried.
pub open spec fn cursor_rules(s: Seq<u8>) -> RuleResult {
    first_of(
        cursor_pos_rule(s),
        first_of(
            cursor_up_rule(s),
            first_of(
                cursor_down_rule(s),
                first_of(
                    cursor_forward_rule(s),
                    first_of(
                        cursor_backward_rule(s),
                        first_of(
                            fixed_rule(s, AnsiSequenceView::CursorSave),
                            first_of(
                                fixed_rule(s, AnsiSequenceView::CursorRestore),
                                first_of(
                                    fixed_rule(s, AnsiSequenceView::EraseDisplay),
                                    fixed_rule(s, AnsiSequenceView::EraseLine),
                                ),
                            ),
                        ),
                    ),
                ),
            ),
        ),
    )
}

/// The rules that set a mode of the terminal (`h`), in the order in which
/// they are tried.
pub open spec fn set_rules(s: Seq<u8>) -> RuleResult {
    first_of(
        fixed_rule(s, AnsiSequenceView::HideCursor),
        first_of(
            fixed_rule(s, AnsiSequenceView::ShowCursor),
            first_of(
                fixed_rule(s, AnsiSequenceView::CursorToApp),
                first_of(
                    fixed_rule(s, AnsiSequenceView::SetNewLineMode),
                    first_of(
                        fixed_rule(s, AnsiSequenceView::SetCol132),
                        first_of(
                            fixed_rule(s, AnsiSequenceView::SetSmoothScroll),
                            first_of(
                                fixed_rule(s, AnsiSequenceView::SetReverseVideo),
                                first_of(
                                    fixed_rule(s, AnsiSequenceView::SetOriginRelative),
                                    first_of(
                                        fixed_rule(s, AnsiSequenceView::SetAutoWrap),
                                        first_of(
                                            fixed_rule(s, AnsiSequenceView::SetAutoRepeat),
                                            fixed_rule(s, AnsiSequenceView::SetInterlacing),
                                        ),
                                    ),
                                ),
                            ),
                        ),
                    ),
                ),
            ),
        ),
    )
}

/// The rules that reset a mode of the terminal (`l`), in the order in which
/// they are tried.
pub open spec fn reset_rules(s: Seq<u8>) -> RuleResult {
    first_of(
        fixed_rule(s, AnsiSequenceView::SetLineFeedMode),
        first_of(
            fixed_rule(s, AnsiSequenceView::SetCursorKeyToCursor),
            first_of(
                fixed_rule(s, AnsiSequenceView::SetVT52),
                first_of(
                    fixed_rule(s, AnsiSequenceView::SetCol80),
                    first_of(
                        fixed_rule(s, AnsiSequenceView::SetJumpScrolling),
                        first_of(
                            fixed_rule(s, AnsiSequenceView::SetNormalVideo),
                            first_of(
                                fixed_rule(s, AnsiSequenceView::SetOriginAbsolute),
                                first_of(
                                    fixed_rule(s, AnsiSequenceView::ResetAutoWrap),
                                    first_of(
                                        fixed_rule(s, AnsiSequenceView::ResetAutoRepeat),
                                        fixed_rule(s, AnsiSequenceView::ResetInterlacing),
                                    ),
                                ),
                            ),
                        ),
                    ),
                ),
            ),
        ),
    )
}

/// The rules of the sequences that have no `[` after the introducer: keypad
/// mode, character sets and single shifts, in the order in which they are tried.
pub open spec fn charset_rules(s: Seq<u8>) -> RuleResult {
    first_of(
        fixed_rule(s, AnsiSequenceView::SetAlternateKeypad),
        first_of(
            fixed_rule(s, AnsiSequenceView::SetNumericKeypad),
            first_of(
                fixed_rule(s, AnsiSequenceView::SetUKG0),
                first_of(
                    fixed_rule(s, AnsiSequenceView::SetUKG1),
                    first_of(
                        fixed_rule(s, AnsiSequenceView::SetUSG0),
                        first_of(
                            fixed_rule(s, AnsiSequenceView::SetUSG1),
                            first_of(
                                fixed_rule(s, AnsiSequenceView::SetG0SpecialChars),
                                first_of(
                                    fixed_rule(s, AnsiSequenceView::SetG1SpecialChars),
                                    first_of(
                                        fixed_rule(s, AnsiSequenceView::SetG0AlternateChar),
                                        first_of(
                                            fixed_rule(s, AnsiSequenceView::SetG1AlternateChar),
                                            first_of(
                                                fixed_rule(
                                                    s,
                                                    AnsiSequenceView::SetG0AltAndSpecialGraph,
                                                ),
                                                first_of(
                                                    fixed_rule(
                                                        s,
                                                        AnsiSequenceView::SetG1AltAndSpecialGraph,
                                                    ),
                                                    first_of(
                                                        fixed_rule(
                                                            s,
                                                            AnsiSequenceView::SetSingleShift2,
                                                        ),
                                                        fixed_rule(
                                                            s,
                                                            AnsiSequenceView::SetSingleShift3,
                                                        ),
                                                    ),
                                                ),
                                            ),
                                        ),
                                    ),
                                ),
                            ),
                        ),
                    ),
                ),
            ),
        ),
    )
}

/// The dispatch: every rule is tried on the text after the introducer, in a
/// fixed order, and the first that matches decides.
pub open spec fn sequence_rule(s: Seq<u8>) -> RuleResult {
    first_of(
        fixed_rule(s, AnsiSequenceView::Escape),
        first_of(
            cursor_rules(s),
            first_of(
                graphics_rule(s),
                first_of(
                    set_mode_rule(s),
                    first_of(
                        reset_mode_rule(s),
                        first_of(set_rules(s), first_of(reset_rules(s), charset_rules(s))),
                    ),
                ),
            ),
        ),
    )
}

/// A whole escape sequence at the front of `s`: the introducer, then what
/// [`sequence_rule`] matches. The length counts the introducer.
pub open spec fn escape_sequence_rule(s: Seq<u8>) -> RuleResult {
    if byte_at(s, 0, ESC) {
        match sequence_rule(s.skip(1)) {
            Some((v, n)) => Some((v, n + 1)),
            None => None,
        }
    } else {
        None
    }
}

/// Graphics parameters written out with a `;` between each two.
pub open spec fn params_text(params: Seq<u32>) -> Seq<u8>
    decreases params.len(),
{
    if params.len() == 0 {
        Seq::<u8>::empty()
    } else if params.len() == 1 {
        digits_of(params[0] as nat)
    } else {
        params_text(params.drop_last()) + text1(';') + digits_of(params.last() as nat)
    }
}

/// The canonical text of a sequence after the introducer, every parameter
/// written out.
pub open spec fn body(v: AnsiSequenceView) -> Seq<u8> {
    match v {
        AnsiSequenceView::CursorPos(row, col) => text1('[') + digits_of(row as nat) + text1(';')
            + digits_of(col as nat) + text1('H'),
        AnsiSequenceView::CursorUp(n) => text1('[') + digits_of(n as nat) + text1('A'),
        AnsiSequenceView::CursorDown(n) => text1('[') + digits_of(n as nat) + text1('B'),
        AnsiSequenceView::CursorForward(n) => text1('[') + digits_of(n as nat) + text1('C'),
        AnsiSequenceView::CursorBackward(n) => text1('[') + digits_of(n as nat) + text1('D'),
        AnsiSequenceView::SetGraphicsMode(params) => text1('[') + params_text(params) + text1(
            'm',
        ),
        AnsiSequenceView::SetMode(mode) => text2('[', '=') + digits_of(mode as nat) + text1('h'),
        AnsiSequenceView::ResetMode(mode) => text2('[', '=') + digits_of(mode as nat) + text1(
            'l',
        ),
        _ => fixed_text(v),
    }
}

/// A parameter as it may be written where 1 is the default: nothing for 1.
pub open spec fn digits_unless_one(n: u32) -> Seq<u8> {
    if n == 1 {
        Seq::<u8>::empty()
    } else {
        digits_of(n as nat)
    }
}

/// The shortest text of a sequence after the introducer: as [`body`], but
/// with every row, column and amount that is 1 left out, and the `;` of a
/// cursor position with it where the column is left out.
pub open spec fn short_body(v: AnsiSequenceView) -> Seq<u8> {
    match v {
        AnsiSequenceView::CursorPos(row, col) => text1('[') + digits_unless_one(row) + (if col
            == 1 {
            Seq::<u8>::empty()
        } else {
            text1(';') + digits_of(col as nat)
        }) + text1('H'),
        AnsiSequenceView::CursorUp(n) => text1('[') + digits_unless_one(n) + text1('A'),
        AnsiSequenceView::CursorDown(n) => text1('[') + digits_unless_one(n) + text1('B'),
        AnsiSequenceView::CursorForward(n) => text1('[') + digits_unless_one(n) + text1('C'),
        AnsiSequenceView::CursorBackward(n) => text1('[') + digits_unless_one(n) + text1('D'),
        _ => body(v),
    }
}

/// The canonical text of a sequence: the introducer and the body.
pub open spec fn render(v: AnsiSequenceView) -> Seq<u8> {
    seq![ESC] + body(v)
}

} // verus!
