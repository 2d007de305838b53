//! Writing a sequence out and reading it back gives the same sequence.

use vstd::prelude::*;
use crate::digits::{
    digit_run, digits_of, int_or_one_rule, int_rule, is_digit, lemma_digit_run, lemma_digit_run_is,
    lemma_digits_of, lemma_int_rule_reads_digits_of,
};
use crate::enums::AnsiSequenceView;
use crate::grammar::{
    amount_rule, body, byte_at, cursor_pos_rule, cursor_rules, escape_sequence_rule, fixed_rule,
    fixed_text, graphics_arity_rule, graphics_rule, int_list_rule, is_fixed, mode_rule,
    params_text, render, sequence_rule, short_body, starts_with, text1, text2,
};
use crate::render::lemma_fixed_text_ascii;

verus! {

/// `starts_with` for a text of at most five bytes, byte by byte.
pub open spec fn same_front(s: Seq<u8>, t: Seq<u8>) -> bool {
    &&& t.len() <= s.len()
    &&& (t.len() > 0 ==> s[0] == t[0])
    &&& (t.len() > 1 ==> s[1] == t[1])
    &&& (t.len() > 2 ==> s[2] == t[2])
    &&& (t.len() > 3 ==> s[3] == t[3])
    &&& (t.len() > 4 ==> s[4] == t[4])
}

/// For a text of at most five bytes, to begin with it is to have its bytes
/// at the first indices.
pub proof fn lemma_starts_with_short(s: Seq<u8>, t: Seq<u8>)
    requires
        t.len() <= 5,
    ensures
        starts_with(s, t) == same_front(s, t),
{
    if t.len() <= s.len() {
        let front = s.take(t.len() as int);
        if same_front(s, t) {
            assert(front =~= t);
        } else {
            let i = if t.len() > 0 && s[0] != t[0] {
                0int
            } else if t.len() > 1 && s[1] != t[1] {
                1int
            } else if t.len() > 2 && s[2] != t[2] {
                2int
            } else if t.len() > 3 && s[3] != t[3] {
                3int
            } else {
                4int
            };
            assert(front[i] == s[i]);
        }
    }
}

/// The byte after `[` and the digits that follow it decides which rules with
/// parameters can match: none of them does unless that byte is `;` or one
/// of their letters, or `=` stands right after `[`.
pub proof fn lemma_rules_with_parameters_fail(s: Seq<u8>)
    requires
        byte_at(s, 0, '[' as u8) ==> {
            let at = 1 + digit_run(s.skip(1));
            &&& at < s.len()
            &&& s[at as int] != ';' as u8
            &&& s[at as int] != 'H' as u8
            &&& s[at as int] != 'f' as u8
            &&& s[at as int] != 'A' as u8
            &&& s[at as int] != 'B' as u8
            &&& s[at as int] != 'C' as u8
            &&& s[at as int] != 'D' as u8
            &&& s[at as int] != 'm' as u8
            &&& s[at as int] != '=' as u8
        },
    ensures
        cursor_pos_rule(s) is None,
        forall|letter: u8|
            'A' as u8 <= letter <= 'D' as u8 ==> #[trigger] amount_rule(s, letter) is None,
        graphics_rule(s) is None,
        forall|letter: u8| #[trigger] mode_rule(s, letter) is None,
{
    if byte_at(s, 0, '[' as u8) {
        let t = s.skip(1);
        let d = digit_run(t) as int;
        lemma_digit_run(t);
        assert(t[d] == s[1 + d]);
        let after = s.skip(1 + d);
        assert(after[0] == s[1 + d]);
        assert(digit_run(after) == 0);
        reveal_with_fuel(int_list_rule, 3);
        if d > 0 {
            assert(t[0] == s[1]);
        }
    }
}

/// A sequence without parameters is read back from its text, whatever follows.
pub proof fn lemma_fixed_read_back(v: AnsiSequenceView, rest: Seq<u8>)
    requires
        is_fixed(v),
    ensures
        sequence_rule(fixed_text(v) + rest) == Some((v, fixed_text(v).len())),
{
    let s = fixed_text(v) + rest;
    assert forall|t: Seq<u8>| t.len() <= 5 implies #[trigger] starts_with(s, t) == same_front(
        s,
        t,
    ) by {
        lemma_starts_with_short(s, t);
    }
    assert(same_front(s, fixed_text(v)));
    if s[0] == '[' as u8 {
        let d: nat = match v {
            AnsiSequenceView::EraseDisplay => 1,
            AnsiSequenceView::SetNewLineMode => 2,
            AnsiSequenceView::SetLineFeedMode => 2,
            _ => 0,
        };
        let t = s.skip(1);
        assert(t[0] == s[1]);
        if d >= 1 {
            assert(t[1] == s[2]);
        }
        if d == 2 {
            assert(t[2] == s[3]);
        }
        lemma_digit_run_is(t, d);
    }
    lemma_rules_with_parameters_fail(s);
}

/// A number that stands after `open` and before a byte that is no digit is
/// read by the integer rule at that place, whole and unchanged.
pub proof fn lemma_number_between(open: Seq<u8>, n: u32, after: Seq<u8>)
    requires
        after.len() > 0,
        !is_digit(after[0]),
    ensures
        ({
            let d = digits_of(n as nat);
            let s = open + d + after;
            let t = s.skip(open.len() as int);
            &&& d.len() >= 1
            &&& t == d + after
            &&& digit_run(t) == d.len()
            &&& int_rule(t) == Some((n, d.len()))
            &&& int_or_one_rule(t) == Some((n, d.len()))
            &&& s[(open.len() + d.len()) as int] == after[0]
            &&& is_digit(s[open.len() as int])
        }),
{
    let d = digits_of(n as nat);
    let s = open + d + after;
    let t = s.skip(open.len() as int);
    lemma_digits_of(n as nat);
    assert(t =~= d + after);
    lemma_int_rule_reads_digits_of(n, after);
    assert(s[open.len() as int] == d[0]);
}

/// A cursor position is read back from its text, whatever follows.
pub proof fn lemma_cursor_pos_read_back(row: u32, col: u32, rest: Seq<u8>)
    ensures
        sequence_rule(body(AnsiSequenceView::CursorPos(row, col)) + rest) == Some(
            (
                AnsiSequenceView::CursorPos(row, col),
                body(AnsiSequenceView::CursorPos(row, col)).len(),
            ),
        ),
{
    let r = digits_of(row as nat);
    let c = digits_of(col as nat);
    let s = body(AnsiSequenceView::CursorPos(row, col)) + rest;
    let after_row = text1(';') + c + text1('H') + rest;
    let after_col = text1('H') + rest;
    let before_col = text1('[') + r + text1(';');
    assert(s =~= text1('[') + r + after_row);
    assert(s =~= before_col + c + after_col);
    lemma_number_between(text1('['), row, after_row);
    lemma_number_between(before_col, col, after_col);
    lemma_starts_with_short(s, fixed_text(AnsiSequenceView::Escape));
}

/// A cursor movement is read back from its text, whatever follows: the
/// rule of its own letter gives the amount, and no rule tried before it matches.
pub proof fn lemma_amount_read_back(n: u32, letter: u8, rest: Seq<u8>)
    requires
        'A' as u8 <= letter <= 'D' as u8,
    ensures
        ({
            let s = text1('[') + digits_of(n as nat) + seq![letter] + rest;
            &&& fixed_rule(s, AnsiSequenceView::Escape) is None
            &&& cursor_pos_rule(s) is None
            &&& amount_rule(s, letter) == Some((n, digits_of(n as nat).len() + 2))
            &&& forall|other: u8| other != letter ==> #[trigger] amount_rule(s, other) is None
        }),
{
    let d = digits_of(n as nat);
    let s = text1('[') + d + seq![letter] + rest;
    let after = seq![letter] + rest;
    assert(s =~= text1('[') + d + after);
    lemma_number_between(text1('['), n, after);
    let tail = s.skip(1 + d.len() as int);
    assert(tail[0] == letter);
    assert(digit_run(tail) == 0);
    lemma_starts_with_short(s, fixed_text(AnsiSequenceView::Escape));
}

/// Graphics parameters that were written out and are followed by anything
/// but a digit are read back by the list rule, all of them and unchanged.
pub proof fn lemma_int_list_reads_params(params: Seq<u32>, after: Seq<u8>)
    requires
        params.len() >= 1,
        after.len() > 0,
        !is_digit(after[0]),
    ensures
        int_list_rule(params_text(params) + after, params.len()) == Some(
            (params, params_text(params).len()),
        ),
        digit_run(params_text(params) + after) == digits_of(params[0] as nat).len(),
        params.len() > 1 ==> (params_text(params) + after)[digits_of(
            params[0] as nat,
        ).len() as int] == ';' as u8,
        params.len() == 1 ==> params_text(params).len() == digits_of(params[0] as nat).len(),
    decreases params.len(),
{
    let s = params_text(params) + after;
    let empty = Seq::<u8>::empty();
    if params.len() == 1 {
        lemma_number_between(empty, params[0], after);
        assert(s =~= empty + digits_of(params[0] as nat) + after);
        assert(s.skip(0) =~= s);
        assert(seq![params[0]] =~= params);
    } else {
        let head = params.drop_last();
        let last = digits_of(params.last() as nat);
        let inner = text1(';') + last + after;
        assert(s =~= params_text(head) + inner);
        lemma_int_list_reads_params(head, inner);
        let n = params_text(head).len();
        let open = params_text(head) + text1(';');
        assert(s =~= open + last + after);
        lemma_number_between(open, params.last(), after);
        assert(s[n as int] == ';' as u8);
        assert(head.push(params.last()) =~= params);
        assert(head[0] == params[0]);
        if head.len() == 1 {
            assert(s[digits_of(params[0] as nat).len() as int] == ';' as u8);
        }
    }
}

/// A text that begins with `[`, a number, and then `m`, or `;`, another
/// number and `;` or `m`, is no cursor sequence: neither the introducer rule
/// nor any of the cursor rules matches it.
pub proof fn lemma_list_is_no_cursor_sequence(s: Seq<u8>)
    requires
        byte_at(s, 0, '[' as u8),
        digit_run(s.skip(1)) >= 1,
        ({
            let p = 1 + digit_run(s.skip(1));
            let e = p + 1 + digit_run(s.skip(p + 1 as int));
            ||| byte_at(s, p, 'm' as u8)
            ||| (byte_at(s, p, ';' as u8) && (byte_at(s, e, ';' as u8) || byte_at(
                s,
                e,
                'm' as u8,
            )))
        }),
    ensures
        fixed_rule(s, AnsiSequenceView::Escape) is None,
        cursor_rules(s) is None,
{
    let t = s.skip(1);
    let p = 1 + digit_run(t);
    lemma_digit_run(t);
    assert(t[0] == s[1]);
    assert(is_digit(s[1]));
    if p > 2 {
        assert(t[1] == s[2]);
    }
    if byte_at(s, p, 'm' as u8) {
        let tail = s.skip(p as int);
        assert(tail[0] == s[p as int]);
        assert(digit_run(tail) == 0);
    }
    lemma_starts_with_short(s, fixed_text(AnsiSequenceView::Escape));
    lemma_starts_with_short(s, fixed_text(AnsiSequenceView::CursorSave));
    lemma_starts_with_short(s, fixed_text(AnsiSequenceView::CursorRestore));
    lemma_starts_with_short(s, fixed_text(AnsiSequenceView::EraseDisplay));
    lemma_starts_with_short(s, fixed_text(AnsiSequenceView::EraseLine));
}

/// A graphics mode with one to three parameters is read back from its text,
/// whatever follows.
pub proof fn lemma_graphics_read_back(params: Seq<u32>, rest: Seq<u8>)
    requires
        1 <= params.len() <= 3,
    ensures
        sequence_rule(body(AnsiSequenceView::SetGraphicsMode(params)) + rest) == Some(
            (
                AnsiSequenceView::SetGraphicsMode(params),
                body(AnsiSequenceView::SetGraphicsMode(params)).len(),
            ),
        ),
{
    let v = AnsiSequenceView::SetGraphicsMode(params);
    let s = body(v) + rest;
    lemma_graphics_matches(params, rest);
    lemma_graphics_is_no_cursor_sequence(params, rest);
}

/// The graphics rule of the right arity reads a graphics mode back from its
/// text.
pub proof fn lemma_graphics_arity_read_back(params: Seq<u32>, rest: Seq<u8>)
    requires
        1 <= params.len(),
    ensures
        graphics_arity_rule(
            body(AnsiSequenceView::SetGraphicsMode(params)) + rest,
            params.len(),
        ) == Some(
            (
                AnsiSequenceView::SetGraphicsMode(params),
                body(AnsiSequenceView::SetGraphicsMode(params)).len(),
            ),
        ),
{
    let v = AnsiSequenceView::SetGraphicsMode(params);
    let s = body(v) + rest;
    let after = text1('m') + rest;
    let t = params_text(params) + after;
    assert(s =~= text1('[') + params_text(params) + after);
    assert(s.skip(1) =~= t);
    lemma_int_list_reads_params(params, after);
    let n = params_text(params).len();
    assert(s[1 + n as int] == 'm' as u8);
}

/// The graphics rule reads a graphics mode back from its text.
proof fn lemma_graphics_matches(params: Seq<u32>, rest: Seq<u8>)
    requires
        1 <= params.len() <= 3,
    ensures
        graphics_rule(body(AnsiSequenceView::SetGraphicsMode(params)) + rest) == Some(
            (
                AnsiSequenceView::SetGraphicsMode(params),
                body(AnsiSequenceView::SetGraphicsMode(params)).len(),
            ),
        ),
{
    let v = AnsiSequenceView::SetGraphicsMode(params);
    let s = body(v) + rest;
    let after = text1('m') + rest;
    assert(s =~= text1('[') + params_text(params) + after);
    assert(s.skip(1) =~= params_text(params) + after);
    lemma_graphics_arity_read_back(params, rest);
    if params.len() >= 2 {
        lemma_lower_arity_fails(s, params, after, (params.len() - 1) as nat);
    }
    if params.len() == 3 {
        lemma_lower_arity_fails(s, params, after, 1);
    }
}

/// Where more parameters stand than a rule asks for, a `;` stands where the
/// rule wants `m`, and it does not match.
proof fn lemma_lower_arity_fails(s: Seq<u8>, params: Seq<u32>, after: Seq<u8>, k: nat)
    requires
        1 <= k < params.len(),
        after.len() > 0,
        !is_digit(after[0]),
        byte_at(s, 0, '[' as u8),
        s.skip(1) == params_text(params) + after,
    ensures
        graphics_arity_rule(s, k) is None,
    decreases params.len(),
{
    let t = s.skip(1);
    let head = params.drop_last();
    let inner = text1(';') + digits_of(params.last() as nat) + after;
    assert(t =~= params_text(head) + inner);
    if k == head.len() {
        lemma_int_list_reads_params(head, inner);
        let n = params_text(head).len();
        assert(t[n as int] == ';' as u8);
        assert(s[1 + n as int] == t[n as int]);
    } else {
        lemma_lower_arity_fails(s, head, inner, k);
    }
}

/// Neither the introducer rule nor a cursor rule matches the text of a
/// graphics mode.
proof fn lemma_graphics_is_no_cursor_sequence(params: Seq<u32>, rest: Seq<u8>)
    requires
        1 <= params.len() <= 3,
    ensures
        fixed_rule(
            body(AnsiSequenceView::SetGraphicsMode(params)) + rest,
            AnsiSequenceView::Escape,
        ) is None,
        cursor_rules(body(AnsiSequenceView::SetGraphicsMode(params)) + rest) is None,
{
    let v = AnsiSequenceView::SetGraphicsMode(params);
    let s = body(v) + rest;
    let after = text1('m') + rest;
    let t = params_text(params) + after;
    assert(s =~= text1('[') + params_text(params) + after);
    assert(s.skip(1) =~= t);
    lemma_int_list_reads_params(params, after);
    let d0 = digits_of(params[0] as nat);
    lemma_digits_of(params[0] as nat);
    lemma_digit_run(t);
    assert(t[params_text(params).len() as int] == after[0]);
    let p = 1 + d0.len();
    assert(s[p as int] == t[d0.len() as int]);
    if params.len() == 1 {
    } else {
        let second = digits_of(params[1] as nat);
        let open = text1('[') + d0 + text1(';');
        let close = if params.len() == 2 {
            after
        } else {
            text1(';') + digits_of(params[2] as nat) + after
        };
        assert(s =~= text1('[') + t);
        assert(t =~= d0 + text1(';') + second + close) by {
            reveal_with_fuel(params_text, 3);
            if params.len() == 2 {
                assert(params.drop_last()[0] == params[0]);
            } else {
                assert(params.drop_last().drop_last()[0] == params[0]);
                assert(params.drop_last().last() == params[1]);
            }
        }
        assert(s =~= open + second + close);
        lemma_number_between(open, params[1], close);
    }
    lemma_list_is_no_cursor_sequence(s);
}

/// A set mode or reset mode is read back from its text, whatever follows:
/// the rule of its own letter gives the mode, and no rule tried before the
/// mode rules matches.
pub proof fn lemma_mode_read_back(mode: u8, letter: u8, rest: Seq<u8>)
    requires
        letter == 'h' as u8 || letter == 'l' as u8,
    ensures
        ({
            let s = text2('[', '=') + digits_of(mode as nat) + seq![letter] + rest;
            &&& fixed_rule(s, AnsiSequenceView::Escape) is None
            &&& cursor_rules(s) is None
            &&& graphics_rule(s) is None
            &&& mode_rule(s, letter) == Some((mode, digits_of(mode as nat).len() + 3))
            &&& forall|other: u8| other != letter ==> #[trigger] mode_rule(s, other) is None
        }),
{
    let d = digits_of(mode as nat);
    let s = text2('[', '=') + d + seq![letter] + rest;
    let after = seq![letter] + rest;
    assert(s =~= text2('[', '=') + d + after);
    lemma_number_between(text2('[', '='), mode as u32, after);
    let t = s.skip(1);
    assert(t[0] == '=' as u8);
    assert(digit_run(t) == 0);
    reveal_with_fuel(int_list_rule, 3);
    assert forall|w: AnsiSequenceView| is_fixed(w) implies #[trigger] fixed_rule(s, w) is None by {
        lemma_fixed_text_ascii(w);
        lemma_starts_with_short(s, fixed_text(w));
    }
}

/// Reading back: the text of a well-formed sequence after the introducer,
/// followed by anything, is matched by the dispatch as that sequence and over
/// exactly that text.
pub proof fn lemma_sequence_read_back(v: AnsiSequenceView, rest: Seq<u8>)
    requires
        v.wf(),
    ensures
        sequence_rule(body(v) + rest) == Some((v, body(v).len())),
{
    match v {
        AnsiSequenceView::CursorPos(row, col) => {
            lemma_cursor_pos_read_back(row, col, rest);
        },
        AnsiSequenceView::CursorUp(n) => {
            lemma_amount_read_back(n, 'A' as u8, rest);
        },
        AnsiSequenceView::CursorDown(n) => {
            lemma_amount_read_back(n, 'B' as u8, rest);
        },
        AnsiSequenceView::CursorForward(n) => {
            lemma_amount_read_back(n, 'C' as u8, rest);
        },
        AnsiSequenceView::CursorBackward(n) => {
            lemma_amount_read_back(n, 'D' as u8, rest);
        },
        AnsiSequenceView::SetGraphicsMode(params) => {
            lemma_graphics_read_back(params, rest);
        },
        AnsiSequenceView::SetMode(mode) => {
            lemma_mode_read_back(mode, 'h' as u8, rest);
        },
        AnsiSequenceView::ResetMode(mode) => {
            lemma_mode_read_back(mode, 'l' as u8, rest);
        },
        _ => {
            lemma_fixed_read_back(v, rest);
        },
    }
}

/// Reading back a whole sequence: the canonical text of a well-formed
/// sequence, followed by anything, parses as that sequence and over exactly
/// that text.
pub proof fn lemma_render_read_back(v: AnsiSequenceView, rest: Seq<u8>)
    requires
        v.wf(),
    ensures
        escape_sequence_rule(render(v) + rest) == Some((v, render(v).len())),
{
    let s = render(v) + rest;
    assert(s.skip(1) =~= body(v) + rest);
    lemma_sequence_read_back(v, rest);
}

/// A cursor movement whose amount is left out is read as a movement by 1.
proof fn lemma_amount_left_out(letter: u8, rest: Seq<u8>)
    requires
        'A' as u8 <= letter <= 'D' as u8,
    ensures
        ({
            let s = text1('[') + seq![letter] + rest;
            &&& fixed_rule(s, AnsiSequenceView::Escape) is None
            &&& cursor_pos_rule(s) is None
            &&& amount_rule(s, letter) == Some((1u32, 2nat))
            &&& forall|other: u8| other != letter ==> #[trigger] amount_rule(s, other) is None
        }),
{
    let s = text1('[') + seq![letter] + rest;
    let t = s.skip(1);
    assert(t[0] == letter);
    assert(digit_run(t) == 0);
    lemma_starts_with_short(s, fixed_text(AnsiSequenceView::Escape));
}

/// A cursor position whose row or column is left out is read with 1 in
/// its place.
proof fn lemma_cursor_pos_left_out(row: u32, col: u32, rest: Seq<u8>)
    requires
        row == 1 || col == 1,
    ensures
        sequence_rule(short_body(AnsiSequenceView::CursorPos(row, col)) + rest) == Some(
            (
                AnsiSequenceView::CursorPos(row, col),
                short_body(AnsiSequenceView::CursorPos(row, col)).len(),
            ),
        ),
{
    let v = AnsiSequenceView::CursorPos(row, col);
    let s = short_body(v) + rest;
    let close = text1('H') + rest;
    lemma_starts_with_short(s, fixed_text(AnsiSequenceView::Escape));
    if row == 1 && col == 1 {
        assert(s =~= text1('[') + close);
        let t = s.skip(1);
        assert(t[0] == 'H' as u8);
        assert(digit_run(t) == 0);
    } else if col == 1 {
        assert(s =~= text1('[') + digits_of(row as nat) + close);
        lemma_number_between(text1('['), row, close);
        let at = 1 + digits_of(row as nat).len();
        let t = s.skip(at as int);
        assert(t[0] == 'H' as u8);
        assert(digit_run(t) == 0);
    } else {
        let open = text1('[') + text1(';');
        assert(s =~= open + digits_of(col as nat) + close);
        lemma_number_between(open, col, close);
        let t = s.skip(1);
        assert(t[0] == ';' as u8);
        assert(digit_run(t) == 0);
    }
}

/// A cursor movement by 1 is read back from the text that leaves the
/// amount out.
proof fn lemma_move_left_out(v: AnsiSequenceView, rest: Seq<u8>)
    requires
        v == AnsiSequenceView::CursorUp(1) || v == AnsiSequenceView::CursorDown(1) || v
            == AnsiSequenceView::CursorForward(1) || v == AnsiSequenceView::CursorBackward(1),
    ensures
        sequence_rule(short_body(v) + rest) == Some((v, short_body(v).len())),
{
    let letter = match v {
        AnsiSequenceView::CursorUp(_) => 'A' as u8,
        AnsiSequenceView::CursorDown(_) => 'B' as u8,
        AnsiSequenceView::CursorForward(_) => 'C' as u8,
        _ => 'D' as u8,
    };
    lemma_amount_left_out(letter, rest);
    assert(short_body(v) + rest =~= text1('[') + seq![letter] + rest);
    assert(short_body(v).len() == 2);
}

/// A parameter that is left out reads as 1: the shortest text of a
/// well-formed sequence, followed by anything, is matched by the dispatch as
/// that sequence, just as its canonical text is.
pub proof fn lemma_left_out_reads_as_one(v: AnsiSequenceView, rest: Seq<u8>)
    requires
        v.wf(),
    ensures
        sequence_rule(short_body(v) + rest) == Some((v, short_body(v).len())),
{
    let is_short = match v {
        AnsiSequenceView::CursorPos(row, col) => row == 1 || col == 1,
        AnsiSequenceView::CursorUp(n) => n == 1,
        AnsiSequenceView::CursorDown(n) => n == 1,
        AnsiSequenceView::CursorForward(n) => n == 1,
        AnsiSequenceView::CursorBackward(n) => n == 1,
        _ => false,
    };
    if !is_short {
        assert(short_body(v) =~= body(v));
        lemma_sequence_read_back(v, rest);
    } else if let AnsiSequenceView::CursorPos(row, col) = v {
        lemma_cursor_pos_left_out(row, col, rest);
    } else {
        lemma_move_left_out(v, rest);
    }
}

} // verus!
