//! How the bytes of a match are laid out, and what follows from it: no match
//! is the beginning of a longer one, so that a sequence parses alike
//! whatever stands after it.

use vstd::prelude::*;
use crate::digits::{digit_run, is_digit, lemma_digit_run};
use crate::enums::{AnsiSequenceView, ESC};
use crate::grammar::{
    amount_rule, charset_rules, cursor_pos_rule, cursor_rules, escape_sequence_rule, fixed_rule,
    fixed_text, graphics_arity_rule, graphics_rule, int_list_rule, is_fixed, mode_rule,
    reset_mode_rule, reset_rules, sequence_rule, set_mode_rule, set_rules, RuleResult,
};
use crate::local::{lemma_same_first, lemma_sequence_rule_on_front, same_first};
use crate::render::lemma_fixed_text_ascii;
use crate::roundtrip::lemma_starts_with_short;
use crate::shape::{lemma_escape_sequence_rule_shape, lemma_sequence_rule_shape};

verus! {

/// The bytes that may stand between `[` and the last byte of a sequence:
/// digits, `;`, `?` and `=`.
pub open spec fn is_middle(c: u8) -> bool {
    is_digit(c) || c == ';' as u8 || c == '?' as u8 || c == '=' as u8
}

/// The letters on which a sequence that begins with `[` ends.
pub open spec fn is_final(c: u8) -> bool {
    c == 'H' as u8 || c == 'f' as u8 || c == 'A' as u8 || c == 'B' as u8 || c == 'C' as u8 || c
        == 'D' as u8 || c == 'm' as u8 || c == 'h' as u8 || c == 'l' as u8 || c == 's' as u8 || c
        == 'u' as u8 || c == 'J' as u8 || c == 'K' as u8
}

/// Whether only middle bytes stand after the first byte of `a` and before
/// index `m - 1`.
pub open spec fn middle_upto(a: Seq<u8>, m: nat) -> bool {
    forall|i: int| 1 <= i < m - 1 ==> is_middle(#[trigger] a[i])
}

/// The three layouts of a match of `m` bytes: a single byte; `(` or `)` and
/// the name of a character set; or `[`, middle bytes, and a final letter.
pub open spec fn laid_out(a: Seq<u8>, r: RuleResult) -> bool {
    r matches Some((_, m)) ==> {
        ||| m == 1 && (a[0] == ESC || a[0] == '=' as u8 || a[0] == '>' as u8 || a[0] == 'N' as u8
            || a[0] == 'O' as u8)
        ||| m == 2 && (a[0] == '(' as u8 || a[0] == ')' as u8) && (a[1] == 'A' as u8 || a[1]
            == 'B' as u8 || a[1] == '0' as u8 || a[1] == '1' as u8 || a[1] == '2' as u8)
        ||| m >= 2 && a[0] == '[' as u8 && middle_upto(a, m) && is_final(a[m - 1])
    }
}

/// As the third layout, for a rule that gives a number and is closed by a
/// letter of the caller's choice.
pub open spec fn number_laid_out(a: Seq<u8>, r: Option<(u32, nat)>) -> bool {
    r matches Some((_, m)) ==> m >= 2 && a[0] == '[' as u8 && middle_upto(a, m)
}

/// As [`number_laid_out`], for a mode.
pub open spec fn mode_laid_out(a: Seq<u8>, r: Option<(u8, nat)>) -> bool {
    r matches Some((_, m)) ==> m >= 2 && a[0] == '[' as u8 && middle_upto(a, m)
}

/// A list of integers holds digits and `;` only.
proof fn lemma_int_list_bytes(a: Seq<u8>, k: nat)
    ensures
        int_list_rule(a, k) matches Some((_, n)) ==> n <= a.len() && forall|i: int|
            0 <= i < n ==> is_middle(#[trigger] a[i]),
    decreases k,
{
    if k == 1 {
        lemma_digit_run(a);
    } else if k > 1 {
        lemma_int_list_bytes(a, (k - 1) as nat);
        if let Some((_, n)) = int_list_rule(a, (k - 1) as nat) {
            let t = a.skip(n + 1 as int);
            lemma_digit_run(t);
            if let Some((_, total)) = int_list_rule(a, k) {
                assert forall|i: int| 0 <= i < total implies is_middle(#[trigger] a[i]) by {
                    if i > n {
                        assert(a[i] == t[i - n - 1]);
                    }
                }
            }
        }
    }
}

/// The matches of the rules with parameters are laid out in the third way.
proof fn lemma_rules_with_parameters_layout(a: Seq<u8>)
    ensures
        laid_out(a, cursor_pos_rule(a)),
        forall|letter: u8| number_laid_out(a, #[trigger] amount_rule(a, letter)),
        forall|k: nat| laid_out(a, #[trigger] graphics_arity_rule(a, k)),
        forall|letter: u8| mode_laid_out(a, #[trigger] mode_rule(a, letter)),
{
    if a.len() >= 1 {
        let t = a.skip(1);
        lemma_digit_run(t);
        let d = digit_run(t) as int;
        assert forall|i: int| 1 <= i < 1 + d implies is_digit(#[trigger] a[i]) by {
            assert(a[i] == t[i - 1]);
        }
        if let Some((_, m)) = cursor_pos_rule(a) {
            let q = if a[1 + d] == ';' as u8 {
                2 + d
            } else {
                1 + d
            };
            let u = a.skip(q);
            lemma_digit_run(u);
            assert forall|i: int| 1 <= i < m - 1 implies is_middle(#[trigger] a[i]) by {
                if q <= i {
                    assert(a[i] == u[i - q]);
                }
            }
        }
        assert forall|k: nat| laid_out(a, #[trigger] graphics_arity_rule(a, k)) by {
            lemma_int_list_bytes(t, k);
            if let Some((_, m)) = graphics_arity_rule(a, k) {
                assert forall|i: int| 1 <= i < m - 1 implies is_middle(#[trigger] a[i]) by {
                    assert(a[i] == t[i - 1]);
                }
            }
        }
    }
    if a.len() >= 2 {
        let w = a.skip(2);
        lemma_digit_run(w);
        assert forall|letter: u8| mode_laid_out(a, #[trigger] mode_rule(a, letter)) by {
            if let Some((_, m)) = mode_rule(a, letter) {
                assert forall|i: int| 1 <= i < m - 1 implies is_middle(#[trigger] a[i]) by {
                    if i >= 2 {
                        assert(a[i] == w[i - 2]);
                    }
                }
            }
        }
    }
}

/// The match of every sequence without parameters is laid out in one of the
/// three ways.
proof fn lemma_fixed_layout(a: Seq<u8>)
    ensures
        forall|w: AnsiSequenceView| laid_out(a, #[trigger] fixed_rule(a, w)),
{
    assert forall|w: AnsiSequenceView| laid_out(a, #[trigger] fixed_rule(a, w)) by {
        if is_fixed(w) {
            lemma_fixed_text_ascii(w);
            lemma_starts_with_short(a, fixed_text(w));
            if let Some((_, m)) = fixed_rule(a, w) {
                if a[0] == '[' as u8 {
                    assert forall|i: int| 1 <= i < m - 1 implies is_middle(#[trigger] a[i]) by {
                        if i == 1 {
                        } else if i == 2 {
                        } else {
                        }
                    }
                }
            }
        }
    }
}

/// Every match of the dispatch is laid out in one of the three ways.
pub proof fn lemma_sequence_rule_layout(a: Seq<u8>)
    ensures
        laid_out(a, sequence_rule(a)),
{
    lemma_fixed_layout(a);
    lemma_rules_with_parameters_layout(a);
    assert(laid_out(a, cursor_rules(a)));
    assert(laid_out(a, graphics_rule(a)));
    assert(laid_out(a, set_mode_rule(a)));
    assert(laid_out(a, reset_mode_rule(a)));
    assert(laid_out(a, set_rules(a)));
    assert(laid_out(a, reset_rules(a)));
    assert(laid_out(a, charset_rules(a)));
}

/// What the dispatch matches holds the introducer at most as its first byte.
pub proof fn lemma_sequence_rule_takes_no_introducer(a: Seq<u8>)
    ensures
        sequence_rule(a) matches Some((_, m)) ==> forall|i: int| 1 <= i < m ==> a[i] != ESC,
{
    lemma_sequence_rule_layout(a);
}

/// No match is the beginning of a longer one: where two texts begin with
/// the same bytes and the dispatch matches exactly these bytes in one of
/// them, it does not match more in the other.
pub proof fn lemma_no_match_extends(a: Seq<u8>, b: Seq<u8>)
    requires
        sequence_rule(a) matches Some((_, k)) && same_first(a, b, k),
    ensures
        sequence_rule(b) matches Some((_, j)) ==> j <= sequence_rule(a).unwrap().1,
{
    let k = sequence_rule(a).unwrap().1;
    lemma_sequence_rule_layout(a);
    lemma_sequence_rule_layout(b);
    lemma_sequence_rule_shape(a);
    lemma_same_first(a, b, k);
    if let Some((_, j)) = sequence_rule(b) {
        if j > k {
            assert(a[0] == b[0]);
            assert(a[k - 1] == b[k - 1]);
            if k >= 2 && b[0] == '[' as u8 {
                assert(is_middle(b[k - 1]));
            }
        }
    }
}

/// A sequence parses alike whatever stands after it: where the dispatch
/// matches the first `k` bytes of a text, it matches the same in every text
/// that begins with these bytes.
pub proof fn lemma_sequence_rule_whatever_follows(a: Seq<u8>, b: Seq<u8>)
    requires
        sequence_rule(a) matches Some((_, k)) && same_first(a, b, k),
    ensures
        sequence_rule(b) == sequence_rule(a),
{
    let k = sequence_rule(a).unwrap().1;
    lemma_sequence_rule_on_front(a, k);
    lemma_sequence_rule_on_front(b, k);
    lemma_no_match_extends(a, b);
}

/// A whole escape sequence parses alike whatever stands after it.
pub proof fn lemma_escape_sequence_rule_whatever_follows(s: Seq<u8>, t: Seq<u8>)
    requires
        escape_sequence_rule(s) matches Some((_, n)) && same_first(s, t, n),
    ensures
        escape_sequence_rule(t) == escape_sequence_rule(s),
{
    let n = escape_sequence_rule(s).unwrap().1;
    lemma_escape_sequence_rule_shape(s);
    lemma_same_first(s, t, n);
    assert(same_first(s.skip(1), t.skip(1), (n - 1) as nat));
    lemma_sequence_rule_whatever_follows(s.skip(1), t.skip(1));
}

} // verus!
