//! A match depends only on the bytes that it takes: what follows them does
//! not change it.

use vstd::prelude::*;
use crate::digits::{digit_run, int_or_one_rule, int_rule, lemma_digit_run, lemma_digit_run_is};
use crate::enums::AnsiSequenceView;
use crate::grammar::{
    amount_rule, byte_at, charset_rules, cursor_pos_rule, cursor_rules, escape_sequence_rule,
    fixed_rule, graphics_arity_rule, graphics_rule, int_list_rule, mode_rule, reset_mode_rule,
    reset_rules, sequence_rule, set_mode_rule, set_rules, RuleResult,
};
use crate::shape::lemma_sequence_rule_shape;

verus! {

/// Whether `a` and `b` both have at least `k` bytes and the same first `k`.
pub open spec fn same_first(a: Seq<u8>, b: Seq<u8>, k: nat) -> bool {
    k <= a.len() && k <= b.len() && a.take(k as int) == b.take(k as int)
}

/// Whether a match on `a` that fits into `b` is also the match on `b`.
pub open spec fn carries_over(on_a: RuleResult, on_b: RuleResult, a: Seq<u8>, b: Seq<u8>) -> bool {
    on_a matches Some((_, n)) ==> same_first(a, b, n) ==> on_b == on_a
}

/// Texts with the same first `k` bytes have the same byte at every index
/// below `k`, and the same first bytes after skipping some of them.
pub proof fn lemma_same_first(a: Seq<u8>, b: Seq<u8>, k: nat)
    requires
        same_first(a, b, k),
    ensures
        forall|i: int| 0 <= i < k ==> a[i] == b[i],
        forall|i: nat|
            i <= k ==> #[trigger] same_first(a.skip(i as int), b.skip(i as int), (k - i) as nat),
        forall|i: nat| i <= k ==> #[trigger] same_first(a, b, i),
{
    assert forall|i: int| 0 <= i < k implies a[i] == b[i] by {
        assert(a.take(k as int)[i] == a[i]);
        assert(b.take(k as int)[i] == b[i]);
    }
    assert forall|i: nat| i <= k implies #[trigger] same_first(
        a.skip(i as int),
        b.skip(i as int),
        (k - i) as nat,
    ) by {
        assert(a.skip(i as int).take(k - i) =~= b.skip(i as int).take(k - i));
    }
    assert forall|i: nat| i <= k implies #[trigger] same_first(a, b, i) by {
        assert(a.take(i as int) =~= b.take(i as int));
    }
}

/// A digit run that ends before index `k` is the same in every text with the
/// same first `k` bytes, and so is the integer that it spells.
pub proof fn lemma_int_rule_local(a: Seq<u8>, b: Seq<u8>, k: nat)
    requires
        same_first(a, b, k),
        digit_run(a) < k,
    ensures
        digit_run(b) == digit_run(a),
        int_rule(b) == int_rule(a),
        int_or_one_rule(b) == int_or_one_rule(a),
{
    let d = digit_run(a);
    lemma_digit_run(a);
    lemma_same_first(a, b, k);
    lemma_digit_run_is(b, d);
    assert(a.take(d as int) =~= b.take(d as int));
}

/// Cursor position depends only on the bytes it takes.
pub proof fn lemma_cursor_pos_local(a: Seq<u8>, b: Seq<u8>)
    ensures
        carries_over(cursor_pos_rule(a), cursor_pos_rule(b), a, b),
{
    if let Some((_, n)) = cursor_pos_rule(a) {
        if same_first(a, b, n) {
            lemma_same_first(a, b, n);
            lemma_digit_run(a.skip(1));
            let p = match int_or_one_rule(a.skip(1)) {
                Some((_, taken)) => 1 + taken,
                None => 0,
            };
            let q = if byte_at(a, p, ';' as u8) {
                p + 1
            } else {
                p
            };
            lemma_digit_run(a.skip(q as int));
            assert(same_first(a.skip(1), b.skip(1), (n - 1) as nat));
            lemma_int_rule_local(a.skip(1), b.skip(1), (n - 1) as nat);
            assert(same_first(a.skip(q as int), b.skip(q as int), (n - q) as nat));
            lemma_int_rule_local(a.skip(q as int), b.skip(q as int), (n - q) as nat);
        }
    }
}

/// A cursor movement depends only on the bytes it takes.
pub proof fn lemma_amount_local(a: Seq<u8>, b: Seq<u8>, letter: u8)
    ensures
        amount_rule(a, letter) matches Some((_, n)) ==> same_first(a, b, n) ==> amount_rule(
            b,
            letter,
        ) == amount_rule(a, letter),
{
    if let Some((_, n)) = amount_rule(a, letter) {
        if same_first(a, b, n) {
            lemma_same_first(a, b, n);
            lemma_digit_run(a.skip(1));
            assert(same_first(a.skip(1), b.skip(1), (n - 1) as nat));
            lemma_int_rule_local(a.skip(1), b.skip(1), (n - 1) as nat);
        }
    }
}

/// A list of integers depends only on the bytes it takes and the one after
/// them.
pub proof fn lemma_int_list_local(a: Seq<u8>, b: Seq<u8>, k: nat, upto: nat)
    requires
        same_first(a, b, upto),
    ensures
        int_list_rule(a, k) matches Some((_, n)) ==> n < upto ==> int_list_rule(b, k)
            == int_list_rule(a, k),
        int_list_rule(a, k) matches Some((_, n)) ==> 1 <= n <= a.len(),
    decreases k,
{
    lemma_same_first(a, b, upto);
    if k == 1 {
        lemma_digit_run(a);
        if digit_run(a) < upto {
            lemma_int_rule_local(a, b, upto);
        }
    } else if k > 1 {
        lemma_int_list_local(a, b, (k - 1) as nat, upto);
        if let Some((_, n)) = int_list_rule(a, (k - 1) as nat) {
            let at = n + 1;
            lemma_digit_run(a.skip(at as int));
            if let Some((_, total)) = int_list_rule(a, k) {
                if total < upto {
                    assert(same_first(a.skip(at as int), b.skip(at as int), (upto - at) as nat));
                    lemma_int_rule_local(a.skip(at as int), b.skip(at as int), (upto - at) as nat);
                }
            }
        }
    }
}

/// Graphics mode depends only on the bytes it takes.
pub proof fn lemma_graphics_arity_local(a: Seq<u8>, b: Seq<u8>, k: nat)
    ensures
        carries_over(graphics_arity_rule(a, k), graphics_arity_rule(b, k), a, b),
{
    if let Some((_, n)) = graphics_arity_rule(a, k) {
        if same_first(a, b, n) {
            lemma_same_first(a, b, n);
            assert(same_first(a.skip(1), b.skip(1), (n - 1) as nat));
            lemma_int_list_local(a.skip(1), b.skip(1), k, (n - 1) as nat);
        }
    }
}

/// Set mode and reset mode depend only on the bytes they take.
pub proof fn lemma_mode_local(a: Seq<u8>, b: Seq<u8>, letter: u8)
    ensures
        mode_rule(a, letter) matches Some((_, n)) ==> same_first(a, b, n) ==> mode_rule(b, letter)
            == mode_rule(a, letter),
{
    if let Some((_, n)) = mode_rule(a, letter) {
        if same_first(a, b, n) {
            lemma_same_first(a, b, n);
            lemma_digit_run(a.skip(2));
            assert(same_first(a.skip(2), b.skip(2), (n - 2) as nat));
            lemma_int_rule_local(a.skip(2), b.skip(2), (n - 2) as nat);
        }
    }
}

/// A sequence without parameters depends only on the bytes it takes.
pub proof fn lemma_fixed_local(a: Seq<u8>, b: Seq<u8>, v: AnsiSequenceView)
    ensures
        carries_over(fixed_rule(a, v), fixed_rule(b, v), a, b),
{
}

/// Whether a match on a text is the match on its first `m` bytes, unless it
/// takes more than `m` bytes.
pub open spec fn same_or_longer(on_whole: RuleResult, on_front: RuleResult, m: nat) -> bool {
    (on_whole matches Some((_, n)) && n > m) || on_whole == on_front
}

/// A rule that carries over in both directions gives, on the first `m` bytes,
/// what it gives on the whole text, unless it takes more than `m` bytes there.
proof fn lemma_same_or_longer(
    on_whole: RuleResult,
    on_front: RuleResult,
    a: Seq<u8>,
    b: Seq<u8>,
    m: nat,
)
    requires
        same_first(a, b, m),
        b.len() == m,
        on_front matches Some((_, n)) ==> n <= m,
        carries_over(on_whole, on_front, a, b),
        carries_over(on_front, on_whole, b, a),
    ensures
        same_or_longer(on_whole, on_front, m),
{
    lemma_same_first(a, b, m);
    lemma_same_first(b, a, m);
}

/// Every sequence without parameters is matched alike on a text and on its
/// first `m` bytes.
proof fn lemma_fixed_same_or_longer(a: Seq<u8>, b: Seq<u8>, m: nat)
    requires
        same_first(a, b, m),
        b.len() == m,
    ensures
        forall|w: AnsiSequenceView|
            same_or_longer(#[trigger] fixed_rule(a, w), fixed_rule(b, w), m),
{
    assert forall|w: AnsiSequenceView|
        same_or_longer(#[trigger] fixed_rule(a, w), fixed_rule(b, w), m) by {
        lemma_fixed_local(a, b, w);
        lemma_fixed_local(b, a, w);
        lemma_same_or_longer(fixed_rule(a, w), fixed_rule(b, w), a, b, m);
    }
}

/// The cursor rules match alike on a text and on its first `m` bytes.
proof fn lemma_cursor_rules_same_or_longer(a: Seq<u8>, b: Seq<u8>, m: nat)
    requires
        same_first(a, b, m),
        b.len() == m,
    ensures
        same_or_longer(cursor_rules(a), cursor_rules(b), m),
{
    lemma_fixed_same_or_longer(a, b, m);
    lemma_cursor_pos_local(a, b);
    lemma_cursor_pos_local(b, a);
    lemma_same_or_longer(cursor_pos_rule(a), cursor_pos_rule(b), a, b, m);
    assert forall|letter: u8|
        (amount_rule(a, letter) matches Some((_, n)) && n > m) || #[trigger] amount_rule(a, letter)
            == amount_rule(b, letter) by {
        lemma_amount_local(a, b, letter);
        lemma_amount_local(b, a, letter);
        lemma_same_first(a, b, m);
        lemma_same_first(b, a, m);
    }
}

/// The graphics rule matches alike on a text and on its first `m` bytes.
proof fn lemma_graphics_same_or_longer(a: Seq<u8>, b: Seq<u8>, m: nat)
    requires
        same_first(a, b, m),
        b.len() == m,
    ensures
        same_or_longer(graphics_rule(a), graphics_rule(b), m),
{
    assert forall|k: nat|
        same_or_longer(#[trigger] graphics_arity_rule(a, k), graphics_arity_rule(b, k), m) by {
        lemma_graphics_arity_local(a, b, k);
        lemma_graphics_arity_local(b, a, k);
        lemma_same_or_longer(graphics_arity_rule(a, k), graphics_arity_rule(b, k), a, b, m);
    }
}

/// The mode rules match alike on a text and on its first `m` bytes.
proof fn lemma_mode_same_or_longer(a: Seq<u8>, b: Seq<u8>, m: nat)
    requires
        same_first(a, b, m),
        b.len() == m,
    ensures
        same_or_longer(set_mode_rule(a), set_mode_rule(b), m),
        same_or_longer(reset_mode_rule(a), reset_mode_rule(b), m),
{
    lemma_same_first(a, b, m);
    lemma_same_first(b, a, m);
    lemma_mode_local(a, b, 'h' as u8);
    lemma_mode_local(b, a, 'h' as u8);
    lemma_mode_local(a, b, 'l' as u8);
    lemma_mode_local(b, a, 'l' as u8);
}

/// The rules of the fixed sequences match alike on a text and on its first
/// `m` bytes.
proof fn lemma_fixed_groups_same_or_longer(a: Seq<u8>, b: Seq<u8>, m: nat)
    requires
        same_first(a, b, m),
        b.len() == m,
    ensures
        same_or_longer(set_rules(a), set_rules(b), m),
        same_or_longer(reset_rules(a), reset_rules(b), m),
        same_or_longer(charset_rules(a), charset_rules(b), m),
{
    lemma_fixed_same_or_longer(a, b, m);
}

/// The dispatch gives, on the first `m` bytes of a text, what it gives on
/// the whole text, unless its match there takes more than `m` bytes.
pub proof fn lemma_sequence_rule_on_front(a: Seq<u8>, m: nat)
    requires
        m <= a.len(),
    ensures
        same_or_longer(sequence_rule(a), sequence_rule(a.take(m as int)), m),
{
    let b = a.take(m as int);
    assert(b.take(m as int) =~= b);
    assert(same_first(a, b, m));
    lemma_fixed_same_or_longer(a, b, m);
    lemma_cursor_rules_same_or_longer(a, b, m);
    lemma_graphics_same_or_longer(a, b, m);
    lemma_mode_same_or_longer(a, b, m);
    lemma_fixed_groups_same_or_longer(a, b, m);
}

/// The parser of a whole escape sequence gives, on the first `m` bytes of a
/// text, what it gives on the whole text, unless its match there takes more
/// than `m` bytes. So what does not parse does not parse when it is cut
/// short, and a match that lies within the first `m` bytes is the match on
/// these bytes alone.
pub proof fn lemma_escape_sequence_rule_on_front(s: Seq<u8>, m: nat)
    requires
        m <= s.len(),
    ensures
        same_or_longer(escape_sequence_rule(s), escape_sequence_rule(s.take(m as int)), m),
{
    lemma_sequence_rule_shape(s.skip(1));
    if m >= 1 {
        let a = s.skip(1);
        lemma_sequence_rule_on_front(a, (m - 1) as nat);
        assert(s.take(m as int).skip(1) =~= a.take(m - 1));
        assert(s.take(m as int)[0] == s[0]);
    }
}

/// What parses as an escape sequence, parses as the same sequence when it
/// stands alone: the bytes that a match takes are a text of that sequence.
pub proof fn lemma_escape_sequence_rule_local(s: Seq<u8>)
    ensures
        escape_sequence_rule(s) matches Some((v, n)) ==> escape_sequence_rule(s.take(n as int))
            == Some((v, n)),
{
    if let Some((v, n)) = escape_sequence_rule(s) {
        lemma_sequence_rule_shape(s.skip(1));
        lemma_escape_sequence_rule_on_front(s, n);
    }
}

} // verus!
