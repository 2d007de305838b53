//! Decimal numbers as they stand inside an escape sequence: recognising a run
//! of digits, reading its value, and writing a value back as digits.

use vstd::prelude::*;

verus! {

/// The bytes `0` to `9`.
pub open spec fn is_digit(b: u8) -> bool {
    0x30 <= b <= 0x39
}

/// How many digits stand at the front of `s` before the first other byte, or
/// before the end.
pub open spec fn digit_run(s: Seq<u8>) -> nat
    decreases s.len(),
{
    if s.len() > 0 && is_digit(s[0]) {
        1 + digit_run(s.drop_first())
    } else {
        0
    }
}

/// What one digit is worth; a byte that is no digit is worth nothing.
pub open spec fn digit_value(b: u8) -> nat {
    if is_digit(b) {
        (b - 0x30) as nat
    } else {
        0
    }
}

/// The number that the digits `s` spell in base ten, most significant digit first.
pub open spec fn decimal(s: Seq<u8>) -> nat
    decreases s.len(),
{
    if s.len() == 0 {
        0
    } else {
        decimal(s.drop_last()) * 10 + digit_value(s.last())
    }
}

/// The shortest way to spell `n` in base ten.
pub open spec fn digits_of(n: nat) -> Seq<u8>
    decreases n,
{
    if n < 10 {
        seq![(0x30 + n) as u8]
    } else {
        digits_of(n / 10).push((0x30 + n % 10) as u8)
    }
}

/// The integer rule: the longest run of digits at the front of `s`, which must
/// not be empty and whose value must fit 32 bits. The result is the value and
/// the length of the run.
pub open spec fn int_rule(s: Seq<u8>) -> Option<(u32, nat)> {
    let n = digit_run(s);
    let v = decimal(s.take(n as int));
    if n > 0 && v <= u32::MAX {
        Some((v as u32, n))
    } else {
        None
    }
}

/// The integer rule for a parameter that may be left out: no digit at all
/// stands for 1 and takes nothing.
pub open spec fn int_or_one_rule(s: Seq<u8>) -> Option<(u32, nat)> {
    if digit_run(s) == 0 {
        Some((1u32, 0nat))
    } else {
        int_rule(s)
    }
}

/// Whether what an executable rule returned is what the rule says, for a rule
/// that yields a number.
pub open spec fn int_agrees(r: Option<(u32, usize)>, m: Option<(u32, nat)>) -> bool {
    match r {
        Some((v, n)) => m == Some((v, n as nat)),
        None => m is None,
    }
}

/// A digit run lies inside its text, holds digits only, and ends at the first
/// byte that is no digit.
pub proof fn lemma_digit_run(s: Seq<u8>)
    ensures
        digit_run(s) <= s.len(),
        forall|i: int| 0 <= i < digit_run(s) ==> is_digit(#[trigger] s[i]),
        digit_run(s) < s.len() ==> !is_digit(s[digit_run(s) as int]),
    decreases s.len(),
{
    if s.len() > 0 && is_digit(s[0]) {
        let t = s.drop_first();
        lemma_digit_run(t);
        assert forall|i: int| 0 <= i < digit_run(s) implies is_digit(#[trigger] s[i]) by {
            if i > 0 {
                assert(s[i] == t[i - 1]);
            }
        }
        if digit_run(s) < s.len() {
            assert(s[digit_run(s) as int] == t[digit_run(t) as int]);
        }
    }
}

/// The digit run is the only prefix of digits that a non-digit or the end follows.
pub proof fn lemma_digit_run_is(s: Seq<u8>, n: nat)
    requires
        n <= s.len(),
        forall|i: int| 0 <= i < n ==> is_digit(#[trigger] s[i]),
        n < s.len() ==> !is_digit(s[n as int]),
    ensures
        digit_run(s) == n,
    decreases n,
{
    if n > 0 {
        let t = s.drop_first();
        assert forall|i: int| 0 <= i < n - 1 implies is_digit(#[trigger] t[i]) by {
            assert(t[i] == s[i + 1]);
        }
        if n < s.len() {
            assert(t[n - 1] == s[n as int]);
        }
        lemma_digit_run_is(t, (n - 1) as nat);
    }
}

/// Reading more digits never gives a smaller number.
pub proof fn lemma_decimal_grows(s: Seq<u8>, i: int, j: int)
    requires
        0 <= i <= j <= s.len(),
    ensures
        decimal(s.take(i)) <= decimal(s.take(j)),
    decreases j - i,
{
    if i < j {
        lemma_decimal_grows(s, i, j - 1);
        assert(s.take(j).drop_last() =~= s.take(j - 1));
    }
}

/// The spelling of a number has at least one byte, holds digits only, and
/// spells that number.
pub proof fn lemma_digits_of(n: nat)
    ensures
        digits_of(n).len() >= 1,
        forall|i: int| 0 <= i < digits_of(n).len() ==> is_digit(#[trigger] digits_of(n)[i]),
        decimal(digits_of(n)) == n,
    decreases n,
{
    if n < 10 {
        let d = digits_of(n);
        assert(d.drop_last() =~= Seq::<u8>::empty());
        assert(decimal(d.drop_last()) == 0);
    } else {
        let head = digits_of(n / 10);
        let d = digits_of(n);
        lemma_digits_of(n / 10);
        assert(d.drop_last() =~= head);
        assert(d.last() == (0x30 + n % 10) as u8);
    }
}

/// A number that was written out and is followed by anything but a digit is
/// read back by the integer rule, whole and unchanged.
pub proof fn lemma_int_rule_reads_digits_of(n: u32, rest: Seq<u8>)
    requires
        rest.len() > 0 ==> !is_digit(rest[0]),
    ensures
        int_rule(digits_of(n as nat) + rest) == Some((n, digits_of(n as nat).len())),
        int_or_one_rule(digits_of(n as nat) + rest) == Some((n, digits_of(n as nat).len())),
{
    let d = digits_of(n as nat);
    let s = d + rest;
    lemma_digits_of(n as nat);
    assert forall|i: int| 0 <= i < d.len() implies is_digit(#[trigger] s[i]) by {
        assert(s[i] == d[i]);
    }
    if d.len() < s.len() {
        assert(s[d.len() as int] == rest[0]);
    }
    lemma_digit_run_is(s, d.len());
    assert(s.take(d.len() as int) =~= d);
}

/// Calls nom's `digit` on the whole of `input`, taken as complete. nom splits
/// the input before its first byte outside `0`..=`9`, or at its end, and fails
/// when that leaves no digit. The contract says so: `None` when no digit stands
/// in front, else the length of the run.
#[verifier::external_body]
fn leading_digits(input: &[u8]) -> (found: Option<usize>)
    ensures
        found == (if digit_run(input@) > 0 {
            Some(digit_run(input@) as usize)
        } else {
            None::<usize>
        }),
{
    match nom::digit(nom::types::CompleteByteSlice(input)) {
        Ok((_, digits)) => Some(digits.len()),
        Err(_) => None,
    }
}

/// Reads the integer at the front of `input`: its value and how many bytes it
/// takes. `None` when no digit stands there or the value does not fit 32 bits.
pub fn parse_int(input: &[u8]) -> (r: Option<(u32, usize)>)
    ensures
        int_agrees(r, int_rule(input@)),
        r matches Some((_, n)) ==> 0 < n <= input@.len(),
{
    proof {
        lemma_digit_run(input@);
        assert(input@.len() == input.len());
    }
    match leading_digits(input) {
        None => None,
        Some(n) => {
            let mut acc: u64 = 0;
            let mut i: usize = 0;
            while i < n
                invariant
                    i <= n <= input.len(),
                    n == digit_run(input@),
                    forall|k: int| 0 <= k < n ==> is_digit(#[trigger] input@[k]),
                    acc == decimal(input@.take(i as int)),
                    acc <= u32::MAX,
                decreases n - i,
            {
                let d: u64 = (input[i] - 0x30) as u64;
                proof {
                    let next = input@.take(i + 1);
                    assert(next.drop_last() =~= input@.take(i as int));
                    assert(next.last() == input@[i as int]);
                    assert(decimal(next) == acc * 10 + d);
                }
                acc = acc * 10 + d;
                i += 1;
                if acc > 0xffff_ffff {
                    proof {
                        lemma_decimal_grows(input@, i as int, n as int);
                    }
                    return None;
                }
            }
            Some((acc as u32, n))
        },
    }
}

/// Reads a parameter that may be left out: 1 and no byte taken when no digit
/// stands in front, else as `parse_int`.
pub fn parse_int_or_one(input: &[u8]) -> (r: Option<(u32, usize)>)
    ensures
        int_agrees(r, int_or_one_rule(input@)),
        r matches Some((_, n)) ==> n <= input@.len(),
{
    if input.len() > 0 && 0x30 <= input[0] && input[0] <= 0x39 {
        parse_int(input)
    } else {
        Some((1, 0))
    }
}

/// Appends the shortest decimal spelling of `n` to `out`.
pub fn push_decimal(out: &mut Vec<u8>, n: u32)
    ensures
        final(out)@ == old(out)@ + digits_of(n as nat),
    decreases n,
{
    if n >= 10 {
        push_decimal(out, n / 10);
    }
    let d: u8 = (n % 10) as u8;
    out.push(0x30 + d);
    assert(out@ =~= old(out)@ + digits_of(n as nat));
}

} // verus!
