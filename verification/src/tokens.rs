//! The lexer as a function: which token stands at the front of a text, how
//! long it is, and the sequence of all tokens of a text.

use vstd::prelude::*;
use crate::enums::{OutputView, ESC};
use crate::grammar::escape_sequence_rule;
use crate::shape::lemma_escape_sequence_rule_shape;

verus! {

/// The index of the first introducer in `s`, or the length of `s` if it
/// holds none.
pub open spec fn first_escape(s: Seq<u8>) -> nat
    decreases s.len(),
{
    if s.len() == 0 || s[0] == ESC {
        0
    } else {
        1 + first_escape(s.drop_first())
    }
}

/// How many bytes the token at the front of `s` takes.
///
/// At an introducer: the length of the escape sequence that starts there, or,
/// if none does, everything up to the next introducer. Elsewhere: everything
/// up to the first introducer.
pub open spec fn token_len(s: Seq<u8>) -> nat {
    if s.len() > 0 && s[0] == ESC {
        match escape_sequence_rule(s) {
            Some((_, n)) => n,
            None => 1 + first_escape(s.skip(1)),
        }
    } else {
        first_escape(s)
    }
}

/// The token at the front of a text that is not empty.
pub open spec fn next_token(s: Seq<u8>) -> OutputView {
    match escape_sequence_rule(s) {
        Some((v, _)) => OutputView::Escape(v),
        None => OutputView::TextBlock(s.take(token_len(s) as int)),
    }
}

/// All tokens of a text, in order.
pub open spec fn tokens(s: Seq<u8>) -> Seq<OutputView>
    decreases s.len(),
{
    if s.len() == 0 {
        Seq::<OutputView>::empty()
    } else {
        proof {
            lemma_token_len(s);
        }
        seq![next_token(s)] + tokens(s.skip(token_len(s) as int))
    }
}

/// The stretch of the text that each token was made from, in order.
pub open spec fn spans(s: Seq<u8>) -> Seq<Seq<u8>>
    decreases s.len(),
{
    if s.len() == 0 {
        Seq::<Seq<u8>>::empty()
    } else {
        proof {
            lemma_token_len(s);
        }
        seq![s.take(token_len(s) as int)] + spans(s.skip(token_len(s) as int))
    }
}

/// The first introducer lies inside the text, or at its end if there is
/// none, and no introducer stands before it.
pub proof fn lemma_first_escape(s: Seq<u8>)
    ensures
        first_escape(s) <= s.len(),
        forall|i: int| 0 <= i < first_escape(s) ==> #[trigger] s[i] != ESC,
        first_escape(s) < s.len() ==> s[first_escape(s) as int] == ESC,
    decreases s.len(),
{
    if !(s.len() == 0 || s[0] == ESC) {
        let t = s.drop_first();
        lemma_first_escape(t);
        assert forall|i: int| 0 <= i < first_escape(s) implies #[trigger] s[i] != ESC by {
            if i > 0 {
                assert(s[i] == t[i - 1]);
            }
        }
        if first_escape(s) < s.len() {
            assert(s[first_escape(s) as int] == t[first_escape(t) as int]);
        }
    }
}

/// The first introducer is the only index with an introducer, or the end,
/// before which no introducer stands.
pub proof fn lemma_first_escape_is(s: Seq<u8>, n: nat)
    requires
        n <= s.len(),
        forall|i: int| 0 <= i < n ==> #[trigger] s[i] != ESC,
        n < s.len() ==> s[n as int] == ESC,
    ensures
        first_escape(s) == n,
    decreases n,
{
    if n > 0 {
        let t = s.drop_first();
        assert forall|i: int| 0 <= i < n - 1 implies #[trigger] t[i] != ESC by {
            assert(t[i] == s[i + 1]);
        }
        if n < s.len() {
            assert(t[n - 1] == s[n as int]);
        }
        lemma_first_escape_is(t, (n - 1) as nat);
    }
}

/// A token of a text that is not empty takes at least one byte and lies
/// inside the text: the lexer always moves on.
pub proof fn lemma_token_len(s: Seq<u8>)
    requires
        s.len() > 0,
    ensures
        1 <= token_len(s) <= s.len(),
{
    if s[0] == ESC {
        lemma_escape_sequence_rule_shape(s);
        lemma_first_escape(s.skip(1));
    } else {
        lemma_first_escape(s);
    }
}

} // verus!
