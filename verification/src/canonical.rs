//! The canonical form of a text: every token written out, text blocks as
//! they are and escape sequences with every parameter. Lexing the canonical
//! form gives the tokens of the text, so that a text and its canonical form
//! differ only in how their escape sequences are spelled.

use vstd::prelude::*;
use crate::enums::{AnsiSequenceView, OutputView, ESC};
use crate::grammar::{escape_sequence_rule, fixed_rule, fixed_text, render};
use crate::laws::{lemma_text_block_shape, lemma_tokens_unfold, token_text, tokens_text};
use crate::layout::lemma_sequence_rule_takes_no_introducer;
use crate::local::lemma_escape_sequence_rule_on_front;
use crate::roundtrip::{lemma_render_read_back, lemma_starts_with_short};
use crate::shape::lemma_escape_sequence_rule_shape;
use crate::tokens::{
    lemma_first_escape, lemma_first_escape_is, lemma_token_len, next_token, token_len, tokens,
};

verus! {

/// The canonical form of a text.
pub open spec fn canonical(s: Seq<u8>) -> Seq<u8> {
    tokens_text(tokens(s))
}

/// The canonical form of a text is empty only for the empty text, and it
/// begins with the introducer where the text does.
pub proof fn lemma_canonical_front(s: Seq<u8>)
    ensures
        s.len() > 0 ==> canonical(s).len() > 0,
        s.len() > 0 && s[0] == ESC ==> canonical(s)[0] == ESC,
        s.len() == 0 ==> canonical(s).len() == 0,
{
    if s.len() > 0 {
        lemma_tokens_unfold(s);
        let first = token_text(next_token(s));
        assert(canonical(s) == first + canonical(s.skip(token_len(s) as int)));
        assert(first.len() > 0 && (s[0] == ESC ==> first[0] == ESC));
    }
}

/// Lexing the canonical form of a text gives the tokens of the text, and
/// the canonical form is canonical: writing it out again changes nothing.
pub proof fn lemma_canonical_has_the_same_tokens(s: Seq<u8>)
    ensures
        tokens(canonical(s)) == tokens(s),
        canonical(canonical(s)) == canonical(s),
    decreases s.len(),
{
    if s.len() > 0 {
        lemma_tokens_unfold(s);
        let n = token_len(s);
        let rest = s.skip(n as int);
        let c = canonical(rest);
        let first = token_text(next_token(s));
        let u = first + c;
        assert(canonical(s) == u);
        lemma_canonical_has_the_same_tokens(rest);
        lemma_canonical_front(rest);
        lemma_text_block_shape(s);
        assert(first.len() >= 1);
        lemma_first_token_of_canonical(s);
        lemma_tokens_unfold(u);
        assert(u.skip(first.len() as int) =~= c);
        assert(tokens(u) =~= seq![next_token(u)] + tokens(c));
        assert(tokens(s) =~= seq![next_token(s)] + tokens(rest));
    }
}

/// The first token of the canonical form of a text is the first token of
/// the text, and it takes exactly the canonical text of that token.
proof fn lemma_first_token_of_canonical(s: Seq<u8>)
    requires
        s.len() > 0,
    ensures
        ({
            let first = token_text(next_token(s));
            let u = first + canonical(s.skip(token_len(s) as int));
            next_token(u) == next_token(s) && token_len(u) == first.len()
        }),
{
    lemma_token_len(s);
    let n = token_len(s);
    let rest = s.skip(n as int);
    let c = canonical(rest);
    let first = token_text(next_token(s));
    let u = first + c;
    lemma_canonical_front(rest);
    lemma_text_block_shape(s);
    match next_token(s) {
        OutputView::Escape(v) => {
            lemma_escape_sequence_rule_shape(s);
            lemma_render_read_back(v, c);
        },
        OutputView::TextBlock(text) => {
            assert(c.len() > 0 ==> c[0] == ESC) by {
                if rest.len() > 0 {
                    assert(rest[0] == s[n as int]);
                }
            }
            assert(u.take(n as int) =~= text);
            if s[0] != ESC {
                lemma_first_escape(s);
                assert forall|i: int| 0 <= i < n implies #[trigger] u[i] != ESC by {
                    assert(u[i] == s[i]);
                }
                lemma_first_escape_is(u, n);
            } else {
                let tail = u.skip(1);
                lemma_first_escape(s.skip(1));
                assert forall|i: int| 0 <= i < n - 1 implies #[trigger] tail[i] != ESC by {
                    assert(tail[i] == s.skip(1)[i]);
                }
                if n < u.len() {
                    assert(tail[n - 1] == c[0]);
                }
                lemma_first_escape_is(tail, (n - 1) as nat);
                lemma_escape_sequence_rule_on_front(s, n);
                lemma_escape_sequence_rule_on_front(u, n);
                if let Some((_, k)) = escape_sequence_rule(u) {
                    lemma_escape_sequence_rule_shape(u);
                    lemma_sequence_rule_takes_no_introducer(tail);
                    assert(u[n as int] == c[0]);
                    assert(tail[n - 1] == u[n as int]);
                    assert(n == 1);
                    assert(s.skip(1)[0] == s[1]);
                    lemma_starts_with_short(s.skip(1), fixed_text(AnsiSequenceView::Escape));
                    assert(fixed_rule(s.skip(1), AnsiSequenceView::Escape) is Some);
                }
            }
        },
    }
}

} // verus!
