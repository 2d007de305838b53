//! What holds of the lexer on every text: nothing is lost, nothing is read
//! twice, it comes to an end, and canonical text is read back as it was
//! written.

use vstd::prelude::*;
use crate::enums::{AnsiSequenceView, OutputView, ESC};
use crate::grammar::{escape_sequence_rule, render};
use crate::layout::lemma_escape_sequence_rule_whatever_follows;
use crate::local::{lemma_escape_sequence_rule_local, lemma_escape_sequence_rule_on_front};
use crate::roundtrip::lemma_render_read_back;
use crate::shape::lemma_escape_sequence_rule_shape;
use crate::tokens::{lemma_first_escape, lemma_token_len, next_token, spans, token_len, tokens};

verus! {

/// Whether the stretch of text `span` is a way to write `token`: a text
/// block is written as itself, and an escape sequence by any text that
/// parses, as a whole, to that sequence.
pub open spec fn encodes(span: Seq<u8>, token: OutputView) -> bool {
    match token {
        OutputView::TextBlock(text) => span == text,
        OutputView::Escape(v) => escape_sequence_rule(span) == Some((v, span.len())),
    }
}

/// The lengths of all parts, added up.
pub open spec fn total_len(parts: Seq<Seq<u8>>) -> nat
    decreases parts.len(),
{
    if parts.len() == 0 {
        0
    } else {
        parts[0].len() + total_len(parts.drop_first())
    }
}

/// The canonical text of a token: a text block as it is, an escape sequence
/// with every parameter written out.
pub open spec fn token_text(token: OutputView) -> Seq<u8> {
    match token {
        OutputView::TextBlock(text) => text,
        OutputView::Escape(v) => render(v),
    }
}

/// The canonical text of a sequence of tokens.
pub open spec fn tokens_text(all: Seq<OutputView>) -> Seq<u8>
    decreases all.len(),
{
    if all.len() == 0 {
        Seq::<u8>::empty()
    } else {
        token_text(all[0]) + tokens_text(all.drop_first())
    }
}

/// How the tokens of a text that is not empty are made: the first token and
/// its stretch of text, then the tokens of what follows.
pub proof fn lemma_tokens_unfold(s: Seq<u8>)
    requires
        s.len() > 0,
    ensures
        1 <= token_len(s) <= s.len(),
        tokens(s).len() == 1 + tokens(s.skip(token_len(s) as int)).len(),
        spans(s).len() == 1 + spans(s.skip(token_len(s) as int)).len(),
        tokens(s)[0] == next_token(s),
        spans(s)[0] == s.take(token_len(s) as int),
        tokens(s).drop_first() == tokens(s.skip(token_len(s) as int)),
        spans(s).drop_first() == spans(s.skip(token_len(s) as int)),
{
    lemma_token_len(s);
    let rest = s.skip(token_len(s) as int);
    assert(tokens(s).drop_first() =~= tokens(rest));
    assert(spans(s).drop_first() =~= spans(rest));
}

/// Every token has one stretch of text.
pub proof fn lemma_one_span_per_token(s: Seq<u8>)
    ensures
        spans(s).len() == tokens(s).len(),
    decreases s.len(),
{
    if s.len() > 0 {
        lemma_tokens_unfold(s);
        lemma_one_span_per_token(s.skip(token_len(s) as int));
    }
}

/// The first token of a text is written by the stretch of text that it takes.
pub proof fn lemma_next_token_encoded(s: Seq<u8>)
    requires
        s.len() > 0,
    ensures
        encodes(s.take(token_len(s) as int), next_token(s)),
{
    lemma_token_len(s);
    lemma_escape_sequence_rule_local(s);
}

/// A way to write an escape sequence is one in every place: followed by
/// anything, it parses to the same sequence and takes the same bytes.
pub proof fn lemma_encoding_holds_anywhere(span: Seq<u8>, v: AnsiSequenceView, rest: Seq<u8>)
    requires
        encodes(span, OutputView::Escape(v)),
    ensures
        escape_sequence_rule(span + rest) == Some((v, span.len())),
{
    assert((span + rest).take(span.len() as int) =~= span);
    assert(span.take(span.len() as int) =~= span);
    lemma_escape_sequence_rule_whatever_follows(span, span + rest);
}

/// Coverage: every token has its own stretch of the text, that stretch is a
/// way to write the token, and the stretches put together, in order, are the
/// text.
pub proof fn lemma_tokens_cover_text(s: Seq<u8>)
    ensures
        spans(s).len() == tokens(s).len(),
        forall|i: int| 0 <= i < tokens(s).len() ==> encodes(#[trigger] spans(s)[i], tokens(s)[i]),
        spans(s).flatten() == s,
    decreases s.len(),
{
    if s.len() == 0 {
        assert(spans(s).flatten() =~= s);
    } else {
        lemma_tokens_unfold(s);
        lemma_next_token_encoded(s);
        lemma_one_span_per_token(s);
        let n = token_len(s) as int;
        let rest = s.skip(n);
        lemma_tokens_cover_text(rest);
        assert forall|i: int| 0 <= i < tokens(s).len() implies encodes(
            #[trigger] spans(s)[i],
            tokens(s)[i],
        ) by {
            if i > 0 {
                assert(spans(s)[i] == spans(s).drop_first()[i - 1]);
                assert(tokens(s)[i] == tokens(s).drop_first()[i - 1]);
            }
        }
        assert(spans(s).flatten() =~= s.take(n) + rest);
        assert(s.take(n) + rest =~= s);
    }
}

/// Where every escape sequence of a text stands in canonical form, writing
/// the tokens out gives the text back, byte for byte.
pub proof fn lemma_canonical_text_is_kept(s: Seq<u8>)
    requires
        forall|i: int|
            0 <= i < tokens(s).len() ==> (#[trigger] tokens(s)[i] matches OutputView::Escape(v)
                ==> spans(s)[i] == render(v)),
    ensures
        tokens_text(tokens(s)) == s,
    decreases s.len(),
{
    if s.len() > 0 {
        lemma_tokens_unfold(s);
        let n = token_len(s) as int;
        let rest = s.skip(n);
        let all = tokens(s);
        let parts = spans(s);
        lemma_one_span_per_token(s);
        lemma_one_span_per_token(rest);
        assert forall|i: int| 0 <= i < tokens(rest).len() implies (
        #[trigger] tokens(rest)[i] matches OutputView::Escape(v) ==> spans(rest)[i] == render(
            v,
        )) by {
            assert(tokens(rest)[i] == all.drop_first()[i]);
            assert(spans(rest)[i] == parts.drop_first()[i]);
            assert(all[i + 1] == all.drop_first()[i]);
            assert(parts[i + 1] == parts.drop_first()[i]);
        }
        lemma_canonical_text_is_kept(rest);
        assert(token_text(all[0]) == s.take(n)) by {
            assert(all[0] == next_token(s));
            assert(parts[0] == s.take(n));
        }
        assert(tokens_text(all) == token_text(all[0]) + tokens_text(tokens(rest)));
        assert(s.take(n) + rest =~= s);
    }
}

/// No byte is lost and none is counted twice: the lengths of the stretches
/// that the tokens take add up to the length of the text, and no stretch is
/// empty.
pub proof fn lemma_no_byte_lost(s: Seq<u8>)
    ensures
        total_len(spans(s)) == s.len(),
        forall|i: int| 0 <= i < spans(s).len() ==> (#[trigger] spans(s)[i]).len() >= 1,
    decreases s.len(),
{
    if s.len() > 0 {
        lemma_tokens_unfold(s);
        let rest = s.skip(token_len(s) as int);
        lemma_no_byte_lost(rest);
        assert forall|i: int| 0 <= i < spans(s).len() implies (#[trigger] spans(s)[i]).len()
            >= 1 by {
            if i > 0 {
                assert(spans(s)[i] == spans(s).drop_first()[i - 1]);
            }
        }
    }
}

/// The lexer comes to an end: a text has at most as many tokens as bytes.
pub proof fn lemma_token_count(s: Seq<u8>)
    ensures
        tokens(s).len() <= s.len(),
    decreases s.len(),
{
    if s.len() > 0 {
        lemma_tokens_unfold(s);
        lemma_token_count(s.skip(token_len(s) as int));
    }
}

/// A text block is never empty, holds no introducer after its first byte,
/// and where it begins with the introducer, no escape sequence begins there.
pub proof fn lemma_text_block_shape(s: Seq<u8>)
    requires
        s.len() > 0,
    ensures
        next_token(s) matches OutputView::TextBlock(text) ==> {
            &&& text.len() >= 1
            &&& forall|i: int| 1 <= i < text.len() ==> text[i] != ESC
            &&& escape_sequence_rule(text) is None
            &&& (token_len(s) < s.len() ==> s[token_len(s) as int] == ESC)
        },
{
    lemma_token_len(s);
    if let OutputView::TextBlock(text) = next_token(s) {
        let n = token_len(s);
        if s[0] == ESC {
            let t = s.skip(1);
            lemma_first_escape(t);
            assert forall|i: int| 1 <= i < text.len() implies text[i] != ESC by {
                assert(text[i] == t[i - 1]);
            }
            if n < s.len() {
                assert(s[n as int] == t[n - 1]);
            }
            lemma_escape_sequence_rule_on_front(s, n);
        } else {
            lemma_first_escape(s);
        }
    }
}

/// Writing out is idempotent on what was parsed: the canonical text of a
/// parsed sequence parses to the same sequence, so that writing it out again
/// gives the same text.
pub proof fn lemma_render_is_idempotent(s: Seq<u8>)
    requires
        escape_sequence_rule(s) is Some,
    ensures
        ({
            let v = escape_sequence_rule(s).unwrap().0;
            let again = escape_sequence_rule(render(v));
            &&& again == Some((v, render(v).len()))
            &&& render(again.unwrap().0) == render(v)
        }),
{
    let v = escape_sequence_rule(s).unwrap().0;
    lemma_escape_sequence_rule_shape(s);
    lemma_render_read_back(v, Seq::<u8>::empty());
    assert(render(v) + Seq::<u8>::empty() =~= render(v));
}

} // verus!
