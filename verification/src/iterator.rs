//! The lexer: it walks a text and hands out its tokens one at a time.

use vstd::prelude::*;
use vstd::string::StringSliceAdditionalSpecFns;
use vstd::utf8::encode_utf8_valid_utf8;
use crate::enums::{Output, OutputView, ESC};
use crate::parsers::parse_escape_bytes;
use crate::shape::lemma_escape_sequence_rule_shape;
use crate::text::{lemma_boundary_at_ascii, lemma_boundary_before_ascii_or_end};
use crate::tokens::{
    first_escape, lemma_first_escape_is, lemma_token_len, next_token, token_len, tokens,
};

verus! {

/// The tokens as mathematical values, one for one.
pub open spec fn views(out: Seq<Output<'_>>) -> Seq<OutputView> {
    out.map_values(|token: Output| token@)
}

/// Finds the first introducer at or after `from`: its index, or the length of
/// `input` where there is none.
fn find_escape(input: &[u8], from: usize) -> (at: usize)
    requires
        from <= input@.len(),
    ensures
        at == from + first_escape(input@.skip(from as int)),
        from <= at <= input@.len(),
        at < input@.len() ==> input@[at as int] == ESC,
{
    let mut i: usize = from;
    while i < input.len() && input[i] != ESC
        invariant
            from <= i <= input.len(),
            input@.len() == input.len(),
            forall|j: int| from <= j < i ==> input@[j] != ESC,
        decreases input.len() - i,
    {
        i += 1;
    }
    proof {
        let rest = input@.skip(from as int);
        assert forall|j: int| 0 <= j < i - from implies #[trigger] rest[j] != ESC by {
            assert(rest[j] == input@[from + j]);
        }
        lemma_first_escape_is(rest, (i - from) as nat);
    }
    i
}

/// A lexer over one text. It holds the part of the text that it has not
/// handed out yet, and nothing else.
pub struct ParserIterator<'a> {
    dat: &'a str,
}

impl<'a> ParserIterator<'a> {
    /// The bytes that are still to be handed out.
    pub closed spec fn remaining(&self) -> Seq<u8> {
        self.dat.spec_bytes()
    }

    /// A lexer at the start of `text`.
    pub fn new(text: &'a str) -> (it: Self)
        ensures
            it.remaining() == text.spec_bytes(),
    {
        ParserIterator { dat: text }
    }

    /// Hands out the next token and moves past it.
    ///
    /// At the end of the text it returns `None` and stays where it is. Before
    /// the end it always returns a token, the one that [`next_token`] names,
    /// and moves on by the length of that token, which is at least one byte.
    pub fn next(&mut self) -> (out: Option<Output<'a>>)
        ensures
            old(self).remaining().len() == 0 ==> out is None && final(self).remaining() == old(
                self,
            ).remaining(),
            old(self).remaining().len() > 0 ==> {
                &&& out matches Some(token)
                &&& token@ == next_token(old(self).remaining())
                &&& final(self).remaining() == old(self).remaining().skip(
                    token_len(old(self).remaining()) as int,
                )
                &&& final(self).remaining().len() < old(self).remaining().len()
            },
    {
        let dat: &'a str = self.dat;
        let bytes = dat.as_bytes();
        if bytes.len() == 0 {
            return None;
        }
        proof {
            encode_utf8_valid_utf8(dat@);
            lemma_token_len(bytes@);
        }
        if bytes[0] == ESC {
            match parse_escape_bytes(bytes) {
                Some((seq, n)) => {
                    proof {
                        lemma_escape_sequence_rule_shape(bytes@);
                        lemma_boundary_at_ascii(bytes@, n - 1);
                    }
                    let (_, rest) = dat.split_at(n);
                    self.dat = rest;
                    Some(Output::Escape(seq))
                },
                None => {
                    let n = find_escape(bytes, 1);
                    proof {
                        lemma_boundary_before_ascii_or_end(bytes@, n as int);
                    }
                    let (text, rest) = dat.split_at(n);
                    self.dat = rest;
                    Some(Output::TextBlock(text))
                },
            }
        } else {
            let n = find_escape(bytes, 0);
            proof {
                assert(bytes@.skip(0) =~= bytes@);
                lemma_boundary_before_ascii_or_end(bytes@, n as int);
            }
            let (text, rest) = dat.split_at(n);
            self.dat = rest;
            Some(Output::TextBlock(text))
        }
    }

    /// Hands out all tokens that are left, in order.
    pub fn collect(self) -> (out: Vec<Output<'a>>)
        ensures
            views(out@) == tokens(self.remaining()),
            out@.len() <= self.remaining().len(),
    {
        let mut it = self;
        let mut out: Vec<Output<'a>> = Vec::new();
        assert(views(out@) =~= Seq::<OutputView>::empty());
        loop
            invariant
                tokens(self.remaining()) == views(out@) + tokens(it.remaining()),
                out@.len() + it.remaining().len() <= self.remaining().len(),
            ensures
                views(out@) == tokens(self.remaining()),
                out@.len() <= self.remaining().len(),
            decreases it.remaining().len(),
        {
            let ghost before = it.remaining();
            let ghost done = out@;
            match it.next() {
                None => {
                    assert(views(out@) + tokens(before) =~= views(out@));
                    break ;
                },
                Some(token) => {
                    out.push(token);
                    proof {
                        assert(views(out@) =~= views(done) + seq![token@]);
                        assert(views(out@) + tokens(it.remaining()) =~= views(done) + tokens(
                            before,
                        ));
                    }
                },
            }
        }
        out
    }
}

} // verus!
