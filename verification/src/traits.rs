//! Starting a lexer straight from a text.

use vstd::prelude::*;
use vstd::string::StringSliceAdditionalSpecFns;
use vstd::utf8::encode_utf8;
use crate::iterator::ParserIterator;

verus! {

/// A text that can be lexed.
pub trait AnsiParser {
    /// The UTF-8 bytes of the text.
    spec fn text_bytes(&self) -> Seq<u8>;

    /// A lexer at the start of the text.
    fn ansi_parse(&self) -> (it: ParserIterator<'_>)
        ensures
            it.remaining() == self.text_bytes(),
    ;
}

impl AnsiParser for str {
    open spec fn text_bytes(&self) -> Seq<u8> {
        self.spec_bytes()
    }

    fn ansi_parse(&self) -> (it: ParserIterator<'_>) {
        ParserIterator::new(self)
    }
}

impl AnsiParser for String {
    open spec fn text_bytes(&self) -> Seq<u8> {
        encode_utf8(self@)
    }

    fn ansi_parse(&self) -> (it: ParserIterator<'_>) {
        ParserIterator::new(self.as_str())
    }
}

} // verus!
