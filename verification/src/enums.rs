//! The values that the lexer hands out, and what they stand for in contracts.

use vstd::prelude::*;
use vstd::string::StringSliceAdditionalSpecFns;

verus! {

/// The byte that opens every escape sequence.
pub const ESC: u8 = 0x1b;

/// The escape sequences that the lexer knows.
///
/// `SetGraphicsMode` holds one to three parameters; see [`AnsiSequence::wf`].
#[derive(Debug, PartialEq)]
pub enum AnsiSequence {
    Escape,
    CursorPos(u32, u32),
    CursorUp(u32),
    CursorDown(u32),
    CursorForward(u32),
    CursorBackward(u32),
    CursorSave,
    CursorRestore,
    EraseDisplay,
    EraseLine,
    SetGraphicsMode(Vec<u32>),
    SetMode(u8),
    ResetMode(u8),
    HideCursor,
    ShowCursor,
    CursorToApp,
    SetNewLineMode,
    SetCol132,
    SetSmoothScroll,
    SetReverseVideo,
    SetOriginRelative,
    SetAutoWrap,
    SetAutoRepeat,
    SetInterlacing,
    SetLineFeedMode,
    SetCursorKeyToCursor,
    SetVT52,
    SetCol80,
    SetJumpScrolling,
    SetNormalVideo,
    SetOriginAbsolute,
    ResetAutoWrap,
    ResetAutoRepeat,
    ResetInterlacing,
    SetAlternateKeypad,
    SetNumericKeypad,
    SetUKG0,
    SetUKG1,
    SetUSG0,
    SetUSG1,
    SetG0SpecialChars,
    SetG1SpecialChars,
    SetG0AlternateChar,
    SetG1AlternateChar,
    SetG0AltAndSpecialGraph,
    SetG1AltAndSpecialGraph,
    SetSingleShift2,
    SetSingleShift3,
}

/// An escape sequence as a mathematical value: the same variants, with the
/// graphics parameters as a sequence.
pub enum AnsiSequenceView {
    Escape,
    CursorPos(u32, u32),
    CursorUp(u32),
    CursorDown(u32),
    CursorForward(u32),
    CursorBackward(u32),
    CursorSave,
    CursorRestore,
    EraseDisplay,
    EraseLine,
    SetGraphicsMode(Seq<u32>),
    SetMode(u8),
    ResetMode(u8),
    HideCursor,
    ShowCursor,
    CursorToApp,
    SetNewLineMode,
    SetCol132,
    SetSmoothScroll,
    SetReverseVideo,
    SetOriginRelative,
    SetAutoWrap,
    SetAutoRepeat,
    SetInterlacing,
    SetLineFeedMode,
    SetCursorKeyToCursor,
    SetVT52,
    SetCol80,
    SetJumpScrolling,
    SetNormalVideo,
    SetOriginAbsolute,
    ResetAutoWrap,
    ResetAutoRepeat,
    ResetInterlacing,
    SetAlternateKeypad,
    SetNumericKeypad,
    SetUKG0,
    SetUKG1,
    SetUSG0,
    SetUSG1,
    SetG0SpecialChars,
    SetG1SpecialChars,
    SetG0AlternateChar,
    SetG1AlternateChar,
    SetG0AltAndSpecialGraph,
    SetG1AltAndSpecialGraph,
    SetSingleShift2,
    SetSingleShift3,
}

impl View for AnsiSequence {
    type V = AnsiSequenceView;

    open spec fn view(&self) -> AnsiSequenceView {
        match self {
            AnsiSequence::Escape => AnsiSequenceView::Escape,
            AnsiSequence::CursorPos(row, col) => AnsiSequenceView::CursorPos(*row, *col),
            AnsiSequence::CursorUp(n) => AnsiSequenceView::CursorUp(*n),
            AnsiSequence::CursorDown(n) => AnsiSequenceView::CursorDown(*n),
            AnsiSequence::CursorForward(n) => AnsiSequenceView::CursorForward(*n),
            AnsiSequence::CursorBackward(n) => AnsiSequenceView::CursorBackward(*n),
            AnsiSequence::CursorSave => AnsiSequenceView::CursorSave,
            AnsiSequence::CursorRestore => AnsiSequenceView::CursorRestore,
            AnsiSequence::EraseDisplay => AnsiSequenceView::EraseDisplay,
            AnsiSequence::EraseLine => AnsiSequenceView::EraseLine,
            AnsiSequence::SetGraphicsMode(params) => AnsiSequenceView::SetGraphicsMode(params@),
            AnsiSequence::SetMode(mode) => AnsiSequenceView::SetMode(*mode),
            AnsiSequence::ResetMode(mode) => AnsiSequenceView::ResetMode(*mode),
            AnsiSequence::HideCursor => AnsiSequenceView::HideCursor,
            AnsiSequence::ShowCursor => AnsiSequenceView::ShowCursor,
            AnsiSequence::CursorToApp => AnsiSequenceView::CursorToApp,
            AnsiSequence::SetNewLineMode => AnsiSequenceView::SetNewLineMode,
            AnsiSequence::SetCol132 => AnsiSequenceView::SetCol132,
            AnsiSequence::SetSmoothScroll => AnsiSequenceView::SetSmoothScroll,
            AnsiSequence::SetReverseVideo => AnsiSequenceView::SetReverseVideo,
            AnsiSequence::SetOriginRelative => AnsiSequenceView::SetOriginRelative,
            AnsiSequence::SetAutoWrap => AnsiSequenceView::SetAutoWrap,
            AnsiSequence::SetAutoRepeat => AnsiSequenceView::SetAutoRepeat,
            AnsiSequence::SetInterlacing => AnsiSequenceView::SetInterlacing,
            AnsiSequence::SetLineFeedMode => AnsiSequenceView::SetLineFeedMode,
            AnsiSequence::SetCursorKeyToCursor => AnsiSequenceView::SetCursorKeyToCursor,
            AnsiSequence::SetVT52 => AnsiSequenceView::SetVT52,
            AnsiSequence::SetCol80 => AnsiSequenceView::SetCol80,
            AnsiSequence::SetJumpScrolling => AnsiSequenceView::SetJumpScrolling,
            AnsiSequence::SetNormalVideo => AnsiSequenceView::SetNormalVideo,
            AnsiSequence::SetOriginAbsolute => AnsiSequenceView::SetOriginAbsolute,
            AnsiSequence::ResetAutoWrap => AnsiSequenceView::ResetAutoWrap,
            AnsiSequence::ResetAutoRepeat => AnsiSequenceView::ResetAutoRepeat,
            AnsiSequence::ResetInterlacing => AnsiSequenceView::ResetInterlacing,
            AnsiSequence::SetAlternateKeypad => AnsiSequenceView::SetAlternateKeypad,
            AnsiSequence::SetNumericKeypad => AnsiSequenceView::SetNumericKeypad,
            AnsiSequence::SetUKG0 => AnsiSequenceView::SetUKG0,
            AnsiSequence::SetUKG1 => AnsiSequenceView::SetUKG1,
            AnsiSequence::SetUSG0 => AnsiSequenceView::SetUSG0,
            AnsiSequence::SetUSG1 => AnsiSequenceView::SetUSG1,
            AnsiSequence::SetG0SpecialChars => AnsiSequenceView::SetG0SpecialChars,
            AnsiSequence::SetG1SpecialChars => AnsiSequenceView::SetG1SpecialChars,
            AnsiSequence::SetG0AlternateChar => AnsiSequenceView::SetG0AlternateChar,
            AnsiSequence::SetG1AlternateChar => AnsiSequenceView::SetG1AlternateChar,
            AnsiSequence::SetG0AltAndSpecialGraph => AnsiSequenceView::SetG0AltAndSpecialGraph,
            AnsiSequence::SetG1AltAndSpecialGraph => AnsiSequenceView::SetG1AltAndSpecialGraph,
            AnsiSequence::SetSingleShift2 => AnsiSequenceView::SetSingleShift2,
            AnsiSequence::SetSingleShift3 => AnsiSequenceView::SetSingleShift3,
        }
    }
}

impl AnsiSequenceView {
    /// A graphics mode holds one, two or three parameters; every other value
    /// is well formed as it stands.
    pub open spec fn wf(self) -> bool {
        match self {
            AnsiSequenceView::SetGraphicsMode(params) => 1 <= params.len() <= 3,
            _ => true,
        }
    }
}

impl AnsiSequence {
    /// Whether this value can be written out and read back: see
    /// [`AnsiSequenceView::wf`].
    pub open spec fn wf(&self) -> bool {
        self@.wf()
    }
}

/// One item of the lexer's output: a stretch of text as it stood in the
/// input, or an escape sequence that was recognised.
#[derive(Debug, PartialEq)]
pub enum Output<'a> {
    TextBlock(&'a str),
    Escape(AnsiSequence),
}

/// An output item as a mathematical value: a text block is its UTF-8 bytes.
pub enum OutputView {
    TextBlock(Seq<u8>),
    Escape(AnsiSequenceView),
}

impl<'a> View for Output<'a> {
    type V = OutputView;

    open spec fn view(&self) -> OutputView {
        match self {
            Output::TextBlock(text) => OutputView::TextBlock(text.spec_bytes()),
            Output::Escape(seq) => OutputView::Escape(seq@),
        }
    }
}

} // verus!
