//! The strict reading of a graphics mode: exactly three parameters, a text
//! attribute, a foreground colour and a background colour, each of which
//! must be a code of its own finite list.

use vstd::prelude::*;
use crate::enums::{AnsiSequence, AnsiSequenceView};
use crate::grammar::{body, graphics_arity_rule};
use crate::parsers::graphics_mode_of_arity;
use crate::roundtrip::lemma_graphics_arity_read_back;

verus! {

/// How text is shown.
#[derive(Debug, PartialEq, Eq, Clone, Copy, Structural)]
pub enum TextAttribute {
    Off,
    Bold,
    Underscore,
    Blink,
    ReverseVideo,
    Concealed,
}

/// The eight colours.
#[derive(Debug, PartialEq, Eq, Clone, Copy, Structural)]
pub enum Color {
    Black,
    Red,
    Green,
    Yellow,
    Blue,
    Magenta,
    Cyan,
    White,
}

/// A graphics mode with typed fields.
#[derive(Debug, PartialEq, Eq, Clone, Copy, Structural)]
pub struct GraphicsMode {
    pub attribute: TextAttribute,
    pub foreground: Color,
    pub background: Color,
}

/// The attribute that a code stands for, if it stands for one.
pub open spec fn attribute_of(code: u32) -> Option<TextAttribute> {
    if code == 0 {
        Some(TextAttribute::Off)
    } else if code == 1 {
        Some(TextAttribute::Bold)
    } else if code == 4 {
        Some(TextAttribute::Underscore)
    } else if code == 5 {
        Some(TextAttribute::Blink)
    } else if code == 7 {
        Some(TextAttribute::ReverseVideo)
    } else if code == 8 {
        Some(TextAttribute::Concealed)
    } else {
        None
    }
}

/// The code of an attribute.
pub open spec fn attribute_code(attribute: TextAttribute) -> u32 {
    match attribute {
        TextAttribute::Off => 0,
        TextAttribute::Bold => 1,
        TextAttribute::Underscore => 4,
        TextAttribute::Blink => 5,
        TextAttribute::ReverseVideo => 7,
        TextAttribute::Concealed => 8,
    }
}

/// The colour that a foreground code stands for, if it stands for one.
pub open spec fn color_of(code: u32) -> Option<Color> {
    if code == 30 {
        Some(Color::Black)
    } else if code == 31 {
        Some(Color::Red)
    } else if code == 32 {
        Some(Color::Green)
    } else if code == 33 {
        Some(Color::Yellow)
    } else if code == 34 {
        Some(Color::Blue)
    } else if code == 35 {
        Some(Color::Magenta)
    } else if code == 36 {
        Some(Color::Cyan)
    } else if code == 37 {
        Some(Color::White)
    } else {
        None
    }
}

/// The foreground code of a colour.
pub open spec fn color_code(color: Color) -> u32 {
    match color {
        Color::Black => 30,
        Color::Red => 31,
        Color::Green => 32,
        Color::Yellow => 33,
        Color::Blue => 34,
        Color::Magenta => 35,
        Color::Cyan => 36,
        Color::White => 37,
    }
}

/// The colour that a background code stands for: the code is ten above the
/// foreground code of the same colour.
pub open spec fn background_of(code: u32) -> Option<Color> {
    if code >= 10 {
        color_of((code - 10) as u32)
    } else {
        None
    }
}

/// The typed reading of three parameters: every one of them must be in the
/// list of its field.
pub open spec fn typed_of(params: Seq<u32>) -> Option<GraphicsMode> {
    if params.len() == 3 && attribute_of(params[0]) is Some && color_of(params[1]) is Some
        && background_of(params[2]) is Some {
        Some(
            GraphicsMode {
                attribute: attribute_of(params[0]).unwrap(),
                foreground: color_of(params[1]).unwrap(),
                background: background_of(params[2]).unwrap(),
            },
        )
    } else {
        None
    }
}

/// The three parameters that a typed graphics mode is written with.
pub open spec fn untyped(mode: GraphicsMode) -> Seq<u32> {
    seq![
        attribute_code(mode.attribute),
        color_code(mode.foreground),
        (color_code(mode.background) + 10) as u32,
    ]
}

/// The strict graphics rule: `[`, three parameters with `;` between them,
/// `m`, and every parameter in the list of its field.
pub open spec fn typed_graphics_rule(s: Seq<u8>) -> Option<(GraphicsMode, nat)> {
    match graphics_arity_rule(s, 3) {
        Some((AnsiSequenceView::SetGraphicsMode(params), n)) => match typed_of(params) {
            Some(mode) => Some((mode, n)),
            None => None,
        },
        _ => None,
    }
}

impl TextAttribute {
    /// The attribute that `code` stands for; `None` for a code outside the list.
    pub fn from_code(code: u32) -> (r: Option<TextAttribute>)
        ensures
            r == attribute_of(code),
    {
        if code == 0 {
            Some(TextAttribute::Off)
        } else if code == 1 {
            Some(TextAttribute::Bold)
        } else if code == 4 {
            Some(TextAttribute::Underscore)
        } else if code == 5 {
            Some(TextAttribute::Blink)
        } else if code == 7 {
            Some(TextAttribute::ReverseVideo)
        } else if code == 8 {
            Some(TextAttribute::Concealed)
        } else {
            None
        }
    }

    /// The code of the attribute.
    pub fn code(&self) -> (code: u32)
        ensures
            code == attribute_code(*self),
            attribute_of(code) == Some(*self),
    {
        match self {
            TextAttribute::Off => 0,
            TextAttribute::Bold => 1,
            TextAttribute::Underscore => 4,
            TextAttribute::Blink => 5,
            TextAttribute::ReverseVideo => 7,
            TextAttribute::Concealed => 8,
        }
    }
}

impl Color {
    /// The colour that the foreground code `code` stands for; `None` for a
    /// code outside the list.
    pub fn from_code(code: u32) -> (r: Option<Color>)
        ensures
            r == color_of(code),
    {
        if code == 30 {
            Some(Color::Black)
        } else if code == 31 {
            Some(Color::Red)
        } else if code == 32 {
            Some(Color::Green)
        } else if code == 33 {
            Some(Color::Yellow)
        } else if code == 34 {
            Some(Color::Blue)
        } else if code == 35 {
            Some(Color::Magenta)
        } else if code == 36 {
            Some(Color::Cyan)
        } else if code == 37 {
            Some(Color::White)
        } else {
            None
        }
    }

    /// The foreground code of the colour.
    pub fn code(&self) -> (code: u32)
        ensures
            code == color_code(*self),
            color_of(code) == Some(*self),
    {
        match self {
            Color::Black => 30,
            Color::Red => 31,
            Color::Green => 32,
            Color::Yellow => 33,
            Color::Blue => 34,
            Color::Magenta => 35,
            Color::Cyan => 36,
            Color::White => 37,
        }
    }
}

impl GraphicsMode {
    /// The typed reading of three raw parameters; `None` unless there are
    /// exactly three and each is in the list of its field.
    pub fn from_params(params: &[u32]) -> (r: Option<GraphicsMode>)
        ensures
            r == typed_of(params@),
    {
        if params.len() != 3 {
            return None;
        }
        let attribute = match TextAttribute::from_code(params[0]) {
            Some(found) => found,
            None => {
                return None;
            },
        };
        let foreground = match Color::from_code(params[1]) {
            Some(found) => found,
            None => {
                return None;
            },
        };
        if params[2] < 10 {
            return None;
        }
        let background = match Color::from_code(params[2] - 10) {
            Some(found) => found,
            None => {
                return None;
            },
        };
        Some(GraphicsMode { attribute, foreground, background })
    }

    /// The sequence that sets this graphics mode, with its three parameters.
    pub fn to_sequence(&self) -> (seq: AnsiSequence)
        ensures
            seq@ == AnsiSequenceView::SetGraphicsMode(untyped(*self)),
            seq.wf(),
    {
        let mut params: Vec<u32> = Vec::new();
        params.push(self.attribute.code());
        params.push(self.foreground.code());
        params.push(self.background.code() + 10);
        assert(params@ =~= untyped(*self));
        AnsiSequence::SetGraphicsMode(params)
    }
}

/// The strict graphics rule on the text after the introducer: the typed
/// mode and the length, or `None` where the text is no graphics mode of three
/// parameters or one of the parameters is outside the list of its field.
pub fn typed_graphics_mode(input: &[u8]) -> (r: Option<(GraphicsMode, usize)>)
    ensures
        match r {
            Some((mode, n)) => typed_graphics_rule(input@) == Some((mode, n as nat)),
            None => typed_graphics_rule(input@) is None,
        },
{
    match graphics_mode_of_arity(input, 3) {
        Some((AnsiSequence::SetGraphicsMode(params), n)) => {
            match GraphicsMode::from_params(params.as_slice()) {
                Some(mode) => Some((mode, n)),
                None => None,
            }
        },
        _ => None,
    }
}

/// Domain rejection: the strict rule matches exactly where the graphics rule
/// for three parameters matches and the attribute, the foreground and the
/// background are each in their list. A code outside its list makes the
/// whole sequence fail.
pub proof fn lemma_typed_graphics_domain(s: Seq<u8>)
    ensures
        typed_graphics_rule(s) is Some <==> (graphics_arity_rule(s, 3) matches Some(
            (AnsiSequenceView::SetGraphicsMode(params), _),
        ) && attribute_of(params[0]) is Some && color_of(params[1]) is Some && 40 <= params[2]
            <= 47),
        typed_graphics_rule(s) matches Some((mode, n)) ==> graphics_arity_rule(s, 3) == Some(
            (AnsiSequenceView::SetGraphicsMode(untyped(mode)), n),
        ),
{
    crate::shape::lemma_int_list_len(s.skip(1), 3);
    if let Some((AnsiSequenceView::SetGraphicsMode(params), n)) = graphics_arity_rule(s, 3) {
        if let Some(mode) = typed_of(params) {
            assert(untyped(mode) =~= params);
        }
    }
}

/// A typed graphics mode is read back from the text of its sequence,
/// whatever follows.
pub proof fn lemma_typed_graphics_read_back(mode: GraphicsMode, rest: Seq<u8>)
    ensures
        ({
            let text = body(AnsiSequenceView::SetGraphicsMode(untyped(mode)));
            typed_graphics_rule(text + rest) == Some((mode, text.len()))
        }),
{
    lemma_graphics_arity_read_back(untyped(mode), rest);
}

} // verus!
