use ansi_parser::graphics::{typed_graphics_mode, Color, GraphicsMode, TextAttribute};
use ansi_parser::AnsiSequence;

#[test]
fn typed_graphics_mode_reads_three_typed_fields() {
    assert_eq!(
        typed_graphics_mode(b"[4;31;42m"),
        Some((
            GraphicsMode {
                attribute: TextAttribute::Underscore,
                foreground: Color::Red,
                background: Color::Green,
            },
            9
        ))
    );
    assert_eq!(
        typed_graphics_mode(b"[0;30;40mtext"),
        Some((
            GraphicsMode {
                attribute: TextAttribute::Off,
                foreground: Color::Black,
                background: Color::Black,
            },
            9
        ))
    );
    assert_eq!(
        typed_graphics_mode(b"[8;37;47m"),
        Some((
            GraphicsMode {
                attribute: TextAttribute::Concealed,
                foreground: Color::White,
                background: Color::White,
            },
            9
        ))
    );
}

#[test]
fn typed_graphics_mode_refuses_an_attribute_outside_its_list() {
    assert_eq!(typed_graphics_mode(b"[2;31;42m"), None);
    assert_eq!(typed_graphics_mode(b"[3;31;42m"), None);
    assert_eq!(typed_graphics_mode(b"[6;31;42m"), None);
    assert_eq!(typed_graphics_mode(b"[9;31;42m"), None);
    assert_eq!(typed_graphics_mode(b"[31;31;42m"), None);
}

#[test]
fn typed_graphics_mode_refuses_a_foreground_outside_its_list() {
    assert_eq!(typed_graphics_mode(b"[4;29;42m"), None);
    assert_eq!(typed_graphics_mode(b"[4;38;42m"), None);
    assert_eq!(typed_graphics_mode(b"[4;42;42m"), None);
    assert_eq!(typed_graphics_mode(b"[4;0;42m"), None);
}

#[test]
fn typed_graphics_mode_refuses_a_background_outside_its_list() {
    assert_eq!(typed_graphics_mode(b"[4;31;39m"), None);
    assert_eq!(typed_graphics_mode(b"[4;31;48m"), None);
    assert_eq!(typed_graphics_mode(b"[4;31;31m"), None);
    assert_eq!(typed_graphics_mode(b"[4;31;0m"), None);
    assert_eq!(typed_graphics_mode(b"[4;31;9m"), None);
}

#[test]
fn typed_graphics_mode_needs_exactly_three_parameters() {
    assert_eq!(typed_graphics_mode(b"[4m"), None);
    assert_eq!(typed_graphics_mode(b"[4;31m"), None);
    assert_eq!(typed_graphics_mode(b"[4;31;42;1m"), None);
    assert_eq!(typed_graphics_mode(b"[;31;42m"), None);
    assert_eq!(typed_graphics_mode(b"[4;31;42"), None);
    assert_eq!(typed_graphics_mode(b"4;31;42m"), None);
    assert_eq!(typed_graphics_mode(b""), None);
}

#[test]
fn codes_and_values_match() {
    let attributes = [
        (0, TextAttribute::Off),
        (1, TextAttribute::Bold),
        (4, TextAttribute::Underscore),
        (5, TextAttribute::Blink),
        (7, TextAttribute::ReverseVideo),
        (8, TextAttribute::Concealed),
    ];
    for (code, attribute) in attributes {
        assert_eq!(TextAttribute::from_code(code), Some(attribute));
        assert_eq!(attribute.code(), code);
    }
    for code in [2, 3, 6, 9, 10, 30, 4294967295] {
        assert_eq!(TextAttribute::from_code(code), None);
    }
    let colors = [
        (30, Color::Black),
        (31, Color::Red),
        (32, Color::Green),
        (33, Color::Yellow),
        (34, Color::Blue),
        (35, Color::Magenta),
        (36, Color::Cyan),
        (37, Color::White),
    ];
    for (code, color) in colors {
        assert_eq!(Color::from_code(code), Some(color));
        assert_eq!(color.code(), code);
    }
    for code in [0, 29, 38, 40, 47, 4294967295] {
        assert_eq!(Color::from_code(code), None);
    }
}

#[test]
fn from_params_is_the_typed_reading() {
    assert_eq!(
        GraphicsMode::from_params(&[1, 33, 44]),
        Some(GraphicsMode {
            attribute: TextAttribute::Bold,
            foreground: Color::Yellow,
            background: Color::Blue,
        })
    );
    assert_eq!(GraphicsMode::from_params(&[1, 33]), None);
    assert_eq!(GraphicsMode::from_params(&[1, 33, 44, 1]), None);
    assert_eq!(GraphicsMode::from_params(&[]), None);
    assert_eq!(GraphicsMode::from_params(&[1, 33, 34]), None);
    assert_eq!(GraphicsMode::from_params(&[1, 43, 44]), None);
    assert_eq!(GraphicsMode::from_params(&[1, 33, 5]), None);
}

#[test]
fn a_typed_mode_is_written_and_read_back() {
    let mode = GraphicsMode {
        attribute: TextAttribute::Blink,
        foreground: Color::Magenta,
        background: Color::Cyan,
    };
    let seq = mode.to_sequence();
    assert_eq!(seq, AnsiSequence::SetGraphicsMode(vec![5, 35, 46]));
    let text = seq.render();
    assert_eq!(text, b"\x1b[5;35;46m".to_vec());
    assert_eq!(typed_graphics_mode(&text[1..]), Some((mode, 9)));
}
