use ansi_parser::{parse_escape, AnsiSequence, ParseError};

fn written_back(text: &str) -> String {
    let parsed = parse_escape(text);
    assert!(parsed.is_ok());
    let (rest, seq) = parsed.unwrap();
    assert_eq!(rest, "");
    seq.to_string()
}

fn read_again(text: &str) {
    let first = parse_escape(text);
    assert!(first.is_ok());
    let first = first.unwrap().1;
    let canonical = first.to_string();
    let second = parse_escape(&canonical);
    assert!(second.is_ok());
    let second = second.unwrap().1;
    assert_eq!(first, second);
}

#[test]
fn cursor_pos_default() {
    read_again("\u{1b}[H");
    assert_eq!(written_back("\u{1b}[H"), "\u{1b}[1;1H");
}

#[test]
fn cursor_pos() {
    read_again("\u{1b}[10;5H");
    assert_eq!(written_back("\u{1b}[10;5H"), "\u{1b}[10;5H");
    assert_eq!(
        parse_escape("\u{1b}[10;5H"),
        Ok(("", AnsiSequence::CursorPos(10, 5)))
    );
}

#[test]
fn cursor_pos_with_f() {
    assert_eq!(
        parse_escape("\u{1b}[3;4fabc"),
        Ok(("abc", AnsiSequence::CursorPos(3, 4)))
    );
    assert_eq!(written_back("\u{1b}[3;4f"), "\u{1b}[3;4H");
}

#[test]
fn cursor_pos_with_one_part_left_out() {
    assert_eq!(
        parse_escape("\u{1b}[7H"),
        Ok(("", AnsiSequence::CursorPos(7, 1)))
    );
    assert_eq!(
        parse_escape("\u{1b}[;7H"),
        Ok(("", AnsiSequence::CursorPos(1, 7)))
    );
    assert_eq!(
        parse_escape("\u{1b}[7;H"),
        Ok(("", AnsiSequence::CursorPos(7, 1)))
    );
    assert_eq!(
        parse_escape("\u{1b}[;H"),
        Ok(("", AnsiSequence::CursorPos(1, 1)))
    );
}

#[test]
fn cursor_up_default() {
    read_again("\u{1b}[A");
    assert_eq!(parse_escape("\u{1b}[A"), Ok(("", AnsiSequence::CursorUp(1))));
    assert_eq!(parse_escape("\u{1b}[A"), parse_escape("\u{1b}[1A"));
}

#[test]
fn cursor_up() {
    read_again("\u{1b}[5A");
    assert_eq!(written_back("\u{1b}[5A"), "\u{1b}[5A");
}

#[test]
fn cursor_down() {
    read_again("\u{1b}[5B");
    assert_eq!(parse_escape("\u{1b}[5B"), Ok(("", AnsiSequence::CursorDown(5))));
    assert_eq!(parse_escape("\u{1b}[B"), Ok(("", AnsiSequence::CursorDown(1))));
}

#[test]
fn cursor_forward() {
    read_again("\u{1b}[5C");
    assert_eq!(
        parse_escape("\u{1b}[5C"),
        Ok(("", AnsiSequence::CursorForward(5)))
    );
    assert_eq!(
        parse_escape("\u{1b}[C"),
        Ok(("", AnsiSequence::CursorForward(1)))
    );
}

#[test]
fn cursor_backward() {
    read_again("\u{1b}[5D");
    assert_eq!(
        parse_escape("\u{1b}[5D"),
        Ok(("", AnsiSequence::CursorBackward(5)))
    );
    assert_eq!(
        parse_escape("\u{1b}[D"),
        Ok(("", AnsiSequence::CursorBackward(1)))
    );
}

#[test]
fn cursor_save() {
    assert_eq!(written_back("\u{1b}[s"), "\u{1b}[s");
    assert_eq!(parse_escape("\u{1b}[s"), Ok(("", AnsiSequence::CursorSave)));
}

#[test]
fn cursor_restore() {
    assert_eq!(written_back("\u{1b}[u"), "\u{1b}[u");
    assert_eq!(parse_escape("\u{1b}[u"), Ok(("", AnsiSequence::CursorRestore)));
}

#[test]
fn erase_display() {
    assert_eq!(written_back("\u{1b}[2J"), "\u{1b}[2J");
    assert_eq!(parse_escape("\u{1b}[2J"), Ok(("", AnsiSequence::EraseDisplay)));
}

#[test]
fn erase_line() {
    assert_eq!(written_back("\u{1b}[K"), "\u{1b}[K");
    assert_eq!(parse_escape("\u{1b}[K"), Ok(("", AnsiSequence::EraseLine)));
}

#[test]
fn set_video_mode_a() {
    assert_eq!(written_back("\u{1b}[4m"), "\u{1b}[4m");
    assert_eq!(
        parse_escape("\u{1b}[4m"),
        Ok(("", AnsiSequence::SetGraphicsMode(vec![4])))
    );
}

#[test]
fn set_video_mode_b() {
    assert_eq!(written_back("\u{1b}[4;42m"), "\u{1b}[4;42m");
    assert_eq!(
        parse_escape("\u{1b}[4;42m"),
        Ok(("", AnsiSequence::SetGraphicsMode(vec![4, 42])))
    );
}

#[test]
fn set_video_mode_c() {
    assert_eq!(written_back("\u{1b}[4;31;42m"), "\u{1b}[4;31;42m");
    assert_eq!(
        parse_escape("\u{1b}[4;31;42m"),
        Ok(("", AnsiSequence::SetGraphicsMode(vec![4, 31, 42])))
    );
}

#[test]
fn video_mode_with_more_than_three_parameters_is_refused() {
    assert_eq!(
        parse_escape("\u{1b}[4;31;42;42m"),
        Err(ParseError::Unrecognized)
    );
    assert_eq!(
        parse_escape("\u{1b}[4;31;42;42;42m"),
        Err(ParseError::Unrecognized)
    );
}

#[test]
fn video_mode_needs_every_parameter() {
    assert_eq!(parse_escape("\u{1b}[m"), Err(ParseError::Unrecognized));
    assert_eq!(parse_escape("\u{1b}[;4m"), Err(ParseError::Unrecognized));
    assert_eq!(parse_escape("\u{1b}[4;m"), Err(ParseError::Unrecognized));
}

#[test]
fn reset_mode() {
    assert_eq!(written_back("\u{1b}[=13l"), "\u{1b}[=13l");
    assert_eq!(parse_escape("\u{1b}[=13l"), Ok(("", AnsiSequence::ResetMode(13))));
}

#[test]
fn set_mode() {
    assert_eq!(written_back("\u{1b}[=7h"), "\u{1b}[=7h");
    assert_eq!(parse_escape("\u{1b}[=7h"), Ok(("", AnsiSequence::SetMode(7))));
}

#[test]
fn mode_must_fit_a_byte() {
    assert_eq!(parse_escape("\u{1b}[=255h"), Ok(("", AnsiSequence::SetMode(255))));
    assert_eq!(parse_escape("\u{1b}[=256h"), Err(ParseError::Unrecognized));
    assert_eq!(parse_escape("\u{1b}[=255l"), Ok(("", AnsiSequence::ResetMode(255))));
    assert_eq!(parse_escape("\u{1b}[=256l"), Err(ParseError::Unrecognized));
    assert_eq!(parse_escape("\u{1b}[=h"), Err(ParseError::Unrecognized));
}

#[test]
fn show_cursor() {
    assert_eq!(written_back("\u{1b}[?25h"), "\u{1b}[?25h");
    assert_eq!(parse_escape("\u{1b}[?25h"), Ok(("", AnsiSequence::ShowCursor)));
}

#[test]
fn hide_cursor() {
    assert_eq!(written_back("\u{1b}[?25l"), "\u{1b}[?25l");
    assert_eq!(parse_escape("\u{1b}[?25l"), Ok(("", AnsiSequence::HideCursor)));
}

#[test]
fn cursor_to_app() {
    assert_eq!(written_back("\u{1b}[?1h"), "\u{1b}[?1h");
    assert_eq!(parse_escape("\u{1b}[?1h"), Ok(("", AnsiSequence::CursorToApp)));
}

#[test]
fn set_newline_mode() {
    assert_eq!(written_back("\u{1b}[20h"), "\u{1b}[20h");
    assert_eq!(parse_escape("\u{1b}[20h"), Ok(("", AnsiSequence::SetNewLineMode)));
}

#[test]
fn set_column_132() {
    assert_eq!(written_back("\u{1b}[?3h"), "\u{1b}[?3h");
    assert_eq!(parse_escape("\u{1b}[?3h"), Ok(("", AnsiSequence::SetCol132)));
}

#[test]
fn set_smooth_scroll() {
    assert_eq!(written_back("\u{1b}[?4h"), "\u{1b}[?4h");
    assert_eq!(parse_escape("\u{1b}[?4h"), Ok(("", AnsiSequence::SetSmoothScroll)));
}

#[test]
fn set_reverse_video() {
    assert_eq!(written_back("\u{1b}[?5h"), "\u{1b}[?5h");
    assert_eq!(parse_escape("\u{1b}[?5h"), Ok(("", AnsiSequence::SetReverseVideo)));
}

#[test]
fn set_origin_rel() {
    assert_eq!(written_back("\u{1b}[?6h"), "\u{1b}[?6h");
    assert_eq!(
        parse_escape("\u{1b}[?6h"),
        Ok(("", AnsiSequence::SetOriginRelative))
    );
}

#[test]
fn set_auto_wrap() {
    assert_eq!(written_back("\u{1b}[?7h"), "\u{1b}[?7h");
    assert_eq!(parse_escape("\u{1b}[?7h"), Ok(("", AnsiSequence::SetAutoWrap)));
}

#[test]
fn set_auto_repeat() {
    assert_eq!(written_back("\u{1b}[?8h"), "\u{1b}[?8h");
    assert_eq!(parse_escape("\u{1b}[?8h"), Ok(("", AnsiSequence::SetAutoRepeat)));
}

#[test]
fn set_interlacing() {
    assert_eq!(written_back("\u{1b}[?9h"), "\u{1b}[?9h");
    assert_eq!(parse_escape("\u{1b}[?9h"), Ok(("", AnsiSequence::SetInterlacing)));
}

#[test]
fn set_cursor_key_to_cursor() {
    assert_eq!(written_back("\u{1b}[?1l"), "\u{1b}[?1l");
    assert_eq!(
        parse_escape("\u{1b}[?1l"),
        Ok(("", AnsiSequence::SetCursorKeyToCursor))
    );
}

#[test]
fn set_linefeed() {
    assert_eq!(written_back("\u{1b}[20l"), "\u{1b}[20l");
    assert_eq!(parse_escape("\u{1b}[20l"), Ok(("", AnsiSequence::SetLineFeedMode)));
}

#[test]
fn set_vt52() {
    assert_eq!(written_back("\u{1b}[?2l"), "\u{1b}[?2l");
    assert_eq!(parse_escape("\u{1b}[?2l"), Ok(("", AnsiSequence::SetVT52)));
}

#[test]
fn set_col80() {
    assert_eq!(written_back("\u{1b}[?3l"), "\u{1b}[?3l");
    assert_eq!(parse_escape("\u{1b}[?3l"), Ok(("", AnsiSequence::SetCol80)));
}

#[test]
fn set_jump_scroll() {
    assert_eq!(written_back("\u{1b}[?4l"), "\u{1b}[?4l");
    assert_eq!(parse_escape("\u{1b}[?4l"), Ok(("", AnsiSequence::SetJumpScrolling)));
}

#[test]
fn set_normal_video() {
    assert_eq!(written_back("\u{1b}[?5l"), "\u{1b}[?5l");
    assert_eq!(parse_escape("\u{1b}[?5l"), Ok(("", AnsiSequence::SetNormalVideo)));
}

#[test]
fn set_origin_abs() {
    assert_eq!(written_back("\u{1b}[?6l"), "\u{1b}[?6l");
    assert_eq!(
        parse_escape("\u{1b}[?6l"),
        Ok(("", AnsiSequence::SetOriginAbsolute))
    );
}

#[test]
fn reset_auto_wrap() {
    assert_eq!(written_back("\u{1b}[?7l"), "\u{1b}[?7l");
    assert_eq!(parse_escape("\u{1b}[?7l"), Ok(("", AnsiSequence::ResetAutoWrap)));
}

#[test]
fn reset_auto_repeat() {
    assert_eq!(written_back("\u{1b}[?8l"), "\u{1b}[?8l");
    assert_eq!(parse_escape("\u{1b}[?8l"), Ok(("", AnsiSequence::ResetAutoRepeat)));
}

#[test]
fn reset_interlacing() {
    assert_eq!(written_back("\u{1b}[?9l"), "\u{1b}[?9l");
    assert_eq!(
        parse_escape("\u{1b}[?9l"),
        Ok(("", AnsiSequence::ResetInterlacing))
    );
}

#[test]
fn set_alternate_keypad() {
    assert_eq!(written_back("\u{1b}="), "\u{1b}=");
    assert_eq!(parse_escape("\u{1b}="), Ok(("", AnsiSequence::SetAlternateKeypad)));
}

#[test]
fn set_numeric_keypad() {
    assert_eq!(written_back("\u{1b}>"), "\u{1b}>");
    assert_eq!(parse_escape("\u{1b}>"), Ok(("", AnsiSequence::SetNumericKeypad)));
}

#[test]
fn set_uk_g0() {
    assert_eq!(written_back("\u{1b}(A"), "\u{1b}(A");
    assert_eq!(parse_escape("\u{1b}(A"), Ok(("", AnsiSequence::SetUKG0)));
}

#[test]
fn set_uk_g1() {
    assert_eq!(written_back("\u{1b})A"), "\u{1b})A");
    assert_eq!(parse_escape("\u{1b})A"), Ok(("", AnsiSequence::SetUKG1)));
}

#[test]
fn set_us_g0() {
    assert_eq!(written_back("\u{1b}(B"), "\u{1b}(B");
    assert_eq!(parse_escape("\u{1b}(B"), Ok(("", AnsiSequence::SetUSG0)));
}

#[test]
fn set_us_g1() {
    assert_eq!(written_back("\u{1b})B"), "\u{1b})B");
    assert_eq!(parse_escape("\u{1b})B"), Ok(("", AnsiSequence::SetUSG1)));
}

#[test]
fn set_g0_special() {
    assert_eq!(written_back("\u{1b}(0"), "\u{1b}(0");
    assert_eq!(parse_escape("\u{1b}(0"), Ok(("", AnsiSequence::SetG0SpecialChars)));
}

#[test]
fn set_g1_special() {
    assert_eq!(written_back("\u{1b})0"), "\u{1b})0");
    assert_eq!(parse_escape("\u{1b})0"), Ok(("", AnsiSequence::SetG1SpecialChars)));
}

#[test]
fn set_g0_alternate() {
    assert_eq!(written_back("\u{1b}(1"), "\u{1b}(1");
    assert_eq!(
        parse_escape("\u{1b}(1"),
        Ok(("", AnsiSequence::SetG0AlternateChar))
    );
}

#[test]
fn set_g1_alternate() {
    assert_eq!(written_back("\u{1b})1"), "\u{1b})1");
    assert_eq!(
        parse_escape("\u{1b})1"),
        Ok(("", AnsiSequence::SetG1AlternateChar))
    );
}

#[test]
fn set_g0_graph() {
    assert_eq!(written_back("\u{1b}(2"), "\u{1b}(2");
    assert_eq!(
        parse_escape("\u{1b}(2"),
        Ok(("", AnsiSequence::SetG0AltAndSpecialGraph))
    );
}

#[test]
fn set_g1_graph() {
    assert_eq!(written_back("\u{1b})2"), "\u{1b})2");
    assert_eq!(
        parse_escape("\u{1b})2"),
        Ok(("", AnsiSequence::SetG1AltAndSpecialGraph))
    );
}

#[test]
fn set_single_shift2() {
    assert_eq!(written_back("\u{1b}N"), "\u{1b}N");
    assert_eq!(parse_escape("\u{1b}N"), Ok(("", AnsiSequence::SetSingleShift2)));
}

#[test]
fn set_single_shift3() {
    assert_eq!(written_back("\u{1b}O"), "\u{1b}O");
    assert_eq!(parse_escape("\u{1b}O"), Ok(("", AnsiSequence::SetSingleShift3)));
}

#[test]
fn escape_twice_is_the_escape_sequence() {
    assert_eq!(written_back("\u{1b}\u{1b}"), "\u{1b}\u{1b}");
    assert_eq!(
        parse_escape("\u{1b}\u{1b}[1m"),
        Ok(("[1m", AnsiSequence::Escape))
    );
}

#[test]
fn text_without_introducer_is_no_escape() {
    assert_eq!(parse_escape(""), Err(ParseError::NotEscape));
    assert_eq!(parse_escape("[1m"), Err(ParseError::NotEscape));
    assert_eq!(parse_escape("a\u{1b}[1m"), Err(ParseError::NotEscape));
}

#[test]
fn introducer_without_a_known_sequence_is_unrecognized() {
    assert_eq!(parse_escape("\u{1b}"), Err(ParseError::Unrecognized));
    assert_eq!(parse_escape("\u{1b}["), Err(ParseError::Unrecognized));
    assert_eq!(parse_escape("\u{1b}[12"), Err(ParseError::Unrecognized));
    assert_eq!(parse_escape("\u{1b}[12;"), Err(ParseError::Unrecognized));
    assert_eq!(parse_escape("\u{1b}[1x"), Err(ParseError::Unrecognized));
    assert_eq!(parse_escape("\u{1b}[?25x"), Err(ParseError::Unrecognized));
    assert_eq!(parse_escape("\u{1b}[?025h"), Err(ParseError::Unrecognized));
    assert_eq!(parse_escape("\u{1b}[J"), Err(ParseError::Unrecognized));
    assert_eq!(parse_escape("\u{1b}(C"), Err(ParseError::Unrecognized));
    assert_eq!(parse_escape("\u{1b}[1;2;3H"), Err(ParseError::Unrecognized));
}

#[test]
fn the_rest_is_what_follows_the_sequence() {
    assert_eq!(
        parse_escape("\u{1b}[12;34Hrest\u{1b}[1m"),
        Ok(("rest\u{1b}[1m", AnsiSequence::CursorPos(12, 34)))
    );
    assert_eq!(
        parse_escape("\u{1b}[3Aé"),
        Ok(("é", AnsiSequence::CursorUp(3)))
    );
    assert_eq!(
        parse_escape("\u{1b}[2J2J"),
        Ok(("2J", AnsiSequence::EraseDisplay))
    );
}

#[test]
fn numbers_may_begin_with_zeros() {
    assert_eq!(parse_escape("\u{1b}[007A"), Ok(("", AnsiSequence::CursorUp(7))));
    assert_eq!(parse_escape("\u{1b}[0A"), Ok(("", AnsiSequence::CursorUp(0))));
    assert_eq!(
        parse_escape("\u{1b}[00;000H"),
        Ok(("", AnsiSequence::CursorPos(0, 0)))
    );
    assert_eq!(written_back("\u{1b}[007A"), "\u{1b}[7A");
    assert_eq!(written_back("\u{1b}[0A"), "\u{1b}[0A");
}

#[test]
fn numbers_must_fit_32_bits() {
    assert_eq!(
        parse_escape("\u{1b}[4294967295A"),
        Ok(("", AnsiSequence::CursorUp(4294967295)))
    );
    assert_eq!(
        parse_escape("\u{1b}[4294967296A"),
        Err(ParseError::Unrecognized)
    );
    assert_eq!(
        parse_escape("\u{1b}[99999999999999999999999999H"),
        Err(ParseError::Unrecognized)
    );
    assert_eq!(
        parse_escape("\u{1b}[1;4294967296H"),
        Err(ParseError::Unrecognized)
    );
    assert_eq!(
        parse_escape("\u{1b}[4294967296m"),
        Err(ParseError::Unrecognized)
    );
    assert_eq!(written_back("\u{1b}[4294967295A"), "\u{1b}[4294967295A");
}

#[test]
fn render_gives_the_bytes_of_the_text() {
    assert_eq!(
        AnsiSequence::CursorPos(10, 5).render(),
        b"\x1b[10;5H".to_vec()
    );
    assert_eq!(AnsiSequence::SetMode(0).render(), b"\x1b[=0h".to_vec());
    assert_eq!(
        AnsiSequence::SetGraphicsMode(vec![0, 10, 200]).render(),
        b"\x1b[0;10;200m".to_vec()
    );
    assert_eq!(AnsiSequence::Escape.render(), b"\x1b\x1b".to_vec());
    assert_eq!(AnsiSequence::HideCursor.fixed_bytes(), b"[?25l");
    assert_eq!(AnsiSequence::CursorUp(3).fixed_bytes(), b"");
}
