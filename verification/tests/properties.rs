use ansi_parser::parsers::{combined, parse_escape_bytes};
use ansi_parser::{parse_escape, AnsiParser, AnsiSequence, Output, ParserIterator};

fn samples() -> Vec<&'static str> {
    vec![
        "",
        "plain",
        "\x1b",
        "\x1b\x1b",
        "\x1b\x1b\x1b",
        "\x1b[",
        "\x1b[H",
        "\x1b[1;1H",
        "\x1b[;H",
        "\x1b[A\x1b[1A",
        "a\x1bb\x1bc",
        "\x1b[=25l\x1b[=7l\x1b[0m\x1b[36m\x1b[1m-`",
        "\x1b[=25l\x1b[=7l\x1b[0m\x1b[36;1;15;2m\x1b[1m-`",
        "\x1b[H\x1b[123456H\x1b[;123456H\x1b[7asd;1234H\x1b[a;sd7H",
        "\x1b\x1b[33mFoobar",
        "héllo\x1b[1mwörld→\x1b[K日本語\x1b",
        "\x1b[99999999999999999999A\x1b[?25h\x1b(0\x1b)B\x1bN\x1b=\x1b>",
        "\x1b[2\x1b[2J\x1b[20\x1b[20h\x1b[?\x1b[?2\x1b[?25\x1b[?25l",
    ]
}

fn written(token: &Output) -> Vec<u8> {
    match token {
        Output::TextBlock(text) => text.as_bytes().to_vec(),
        Output::Escape(seq) => seq.render(),
    }
}

fn written_all(tokens: &[Output]) -> Vec<u8> {
    let mut out = Vec::new();
    for token in tokens {
        out.extend_from_slice(&written(token));
    }
    out
}

#[test]
fn canonical_text_is_kept_byte_for_byte() {
    let canonical = [
        "",
        "plain",
        "\x1b[1;1H",
        "\x1b[10;5Hab\x1b[5A\x1b[5B\x1b[5C\x1b[5D\x1b[s\x1b[u\x1b[2J\x1b[K",
        "\x1b[4m\x1b[4;42m\x1b[4;31;42m\x1b[=13l\x1b[=7hend",
        "\x1b[?25h\x1b[?25l\x1b[?1h\x1b[20h\x1b[?3h\x1b[20l\x1b[?9l",
        "\x1b=\x1b>\x1b(A\x1b)A\x1b(B\x1b)B\x1b(0\x1b)0\x1b(1\x1b)1\x1b(2\x1b)2\x1bN\x1bO",
        "\x1b\x1b\x1b[7asd;1234H\x1b[a;sd7H",
        "héllo\x1b[1mwörld→\x1b[K日本語\x1b",
    ];
    for text in canonical {
        let tokens = text.ansi_parse().collect();
        assert_eq!(written_all(&tokens), text.as_bytes().to_vec());
    }
}

#[test]
fn text_with_defaults_comes_back_in_canonical_form() {
    let tokens = "a\x1b[Hb\x1b[Ac\x1b[;7fd\x1b[007Be".ansi_parse().collect();
    assert_eq!(
        written_all(&tokens),
        b"a\x1b[1;1Hb\x1b[1Ac\x1b[1;7Hd\x1b[7Be".to_vec()
    );
}

#[test]
fn lexing_the_written_tokens_gives_the_same_tokens() {
    for text in samples() {
        let tokens = text.ansi_parse().collect();
        let canonical = String::from_utf8(written_all(&tokens)).unwrap();
        let again = canonical.ansi_parse().collect();
        assert_eq!(tokens, again);
        let twice = String::from_utf8(written_all(&again)).unwrap();
        assert_eq!(canonical, twice);
    }
}

#[test]
fn every_step_takes_at_least_one_byte_and_none_twice() {
    for text in samples() {
        let mut it = ParserIterator::new(text);
        let mut left = text;
        let mut steps = 0;
        loop {
            let before = left;
            match it.next() {
                None => {
                    assert_eq!(before, "");
                    assert_eq!(it.next(), None);
                    break;
                }
                Some(Output::TextBlock(block)) => {
                    assert!(block.len() >= 1);
                    assert!(before.starts_with(block));
                    assert!(!block.as_bytes()[1..].contains(&0x1b));
                    left = &before[block.len()..];
                    assert!(left.is_empty() || left.starts_with('\x1b'));
                    if block.starts_with('\x1b') {
                        assert!(parse_escape(before).is_err());
                        assert!(parse_escape(block).is_err());
                    }
                }
                Some(Output::Escape(seq)) => {
                    let (rest, parsed) = parse_escape(before).unwrap();
                    assert_eq!(parsed, seq);
                    assert!(rest.len() < before.len());
                    let taken = &before[..before.len() - rest.len()];
                    assert_eq!(parse_escape(taken), Ok(("", seq)));
                    left = rest;
                }
            }
            steps += 1;
            assert!(steps <= text.len());
        }
        assert_eq!(steps, text.ansi_parse().collect().len());
    }
}

#[test]
fn writing_out_is_idempotent() {
    let texts = [
        "\x1b[H",
        "\x1b[;5f",
        "\x1b[A",
        "\x1b[0010B",
        "\x1b[C",
        "\x1b[D",
        "\x1b[01;002;0003m",
        "\x1b[=007h",
        "\x1b[?25l",
        "\x1b(0",
        "\x1b\x1b",
    ];
    for text in texts {
        let first = parse_escape(text).unwrap().1;
        let once = first.to_string();
        let (rest, second) = parse_escape(&once).unwrap();
        assert_eq!(rest, "");
        assert_eq!(second, first);
        assert_eq!(second.to_string(), once);
    }
}

#[test]
fn a_left_out_parameter_reads_as_one() {
    assert_eq!(
        parse_escape("\x1b[H").unwrap().1,
        parse_escape("\x1b[1;1H").unwrap().1
    );
    assert_eq!(parse_escape("\x1b[H").unwrap().1, AnsiSequence::CursorPos(1, 1));
    assert_eq!(
        parse_escape("\x1b[A").unwrap().1,
        parse_escape("\x1b[1A").unwrap().1
    );
    assert_eq!(parse_escape("\x1b[A").unwrap().1, AnsiSequence::CursorUp(1));
    assert_eq!(
        parse_escape("\x1b[f").unwrap().1,
        parse_escape("\x1b[1;1f").unwrap().1
    );
    assert_eq!(
        parse_escape("\x1b[;9H").unwrap().1,
        parse_escape("\x1b[1;9H").unwrap().1
    );
    assert_eq!(
        parse_escape("\x1b[9H").unwrap().1,
        parse_escape("\x1b[9;1H").unwrap().1
    );
    for letter in ["B", "C", "D"] {
        let short = format!("\x1b[{}", letter);
        let long = format!("\x1b[1{}", letter);
        assert_eq!(
            parse_escape(&short).unwrap().1,
            parse_escape(&long).unwrap().1
        );
    }
}

#[test]
fn the_dispatch_takes_the_text_after_the_introducer() {
    assert_eq!(combined(b"[5;6Hxyz"), Some((AnsiSequence::CursorPos(5, 6), 5)));
    assert_eq!(combined(b"\x1b"), Some((AnsiSequence::Escape, 1)));
    assert_eq!(combined(b"(0"), Some((AnsiSequence::SetG0SpecialChars, 2)));
    assert_eq!(combined(b"[?25hh"), Some((AnsiSequence::ShowCursor, 5)));
    assert_eq!(combined(b""), None);
    assert_eq!(combined(b"5;6H"), None);
    assert_eq!(combined(b"[5;6"), None);
    assert_eq!(
        parse_escape_bytes(b"\x1b[5;6Hxyz"),
        Some((AnsiSequence::CursorPos(5, 6), 6))
    );
    assert_eq!(parse_escape_bytes(b"[5;6Hxyz"), None);
    assert_eq!(parse_escape_bytes(b"\x1b[5;6"), None);
}

#[test]
fn what_a_match_takes_parses_alone_and_with_anything_after_it() {
    let taken: [&[u8]; 6] = [
        b"\x1b[12;5H",
        b"\x1b[A",
        b"\x1b[1;2;3m",
        b"\x1b[=9l",
        b"\x1b[20h",
        b"\x1b)2",
    ];
    let tails: [&[u8]; 5] = [b"", b"0", b";", b"\x1b", b"Hm"];
    for text in taken {
        let alone = parse_escape_bytes(text);
        assert!(alone.is_some());
        assert_eq!(alone.as_ref().unwrap().1, text.len());
        for tail in tails {
            let mut longer = text.to_vec();
            longer.extend_from_slice(tail);
            assert_eq!(parse_escape_bytes(&longer), alone);
        }
    }
}
