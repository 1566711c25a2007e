//! The textual description parser on concrete inputs.

use game_of_life::parse::ParseError;
use game_of_life::parse::parse_screen;
use game_of_life::parse::parse_usize;

#[test]
fn parses_the_blinker_description() {
    let g = parse_screen(b"3 3\n @ \n @ \n @ \n").expect("must parse");
    assert_eq!(g.width(), 3);
    assert_eq!(g.height(), 3);
    for y in 0..3 {
        for x in 0..3 {
            assert_eq!(g.at(x, y), x == 1, "wrong cell at ({x}, {y})");
        }
    }
}

#[test]
fn missing_rows_and_short_lines_are_dead() {
    let g = parse_screen(b"3 3\n@\n").expect("must parse");
    for y in 0..3 {
        for x in 0..3 {
            assert_eq!(g.at(x, y), x == 0 && y == 0);
        }
    }
}

#[test]
fn no_body_at_all_is_all_dead() {
    let g = parse_screen(b"2 2\n").expect("must parse");
    for y in 0..2 {
        for x in 0..2 {
            assert!(!g.at(x, y));
        }
    }
    let g = parse_screen(b"2 2").expect("must parse");
    assert_eq!(g.width(), 2);
    assert!(!g.at(1, 1));
}

#[test]
fn characters_beyond_the_declared_width_are_ignored() {
    let g = parse_screen(b"2 1\n@@xy\n").expect("must parse");
    assert!(g.at(0, 0));
    assert!(g.at(1, 0));
}

#[test]
fn lines_beyond_the_declared_height_are_ignored() {
    let g = parse_screen(b"1 1\n@\nnot a row\n").expect("must parse");
    assert!(g.at(0, 0));
}

#[test]
fn carriage_returns_belong_to_the_line_break() {
    let g = parse_screen(b"2 2\r\n@@\r\n @\r\n").expect("must parse");
    assert!(g.at(0, 0));
    assert!(g.at(1, 0));
    assert!(!g.at(0, 1));
    assert!(g.at(1, 1));
}

#[test]
fn header_may_carry_extra_tokens() {
    let g = parse_screen(b"2 1 trailing words\n@ \n").expect("must parse");
    assert_eq!(g.width(), 2);
    assert_eq!(g.height(), 1);
}

#[test]
fn empty_description_is_missing_header() {
    assert!(matches!(parse_screen(b""), Err(ParseError::MissingHeader)));
}

#[test]
fn lone_width_is_missing_height() {
    assert!(matches!(parse_screen(b"5"), Err(ParseError::MissingHeight)));
    assert!(matches!(parse_screen(b"5\n@@@@@\n"), Err(ParseError::MissingHeight)));
}

#[test]
fn bad_width_token_is_invalid_number() {
    assert!(matches!(parse_screen(b"a 3\n"), Err(ParseError::InvalidNumber)));
    assert!(matches!(parse_screen(b"\n@@\n"), Err(ParseError::InvalidNumber)));
    assert!(matches!(parse_screen(b"-2 3\n"), Err(ParseError::InvalidNumber)));
}

#[test]
fn bad_height_token_is_invalid_number() {
    assert!(matches!(parse_screen(b"3 b\n"), Err(ParseError::InvalidNumber)));
    assert!(matches!(parse_screen(b"3 \n"), Err(ParseError::InvalidNumber)));
}

#[test]
fn oversized_dimension_is_number_too_large() {
    assert!(matches!(parse_screen(b"99999999999999999999999999 3\n"), Err(ParseError::NumberTooLarge)));
    assert!(matches!(parse_screen(b"3 99999999999999999999999999\n"), Err(ParseError::NumberTooLarge)));
}

#[test]
fn stray_character_is_invalid_symbol() {
    assert!(matches!(parse_screen(b"2 2\n@x\n"), Err(ParseError::InvalidSymbol(b'x'))));
    // The error names the first offender in reading order.
    assert!(matches!(parse_screen(b"2 2\n@ \nzx\n"), Err(ParseError::InvalidSymbol(b'z'))));
}

#[test]
fn zero_dimensions_parse() {
    let g = parse_screen(b"0 0\n").expect("must parse");
    assert_eq!(g.width(), 0);
    assert_eq!(g.height(), 0);
}

#[test]
fn parse_usize_reads_digits() {
    assert_eq!(parse_usize(b"0"), Ok(0));
    assert_eq!(parse_usize(b"42"), Ok(42));
    assert_eq!(parse_usize(b"18446744073709551615"), Ok(usize::MAX));
}

#[test]
fn parse_usize_rejects_non_numbers() {
    assert_eq!(parse_usize(b""), Err(ParseError::InvalidNumber));
    assert_eq!(parse_usize(b"+5"), Err(ParseError::InvalidNumber));
    assert_eq!(parse_usize(b"4a"), Err(ParseError::InvalidNumber));
    assert_eq!(
        parse_usize(b"18446744073709551616"),
        Err(ParseError::NumberTooLarge)
    );
}
