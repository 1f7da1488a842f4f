use battleship::geometry::{Coord, GameError, Orientation};
use battleship::text::{is_whitespace, parse_coord};

#[test]
fn parses_the_canonical_form() {
    assert_eq!(parse_coord("(1, 1)"), Ok(Coord { x: 0, y: 0 }));
    assert_eq!(parse_coord("(8, 8)"), Ok(Coord { x: 7, y: 7 }));
    assert_eq!(parse_coord("(4, 5)"), Ok(Coord { x: 3, y: 4 }));
}

#[test]
fn white_space_is_ignored_everywhere() {
    assert_eq!(parse_coord("  ( 2 ,\t7 ) \n"), Ok(Coord { x: 1, y: 6 }));
    assert_eq!(parse_coord("(2,7)"), Ok(Coord { x: 1, y: 6 }));
    assert_eq!(parse_coord("(\u{a0}3,\u{3000}3)"), Ok(Coord { x: 2, y: 2 }));
}

#[test]
fn a_plus_sign_and_leading_zeros_are_read() {
    assert_eq!(parse_coord("(+3, 007)"), Ok(Coord { x: 2, y: 6 }));
}

#[test]
fn numbers_out_of_range_are_rejected() {
    assert_eq!(parse_coord("(9, 6)"), Err(GameError::ParseError));
    assert_eq!(parse_coord("(0, 1)"), Err(GameError::ParseError));
    assert_eq!(parse_coord("(1, 0)"), Err(GameError::ParseError));
    assert_eq!(parse_coord("(-1, 2)"), Err(GameError::ParseError));
    assert_eq!(parse_coord("(10, 2)"), Err(GameError::ParseError));
    assert_eq!(parse_coord("(1, 18)"), Err(GameError::ParseError));
}

#[test]
fn malformed_text_is_rejected() {
    for s in [
        "", "()", "(,)", "1, 2", "(1 2)", "(1, 2", "1, 2)", "(1, 2) x", "x(1, 2)", "(1, 2))",
        "((1, 2)", "(1,, 2)", "(1, 2, 3)", "(a, 2)", "(1, b)", "(+, 1)", "(1, +)", "(1.0, 2)",
        "[1, 2]", "(١, 2)",
    ] {
        assert_eq!(parse_coord(s), Err(GameError::ParseError), "{:?}", s);
    }
}

#[test]
fn from_str_reads_as_parse_coord_does() {
    assert_eq!("(3, 4)".parse::<Coord>(), Ok(Coord { x: 2, y: 3 }));
    assert_eq!("3, 4".parse::<Coord>(), Err(GameError::ParseError));
}

#[test]
fn text_round_trip_over_the_whole_board() {
    for x in 0..8 {
        for y in 0..8 {
            let c = Coord { x, y };
            let text = c.to_text().unwrap();
            assert_eq!(text, format!("({}, {})", x + 1, y + 1));
            let back = parse_coord(&text).unwrap();
            assert_eq!(back, c);
            assert_eq!(back.to_text().unwrap(), text);
        }
    }
}

#[test]
fn off_board_coordinates_have_no_text() {
    assert_eq!(Coord { x: 8, y: 0 }.to_text(), None);
    assert_eq!(Coord { x: 0, y: 8 }.to_text(), None);
}

#[test]
fn orientation_words_are_read_after_trimming() {
    assert_eq!(Orientation::parse("Up"), Ok(Orientation::Up));
    assert_eq!(Orientation::parse("Down\n"), Ok(Orientation::Down));
    assert_eq!(Orientation::parse("  Left"), Ok(Orientation::Left));
    assert_eq!(Orientation::parse("\tRight \r\n"), Ok(Orientation::Right));
}

#[test]
fn other_orientation_text_is_rejected() {
    for s in ["", "   ", "up", "UP", "Upp", "U p", "Up Up", "Down.", "Lef", "Rightt", "North"] {
        assert_eq!(Orientation::parse(s), Err(GameError::ParseError), "{:?}", s);
    }
}

#[test]
fn orientation_names_round_trip() {
    for o in [Orientation::Up, Orientation::Down, Orientation::Left, Orientation::Right] {
        assert_eq!(Orientation::parse(o.name()), Ok(o));
    }
    assert_eq!(Orientation::Up.name(), "Up");
    assert_eq!(Orientation::Down.name(), "Down");
    assert_eq!(Orientation::Left.name(), "Left");
    assert_eq!(Orientation::Right.name(), "Right");
}

#[test]
fn white_space_agrees_with_the_standard_library() {
    let mut code: u32 = 0;
    while code <= 0x3100 {
        if let Some(c) = char::from_u32(code) {
            assert_eq!(is_whitespace(c), c.is_whitespace(), "{:x}", code);
        }
        code += 1;
    }
}
