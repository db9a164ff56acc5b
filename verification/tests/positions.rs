use robine::positions::{floor_char_boundary, line_column, offset_at, position_at, Position};

#[test]
fn utf16_positions_handle_non_bmp_text() {
    let source = "a👩🏽‍💻b\nx";
    let byte_of_b = source.find('b').expect("b");
    assert_eq!(position_at(source, byte_of_b), Position::new(0, 8));
    assert_eq!(offset_at(source, Position::new(0, 8)), byte_of_b);
}

#[test]
fn positions_clamp_into_the_text_and_onto_characters() {
    let source = "é\nab";
    assert_eq!(floor_char_boundary(source, 1), 0);
    assert_eq!(floor_char_boundary(source, 2), 2);
    assert_eq!(floor_char_boundary(source, 99), source.len());
    assert_eq!(position_at(source, 1), Position::new(0, 0));
    assert_eq!(position_at(source, 99), Position::new(1, 2));
    assert_eq!(position_at(source, 3), Position::new(1, 0));
}

#[test]
fn offsets_stop_inside_a_surrogate_pair_at_its_character() {
    let source = "a😀b\nxy";
    assert_eq!(offset_at(source, Position::new(0, 0)), 0);
    assert_eq!(offset_at(source, Position::new(0, 1)), 1);
    assert_eq!(offset_at(source, Position::new(0, 2)), 1);
    assert_eq!(offset_at(source, Position::new(0, 3)), 5);
    assert_eq!(offset_at(source, Position::new(0, 40)), 6);
    assert_eq!(offset_at(source, Position::new(1, 1)), 8);
    assert_eq!(offset_at(source, Position::new(5, 0)), source.len());
}

#[test]
fn command_line_columns_count_characters() {
    let source = "ab\nçd";
    assert_eq!(line_column(source, 0), (0, 0));
    assert_eq!(line_column(source, 2), (0, 2));
    assert_eq!(line_column(source, 5), (1, 1));
    assert_eq!(line_column(source, 50), (1, 2));
}
