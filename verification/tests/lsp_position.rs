use wasd::ast::Span;
use wasd::lsp::position::{offset_to_position, span_to_range, Position};

#[test]
fn ascii_only_source_maps_byte_offsets_to_line_and_character() {
    let source = "PROGRAM Foo;\nBEGIN\nEND.\n";
    // "Foo" starts at byte 8, ends at byte 11.
    let pos = offset_to_position(source, 8);
    assert_eq!(pos, Position { line: 0, character: 8 });

    let pos_end = offset_to_position(source, 11);
    assert_eq!(pos_end, Position { line: 0, character: 11 });

    // "END" is on line 2 (0-based), starting at byte 19.
    let end_offset = source.find("END").unwrap();
    let pos = offset_to_position(source, end_offset);
    assert_eq!(pos, Position { line: 2, character: 0 });
}

#[test]
fn multibyte_comment_does_not_shift_later_ascii_positions() {
    // "こんにちは" is 5 characters, each within the BMP (1 UTF-16 unit
    // each) but 3 bytes each in UTF-8, so byte and UTF-16 offsets
    // diverge sharply here.
    let source = "{ こんにちは }\nVAR x: INTEGER;\n";
    let x_byte_offset = source.find('x').unwrap();
    let pos = offset_to_position(source, x_byte_offset);
    // Line 1 (0-based), "VAR " is 4 UTF-16 units in.
    assert_eq!(pos, Position { line: 1, character: 4 });
}

#[test]
fn astral_character_counts_as_two_utf16_code_units() {
    // U+1F600 (😀) lies outside the BMP: 4 bytes in UTF-8, but 2
    // UTF-16 code units (a surrogate pair).
    let source = "{ 😀 }\nx";
    let x_byte_offset = source.find('x').unwrap();
    let pos = offset_to_position(source, x_byte_offset);
    // "{ " (2) + the emoji (2 UTF-16 units) + " }" (2) = 6 units on line 0.
    assert_eq!(pos, Position { line: 1, character: 0 });

    let emoji_byte_offset = source.find('😀').unwrap();
    let pos = offset_to_position(source, emoji_byte_offset);
    assert_eq!(pos, Position { line: 0, character: 2 });
}

#[test]
fn clamps_an_offset_past_the_end_of_source() {
    let source = "PROGRAM Foo;";
    let pos = offset_to_position(source, 1000);
    assert_eq!(pos, Position { line: 0, character: source.chars().count() as u32 });
}

#[test]
fn span_to_range_converts_both_endpoints() {
    let source = "PROGRAM Foo;\nBEGIN\nEND.\n";
    let span = Span::new(8, 11);
    let range = span_to_range(source, span);
    assert_eq!(range.start, Position { line: 0, character: 8 });
    assert_eq!(range.end, Position { line: 0, character: 11 });
}

#[test]
fn an_offset_inside_a_character_moves_back_to_its_start() {
    let source = "a€b";
    // '€' takes bytes 1..4; byte 2 lies inside it.
    assert_eq!(offset_to_position(source, 2), Position { line: 0, character: 1 });
    assert_eq!(offset_to_position(source, 4), Position { line: 0, character: 2 });
}
