use wasd::ast::Span;
use wasd::driver::source_loc::{locate, LineCol};

#[test]
fn locates_a_span_on_the_first_line() {
    let source = "PROGRAM Foo;\nBEGIN\nEND.\n";
    let span = Span::new(8, 11); // "Foo"
    let loc = locate(source, span);
    assert_eq!(loc.start, LineCol { line: 1, column: 9 });
    assert_eq!(loc.end, LineCol { line: 1, column: 12 });
    assert_eq!(loc.line_text, "PROGRAM Foo;");
}

#[test]
fn locates_a_span_on_a_later_line() {
    let source = "PROGRAM Foo;\nVAR\n    x: INTEGER;\nBEGIN\nEND.\n";
    // "x" on line 3.
    let offset = source.find('x').unwrap() as u32;
    let span = Span::new(offset, offset + 1);
    let loc = locate(source, span);
    assert_eq!(loc.start.line, 3);
    assert_eq!(loc.line_text, "    x: INTEGER;");
}

#[test]
fn clamps_a_span_past_the_end_of_source() {
    let source = "PROGRAM Foo;";
    let span = Span::new(100, 200);
    let loc = locate(source, span);
    assert_eq!(loc.start.line, 1);
    assert_eq!(loc.start.column, source.len() + 1);
}

#[test]
fn line_text_drops_a_carriage_return_before_the_line_break() {
    let source = "PROGRAM Foo;\r\nBEGIN\r\nEND.";
    let offset = source.find("BEGIN").unwrap() as u32;
    let loc = locate(source, Span::new(offset, offset + 5));
    assert_eq!(loc.start, LineCol { line: 2, column: 1 });
    assert_eq!(loc.end, LineCol { line: 2, column: 6 });
    assert_eq!(loc.line_text, "BEGIN");
}

#[test]
fn columns_count_characters_not_bytes() {
    let source = "{ é } x";
    let offset = source.find('x').unwrap() as u32;
    let loc = locate(source, Span::new(offset, offset + 1));
    assert_eq!(loc.start, LineCol { line: 1, column: 7 });
}

#[test]
fn a_span_after_a_final_line_break_has_an_empty_line_text() {
    let source = "END.\n";
    let loc = locate(source, Span::new(5, 5));
    assert_eq!(loc.start, LineCol { line: 2, column: 1 });
    assert_eq!(loc.line_text, "");
}
