use texlab::syntax::text::{CharStream, Position, Range, Span};

#[test]
fn test_peek() {
    let mut stream = CharStream::new("ab\nc");
    assert_eq!(Some('a'), stream.peek());
    assert_eq!(Some('a'), stream.next());
    assert_eq!(Some('b'), stream.peek());
    assert_eq!(Some('b'), stream.next());
    assert_eq!(Some('\n'), stream.peek());
    assert_eq!(Some('\n'), stream.next());
    assert_eq!(Some('c'), stream.peek());
    assert_eq!(Some('c'), stream.next());
    assert_eq!(None, stream.peek());
    assert_eq!(None, stream.next());
}

#[test]
fn test_span() {
    let mut stream = CharStream::new("abc\ndef");
    stream.next();
    stream.start_span();
    stream.next();
    stream.next();
    let span = stream.end_span();
    assert_eq!(
        Span::new(
            Range::new(Position::new(0, 1), Position::new(0, 3)),
            "bc".to_owned()
        ),
        span
    );
    assert_eq!(Position::new(0, 1), span.start());
    assert_eq!(Position::new(0, 3), span.end());
}

#[test]
fn test_span_unicode() {
    let mut stream = CharStream::new("😀😃😄😁");
    stream.next();
    stream.start_span();
    stream.next();
    stream.next();
    let span = stream.end_span();
    assert_eq!(
        Span::new(
            Range::new(Position::new(0, 1), Position::new(0, 3)),
            "😃😄".to_owned()
        ),
        span
    );
}

#[test]
fn test_satifies() {
    let mut stream = CharStream::new("aBc");
    assert_eq!(true, stream.satifies(|c| c.is_lowercase()));
    stream.next();
    assert_eq!(false, stream.satifies(|c| c.is_lowercase()));
}

#[test]
fn test_skip_rest_of_line() {
    let mut stream = CharStream::new("abc\ndef");
    stream.skip_rest_of_line();
    assert_eq!(Some('d'), stream.next());
    stream.skip_rest_of_line();
    assert_eq!(None, stream.next());
    stream.skip_rest_of_line();
    assert_eq!(None, stream.next());
}

#[test]
fn test_seek() {
    let mut stream = CharStream::new("abc\ndefghi");
    let pos = Position::new(1, 2);
    stream.seek(pos);
    assert_eq!(Some('f'), stream.peek());
}

#[test]
fn seek_stops_at_the_end_of_the_text() {
    let mut stream = CharStream::new("ab\nc");
    stream.seek(Position::new(5, 0));
    assert_eq!(None, stream.peek());
    stream.start_span();
    let span = stream.end_span();
    assert_eq!(Span::new(Range::new(Position::new(1, 1), Position::new(1, 1)), String::new()), span);
}

#[test]
fn seek_never_goes_back() {
    let mut stream = CharStream::new("ab\ncd");
    stream.seek(Position::new(1, 1));
    assert_eq!(Some('d'), stream.peek());
    stream.seek(Position::new(0, 1));
    assert_eq!(Some('d'), stream.peek());
    // a column past the end of a line leads to the start of the next line
    let mut stream = CharStream::new("ab\ncd");
    stream.seek(Position::new(0, 7));
    assert_eq!(Some('c'), stream.peek());
}

#[test]
fn spans_cross_lines() {
    let mut stream = CharStream::new("a\nbc\nd");
    stream.next();
    stream.start_span();
    stream.skip_rest_of_line();
    stream.skip_rest_of_line();
    let span = stream.end_span();
    assert_eq!(
        Span::new(Range::new(Position::new(0, 1), Position::new(2, 0)), "\nbc\n".to_owned()),
        span
    );
}

#[test]
fn positions_are_ordered_by_line_then_column() {
    assert!(Position::new(0, 9).is_before(&Position::new(1, 0)));
    assert!(Position::new(1, 2).is_before(&Position::new(1, 3)));
    assert!(!Position::new(1, 3).is_before(&Position::new(1, 3)));
    assert!(!Position::new(2, 0).is_before(&Position::new(1, 3)));
    assert!(Position::new(0, 9) < Position::new(1, 0));
}
