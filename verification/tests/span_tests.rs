use tram::span::{ParseError, Span};

#[test]
fn construction() {
    let e = Span::empty();
    assert_eq!((e.start, e.end), (0, 0));
    let s = Span::new(3, 7);
    assert_eq!((s.start, s.end), (3, 7));
    let d: Span = Default::default();
    assert_eq!((d.start, d.end), (0, 0));
}

#[test]
fn exact_range_clamps_to_source() {
    let s = Span::new(3, 7);
    assert_eq!(s.exact_range(100), (3, 7));
    // an end beyond the source is pulled back
    assert_eq!(s.exact_range(5), (3, 4));
    // a start beyond the clamped end is pulled back too
    let t = Span::new(50, 60);
    assert_eq!(t.exact_range(10), (8, 9));
}

#[test]
fn surrounding_range_gives_context() {
    let s = Span::new(15, 20);
    assert_eq!(s.surrounding_range(100), (5, 30));
    // clamped at the left edge
    let t = Span::new(3, 7);
    assert_eq!(t.surrounding_range(100), (0, 17));
    // clamped at the right edge
    assert_eq!(s.surrounding_range(22), (5, 21));
}

#[test]
fn diagnostics_carry_span_and_message() {
    let e = ParseError { span: Span::new(1, 2), message: "boom" };
    assert_eq!(e.span.start, 1);
    assert_eq!(e.message, "boom");
}
