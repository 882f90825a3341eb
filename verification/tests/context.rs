use tweep::FullContext;
use tweep::PartialContext;
use tweep::Position;
use tweep::PositionKind;
use tweep::SubContextRange;

#[test]
fn test_construction() {
    let owned = "hello".to_string();
    let c = FullContext::from(None, owned);
    assert_eq!(c.get_contents(), "hello");
    assert_eq!(*c.get_file_name(), None);
    assert_eq!(*c.get_start_position(), Position::abs(1, 1));
    assert_eq!(*c.get_end_position(), Position::abs(1, 5));
}

#[test]
fn subcontext() {
    let owned = "Hail Eris".to_string();
    let c = FullContext::from(None, owned);
    assert_eq!(c.get_contents(), "Hail Eris");
    assert_eq!(*c.get_file_name(), None);
    assert_eq!(*c.get_start_position(), Position::abs(1, 1));
    assert_eq!(*c.get_end_position(), Position::abs(1, 9));

    let sub = c.subcontext(SubContextRange::between(Position::rel(1, 6), Position::rel(1, 9)));
    assert_eq!(sub.get_contents(), "Eris");
    assert_eq!(*sub.get_file_name(), None);
    assert_eq!(*sub.get_start_position(), Position::abs(1, 6));
    assert_eq!(*sub.get_end_position(), Position::abs(1, 9));
}

#[test]
fn test_conversion() {
    let contents = "hail eris".to_string();
    let c = FullContext::from(None, contents);
    let partial: PartialContext = c.into();
    assert_eq!(*partial.get_file_name(), None);
    assert_eq!(*partial.get_start_position(), Position::abs(1, 1));
}

#[test]
fn from_subcontext() {
    let name = "name.ext".to_string();
    let contents = "hail eris".to_string();
    let c = FullContext::from(Some(name), contents);
    let sub = c.subcontext(SubContextRange::between(Position::rel(1, 6), Position::rel(2, 3)));
    let partial: PartialContext = sub.into();
    assert_eq!(*partial.get_file_name(), Some("name.ext".to_string()));
    assert_eq!(*partial.get_start_position(), Position::abs(1, 6));
}

#[test]
fn subpositions() {
    let p = Position { line: 2, column: 3, kind: PositionKind::Absolute };
    let sub = p.subposition(1, 1);
    assert_eq!(sub, p);
    let sub = p.subposition(1, 5);
    assert_eq!(sub, Position { line: 2, column: 7, kind: PositionKind::Absolute });
    let sub = p.subposition(4, 5);
    assert_eq!(sub, Position { line: 5, column: 5, kind: PositionKind::Absolute });
    let p = Position { kind: PositionKind::Relative, ..p };
    let sub = p.subposition(1, 1);
    assert_eq!(sub, p);
}

#[test]
fn contents_round_trip() {
    for s in ["", "one line", "two\nlines", "ends with newline\n", "\n\nblank lines\n\n"] {
        let c = FullContext::from(None, s.to_string());
        assert_eq!(c.get_contents(), s);
    }
}

#[test]
fn subcontext_exact_slice() {
    let s = "abcd\nefgh\nijkl".to_string();
    let c = FullContext::from(None, s);
    let sub = c.subcontext(SubContextRange::between(Position::rel(2, 2), Position::rel(3, 3)));
    assert_eq!(sub.get_contents(), "fgh\nijk");
    let sub = c.subcontext(SubContextRange::between(Position::rel(1, 1), Position::rel(1, 4)));
    assert_eq!(sub.get_contents(), "abcd");
    let sub = c.subcontext(SubContextRange::all());
    assert_eq!(sub.get_contents(), "abcd\nefgh\nijkl");
}

#[test]
fn subcontext_exclusive_end() {
    let s = "abcd\nefgh".to_string();
    let c = FullContext::from(None, s);
    let sub = c.subcontext(SubContextRange::before(Position::rel(1, 4)));
    assert_eq!(sub.get_contents(), "abc");
    // An exclusive end at column 1 steps back to the end of the previous line
    let sub = c.subcontext(SubContextRange::before(Position::rel(2, 1)));
    assert_eq!(sub.get_contents(), "abcd");
}

#[test]
fn byte_range() {
    let s = "ab\ncd".to_string();
    let c = FullContext::from(None, s);
    let sub = c.subcontext(SubContextRange::between(Position::rel(2, 1), Position::rel(2, 2)));
    assert_eq!(sub.get_byte_range(), (3, 5));
}
