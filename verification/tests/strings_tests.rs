use websorcery::strings::BoundsError;
use websorcery::strings::SourceView;
use websorcery::strings::StringView;

#[test]
fn new() {
    let s = StringView::new("Hallo");

    assert_eq!(s.original, "Hallo");
    assert_eq!(s.from, 0);
    assert_eq!(s.to, "Hallo".chars().count() - 1);
}

#[test]
fn from_string() {
    let s = StringView::from_string("Hallo", 1, 3);

    assert_eq!(s.original, "Hallo");
    assert_eq!(s.from, 1);
    assert_eq!(s.to, 3);
}

#[test]
fn cut_full() {
    let s = "Hallo";
    let view = StringView::new(s);

    assert_eq!(s, view.cut());
}

#[test]
fn equals() {
    let s1 = StringView::from_string("Hallo", 1, 3);
    let s2 = StringView::from_string("Hallo", 1, 3);

    assert_eq!(s1, s2);
}

#[test]
fn substring() {
    let string = "Hallo ich bin ein String";
    let stringview = StringView::new(string);
    let substringview1 = stringview.substring(5, 10).unwrap();
    let substring = &string[5..=10];

    assert_eq!(substringview1.cut(), substring);
}

#[test]
fn next() {
    let mut source = SourceView::from_string("Hallo");
    assert_eq!(source.next().unwrap(), 'H');
    assert_eq!(source.next().unwrap(), 'a');
    assert_eq!(source.next().unwrap(), 'l');
    assert_eq!(source.next().unwrap(), 'l');
    assert_eq!(source.next().unwrap(), 'o');

    match source.next() {
        Some(_) => panic!("no character left. Sould be Option::None"),
        None => {}
    }
}

#[test]
fn clone_ranged() {
    let source1 = SourceView::from_string("0123456789");
    let source2 = source1.clone_ranged(3, 6).unwrap();
    let view = source1.view.substring(3, 6).unwrap();

    assert_eq!(view.cut(), source2.view.cut());
}

#[test]
fn iterator() {
    let mut source = SourceView::from_string("Hallo");
    let mut counter = 0;
    while source.next().is_some() {
        counter = counter + 1;
    }

    assert_eq!(counter, 5);
}

#[test]
fn narrow_out_of_bounds_is_error() {
    let view = StringView::new("Hallo");
    assert_eq!(view.substring(3, 99), Err(BoundsError::ToOutOfRange));
    assert_eq!(view.substring(99, 100), Err(BoundsError::FromOutOfRange));
    assert_eq!(view.substring(3, 1), Err(BoundsError::Inverted));

    let narrow = StringView::new("Hallo").substring(1, 2).unwrap();
    assert_eq!(narrow.substring(0, 3), Err(BoundsError::OutsideWindow));
}

#[test]
fn narrow_of_empty_buffer_is_error() {
    let view = StringView::new("");
    assert_eq!(view.from, 0);
    assert_eq!(view.to, 0);
    assert!(view.is_empty());
    assert_eq!(view.cut(), "");
    assert_eq!(view.char_at(0), None);
    assert!(view.substring(0, 0).is_err());
}

#[test]
fn char_at_inside_and_outside() {
    let view = StringView::new("Hallo").substring(1, 3).unwrap();
    assert_eq!(view.char_at(0), Some('a'));
    assert_eq!(view.char_at(2), Some('l'));
    assert_eq!(view.char_at(3), None);
}

#[test]
fn show_slice_clamps_margins() {
    let string = "Hallo ich bin ein String";
    let view = StringView::new(string).substring(6, 8).unwrap();
    assert_eq!(view.show_slice(2), "...o [ich] ...");
    let whole = StringView::new("abc");
    assert_eq!(whole.show_slice(10), "...[abc]...");
}

#[test]
fn current_and_reset() {
    let mut source = SourceView::from_string("ab\ncd");
    assert_eq!(source.current(), None);
    source.next();
    source.next();
    assert_eq!(source.current(), Some('b'));
    assert_eq!(source.position.line, 0);
    assert_eq!(source.position.column, 2);
    source.next();
    assert_eq!(source.position.line, 1);
    assert_eq!(source.position.column, 0);
    source.reset();
    assert_eq!(source.current(), None);
    assert_eq!(source.next(), Some('a'));
}

#[test]
fn next_clamps_after_exhaustion() {
    let mut source = SourceView::from_string("x");
    assert_eq!(source.next(), Some('x'));
    assert_eq!(source.next(), None);
    assert_eq!(source.cursor, 1);
    assert_eq!(source.next(), None);
    assert_eq!(source.cursor, 1);
}

#[test]
fn decimal_rendering() {
    assert_eq!(websorcery::strings::usize_to_decimal(0), "0");
    assert_eq!(websorcery::strings::usize_to_decimal(7), "7");
    assert_eq!(websorcery::strings::usize_to_decimal(3051), "3051");
}

#[test]
fn str_eq_compares_characters() {
    assert!(websorcery::strings::str_eq("IMPORT", "IMPORT"));
    assert!(!websorcery::strings::str_eq("IMPORT", "import"));
    assert!(!websorcery::strings::str_eq("IMPORT", "IMPORTX"));
}
