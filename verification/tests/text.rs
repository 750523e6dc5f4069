use tex_of_ocaml::text::{CharClass, Source};

#[test]
fn source_counts_characters_not_bytes() {
    assert_eq!(3, Source::new("été").len());
    assert_eq!(0, Source::new("").len());
}

#[test]
fn scan_stops_at_the_first_character_outside_the_class() {
    let src = Source::new("  ab12 \"q");
    assert_eq!(2, src.scan(0, CharClass::Space));
    assert_eq!(4, src.scan(2, CharClass::Letter));
    assert_eq!(6, src.scan(4, CharClass::Digit));
    assert_eq!(7, src.scan(0, CharClass::Unquoted));
    assert_eq!(9, src.scan(8, CharClass::Unquoted));
    assert_eq!(9, src.scan(9, CharClass::Space));
}

#[test]
fn scan_of_an_empty_run_stays_in_place() {
    let src = Source::new("ab");
    assert_eq!(0, src.scan(0, CharClass::Digit));
    assert_eq!(0, src.scan(0, CharClass::Space));
    assert_eq!(2, src.scan(0, CharClass::Letter));
}

#[test]
fn letters_and_blanks_go_by_unicode() {
    let src = Source::new("λx\u{2003}y");
    assert_eq!(2, src.scan(0, CharClass::Letter));
    assert_eq!(3, src.scan(2, CharClass::Space));
    let src = Source::new("٣3");
    assert_eq!(0, src.scan(0, CharClass::Digit));
    assert_eq!(2, src.scan(1, CharClass::Digit));
}

#[test]
fn has_finds_a_word_where_it_stands() {
    let src = Source::new("a->b");
    assert!(src.has(1, "->"));
    assert!(!src.has(0, "->"));
    assert!(!src.has(3, "->"));
    assert!(src.has(3, "b"));
    assert!(!src.has(4, "b"));
    assert!(src.has(4, ""));
}

#[test]
fn is_word_compares_the_whole_range() {
    let src = Source::new("iffy if");
    assert!(!src.is_word(0, 4, "if"));
    assert!(src.is_word(0, 2, "if"));
    assert!(src.is_word(5, 7, "if"));
    assert!(src.is_word(0, 4, "iffy"));
    assert!(src.is_word(3, 3, ""));
}

#[test]
fn number_reads_base_ten() {
    let src = Source::new("x 120 y");
    assert_eq!(Some(120), src.number(2, 5));
    let src = Source::new("2147483647");
    assert_eq!(Some(2147483647), src.number(0, 10));
    let src = Source::new("2147483648");
    assert_eq!(None, src.number(0, 10));
    let src = Source::new("0000000000017");
    assert_eq!(Some(17), src.number(0, 13));
    let src = Source::new("abc");
    assert_eq!(Some(0), src.number(1, 1));
}

#[test]
fn slice_gives_the_characters_between() {
    let src = Source::new("aé\"b c\"");
    assert_eq!("é\"b", src.slice(1, 4));
    assert_eq!("", src.slice(3, 3));
    assert_eq!("aé\"b c\"", src.slice(0, 7));
}
