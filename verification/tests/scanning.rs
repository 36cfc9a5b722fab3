use rqd::scan::{find, scan, starts_with_at, CharClass};
use rqd::text::chars_of;

#[test]
fn a_run_ends_at_the_first_character_outside_the_class() {
    let line = chars_of("  \t ab_c-1.x  (y)");
    assert_eq!(scan(&line, CharClass::Blank, 0), 4);
    assert_eq!(scan(&line, CharClass::Blank, 4), 4);
    assert_eq!(scan(&line, CharClass::Identifier, 4), 12);
    assert_eq!(scan(&line, CharClass::Identifier, 0), 0);
    assert_eq!(scan(&line, CharClass::Whitespace, 12), 14);
    assert_eq!(scan(&line, CharClass::Identifier, 14), 14);
    assert_eq!(scan(&line, CharClass::Identifier, 15), 16);
    assert_eq!(scan(&line, CharClass::Blank, line.len()), line.len());
    let all = chars_of("abc");
    assert_eq!(scan(&all, CharClass::Identifier, 0), 3);
    assert_eq!(scan(&all, CharClass::Identifier, 2), 3);
}

#[test]
fn classes_hold_their_characters() {
    assert!(CharClass::Blank.holds(' ') && CharClass::Blank.holds('\t'));
    assert!(!CharClass::Blank.holds('\n') && !CharClass::Blank.holds('a'));
    assert!(CharClass::Identifier.holds('x') && !CharClass::Identifier.holds(' '));
    assert!(CharClass::Whitespace.holds('\n') && CharClass::Whitespace.holds('\u{3000}'));
    assert!(!CharClass::Whitespace.holds('_'));
}

#[test]
fn a_text_stands_where_its_characters_stand() {
    let line = chars_of("xx(encoders: a)");
    let marker = chars_of("(encoders:");
    assert!(starts_with_at(&line, 2, &marker));
    assert!(!starts_with_at(&line, 1, &marker));
    assert!(!starts_with_at(&line, 3, &marker));
    assert!(!starts_with_at(&line, 10, &marker));
    assert!(!starts_with_at(&line, line.len(), &marker));
    assert!(starts_with_at(&line, line.len(), &[]));
    assert!(starts_with_at(&line, 0, &line));
    assert!(!starts_with_at(&marker, 0, &line));
}

#[test]
fn find_returns_the_first_occurrence_or_the_length() {
    let line = chars_of("ab--ab---ab");
    let ab = chars_of("ab");
    assert_eq!(find(&line, &ab, 0), 0);
    assert_eq!(find(&line, &ab, 1), 4);
    assert_eq!(find(&line, &ab, 5), 9);
    assert_eq!(find(&line, &ab, 10), 11);
    assert_eq!(find(&line, &chars_of("---"), 0), 6);
    assert_eq!(find(&line, &chars_of("abc"), 0), 11);
    assert_eq!(find(&line, &ab, 11), 11);
    assert_eq!(find(&[], &ab, 0), 0);
}
