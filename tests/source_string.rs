use langtools::domain::source_info::SourceInfo;
use langtools::sourcing::read_source::ReadSource;
use langtools::sourcing::source_string::SourceString;
use langtools::sourcing::sourcing_error::SourcingError;

#[test]
fn test_source_string_empty() {
    let mut source = SourceString::new(SourceInfo::new(String::from("--")), "");

    assert_eq!(source.info().path, String::from("--"));
    assert_eq!(source.offset(), 0);
    assert!(!source.has_more());
    assert_eq!(source.peek_next(), Err(SourcingError::NoMoreChars));
    assert_eq!(source.eat_next(), Err(SourcingError::NoMoreChars));
}

#[test]
fn test_source_string_one() {
    let mut source = SourceString::new(SourceInfo::new(String::from("--")), "a");

    assert_eq!(source.info().path, String::from("--"));
    assert_eq!(source.offset(), 0);
    assert!(source.has_more());
    assert_eq!(source.peek_next(), Ok('a'));
    assert_eq!(source.eat_next(), Ok('a'));

    assert_eq!(source.info().path, String::from("--"));
    assert_eq!(source.offset(), 1);
    assert!(!source.has_more());
    assert_eq!(source.peek_next(), Err(SourcingError::NoMoreChars));
    assert_eq!(source.eat_next(), Err(SourcingError::NoMoreChars));
}

#[test]
fn test_source_string_two() {
    let mut source = SourceString::new(SourceInfo::new(String::from("--")), "ab");

    assert_eq!(source.info().path, String::from("--"));
    assert_eq!(source.offset(), 0);
    assert!(source.has_more());
    assert_eq!(source.peek_next(), Ok('a'));
    assert_eq!(source.eat_next(), Ok('a'));

    assert_eq!(source.info().path, String::from("--"));
    assert_eq!(source.offset(), 1);
    assert!(source.has_more());
    assert_eq!(source.peek_next(), Ok('b'));
    assert_eq!(source.eat_next(), Ok('b'));

    assert_eq!(source.info().path, String::from("--"));
    assert_eq!(source.offset(), 2);
    assert!(!source.has_more());
    assert_eq!(source.peek_next(), Err(SourcingError::NoMoreChars));
    assert_eq!(source.eat_next(), Err(SourcingError::NoMoreChars));
}

#[test]
fn sourcing_error_descriptions() {
    assert_eq!(
        SourcingError::NoMoreChars.description(),
        String::from("no more characters to be read")
    );
    assert_eq!(
        SourcingError::BufferingNeedsToBeEnabled.description(),
        String::from("buffering must be enabled for it to be accessed")
    );
}
