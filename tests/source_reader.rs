use langtools::domain::source_info::SourceInfo;
use langtools::domain::source_location::SourceLocation;
use langtools::sourcing::read_source::ReadSource;
use langtools::sourcing::source_reader::SourceReader;
use langtools::sourcing::source_string::SourceString;
use langtools::sourcing::sourcing_error::SourcingError;

fn reader(data: &str) -> SourceReader<SourceString> {
    SourceReader::new(SourceString::new(SourceInfo::new(String::from("--")), data))
}

fn check_at(source_reader: &SourceReader<SourceString>, offset: usize, line: u32, column: u32) {
    assert_eq!(source_reader.info().path, String::from("--"));
    assert_eq!(source_reader.offset(), offset);
    assert_eq!(
        *source_reader.location(),
        SourceLocation::new(String::from("--"), offset, line, column)
    );
}

fn check_step(source_reader: &mut SourceReader<SourceString>, c: char) {
    assert!(source_reader.has_more());
    assert_eq!(source_reader.peek_next(), Ok(c));
    assert_eq!(source_reader.eat_next(), Ok(c));
}

fn check_end(source_reader: &mut SourceReader<SourceString>) {
    assert!(!source_reader.has_more());
    assert_eq!(source_reader.peek_next(), Err(SourcingError::NoMoreChars));
    assert_eq!(source_reader.eat_next(), Err(SourcingError::NoMoreChars));
}

#[test]
fn test_source_reader_empty() {
    let mut source_reader = reader("");

    check_at(&source_reader, 0, 1, 1);
    check_end(&mut source_reader);
}

#[test]
fn test_source_reader_one_line() {
    let mut source_reader = reader("ab");

    check_at(&source_reader, 0, 1, 1);
    check_step(&mut source_reader, 'a');

    check_at(&source_reader, 1, 1, 2);
    check_step(&mut source_reader, 'b');

    check_at(&source_reader, 2, 1, 3);
    check_end(&mut source_reader);
}

#[test]
fn test_source_reader_one_newline_unix() {
    let mut source_reader = reader("\n");

    check_at(&source_reader, 0, 1, 1);
    check_step(&mut source_reader, '\n');

    check_at(&source_reader, 1, 2, 1);
    check_end(&mut source_reader);
}

#[test]
fn test_source_reader_one_newline_dos() {
    let mut source_reader = reader("\r\n");

    check_at(&source_reader, 0, 1, 1);
    check_step(&mut source_reader, '\n');

    check_at(&source_reader, 2, 2, 1);
    check_end(&mut source_reader);
}

#[test]
fn test_source_reader_one_newline_mac() {
    let mut source_reader = reader("\r\r");

    check_at(&source_reader, 0, 1, 1);
    check_step(&mut source_reader, '\n');

    check_at(&source_reader, 2, 2, 1);
    check_end(&mut source_reader);
}

#[test]
fn test_source_reader_one_newline_unix_then_line() {
    let mut source_reader = reader("\nab");

    check_at(&source_reader, 0, 1, 1);
    check_step(&mut source_reader, '\n');

    check_at(&source_reader, 1, 2, 1);
    check_step(&mut source_reader, 'a');

    check_at(&source_reader, 2, 2, 2);
    check_step(&mut source_reader, 'b');

    check_at(&source_reader, 3, 2, 3);
    check_end(&mut source_reader);
}

#[test]
fn test_source_reader_one_newline_dos_then_line() {
    let mut source_reader = reader("\r\nab");

    check_at(&source_reader, 0, 1, 1);
    check_step(&mut source_reader, '\n');

    check_at(&source_reader, 2, 2, 1);
    check_step(&mut source_reader, 'a');

    check_at(&source_reader, 3, 2, 2);
    check_step(&mut source_reader, 'b');

    check_at(&source_reader, 4, 2, 3);
    check_end(&mut source_reader);
}

#[test]
fn test_source_reader_one_newline_mac_then_line() {
    let mut source_reader = reader("\r\rab");

    check_at(&source_reader, 0, 1, 1);
    check_step(&mut source_reader, '\n');

    check_at(&source_reader, 2, 2, 1);
    check_step(&mut source_reader, 'a');

    check_at(&source_reader, 3, 2, 2);
    check_step(&mut source_reader, 'b');

    check_at(&source_reader, 4, 2, 3);
    check_end(&mut source_reader);
}

#[test]
fn test_source_reader_line_then_newline_unix_then_line() {
    let mut source_reader = reader("ab\ncd");

    check_at(&source_reader, 0, 1, 1);
    check_step(&mut source_reader, 'a');

    check_at(&source_reader, 1, 1, 2);
    check_step(&mut source_reader, 'b');

    check_at(&source_reader, 2, 1, 3);
    check_step(&mut source_reader, '\n');

    check_at(&source_reader, 3, 2, 1);
    check_step(&mut source_reader, 'c');

    check_at(&source_reader, 4, 2, 2);
    check_step(&mut source_reader, 'd');

    check_at(&source_reader, 5, 2, 3);
    check_end(&mut source_reader);
}

#[test]
fn test_source_reader_line_then_newline_dos_then_line() {
    let mut source_reader = reader("ab\r\ncd");

    check_at(&source_reader, 0, 1, 1);
    check_step(&mut source_reader, 'a');

    check_at(&source_reader, 1, 1, 2);
    check_step(&mut source_reader, 'b');

    check_at(&source_reader, 2, 1, 3);
    check_step(&mut source_reader, '\n');

    check_at(&source_reader, 4, 2, 1);
    check_step(&mut source_reader, 'c');

    check_at(&source_reader, 5, 2, 2);
    check_step(&mut source_reader, 'd');

    check_at(&source_reader, 6, 2, 3);
    check_end(&mut source_reader);
}

#[test]
fn test_source_reader_line_then_newline_mac_then_line() {
    let mut source_reader = reader("ab\r\rcd");

    check_at(&source_reader, 0, 1, 1);
    check_step(&mut source_reader, 'a');

    check_at(&source_reader, 1, 1, 2);
    check_step(&mut source_reader, 'b');

    check_at(&source_reader, 2, 1, 3);
    check_step(&mut source_reader, '\n');

    check_at(&source_reader, 4, 2, 1);
    check_step(&mut source_reader, 'c');

    check_at(&source_reader, 5, 2, 2);
    check_step(&mut source_reader, 'd');

    check_at(&source_reader, 6, 2, 3);
    check_end(&mut source_reader);
}

#[test]
fn test_source_reader_mixed_newlines() {
    let mut source_reader = reader("a\nb\r\nc\r\rd");

    check_at(&source_reader, 0, 1, 1);
    check_step(&mut source_reader, 'a');

    check_at(&source_reader, 1, 1, 2);
    check_step(&mut source_reader, '\n');

    check_at(&source_reader, 2, 2, 1);
    check_step(&mut source_reader, 'b');

    check_at(&source_reader, 3, 2, 2);
    check_step(&mut source_reader, '\n');

    check_at(&source_reader, 5, 3, 1);
    check_step(&mut source_reader, 'c');

    check_at(&source_reader, 6, 3, 2);
    check_step(&mut source_reader, '\n');

    check_at(&source_reader, 8, 4, 1);
    check_step(&mut source_reader, 'd');

    check_at(&source_reader, 9, 4, 2);
    check_end(&mut source_reader);
}

#[test]
fn test_source_reader_buffer_disabled() {
    let mut source_reader = reader("abc");

    assert!(!source_reader.is_buffering_enabled());
    assert!(source_reader.is_buffer_empty());
    assert_eq!(
        source_reader.disable_buffering(),
        Err(SourcingError::BufferingAlreadyDisabled)
    );
    assert_eq!(
        source_reader.clear_buffer(),
        Err(SourcingError::BufferingNeedsToBeEnabled)
    );
    assert_eq!(
        source_reader.pop_buffer(),
        Err(SourcingError::BufferingNeedsToBeEnabled)
    );
}

#[test]
fn test_source_reader_buffer_enabled() {
    let mut source_reader = reader("abc");

    assert_eq!(source_reader.enable_buffering(), Ok(()));
    assert_eq!(
        source_reader.enable_buffering(),
        Err(SourcingError::BufferingAlreadyEnabled)
    );

    assert!(source_reader.is_buffering_enabled());
    assert!(source_reader.is_buffer_empty());

    assert_eq!(source_reader.disable_buffering(), Ok(()));
    assert_eq!(
        source_reader.disable_buffering(),
        Err(SourcingError::BufferingAlreadyDisabled)
    );
}

#[test]
fn test_source_reader_buffer_pop() {
    let mut source_reader = reader("abc");

    assert_eq!(source_reader.enable_buffering(), Ok(()));

    assert_eq!(source_reader.eat_next(), Ok('a'));
    assert_eq!(source_reader.eat_next(), Ok('b'));
    assert_eq!(source_reader.eat_next(), Ok('c'));

    assert_eq!(source_reader.pop_buffer(), Ok(String::from("abc")));
    assert_eq!(source_reader.pop_buffer(), Ok(String::new()));
}

#[test]
fn test_source_reader_buffer_clear_then_pop() {
    let mut source_reader = reader("abc");

    assert_eq!(source_reader.enable_buffering(), Ok(()));

    assert_eq!(source_reader.eat_next(), Ok('a'));

    assert_eq!(source_reader.clear_buffer(), Ok(()));

    assert_eq!(source_reader.eat_next(), Ok('b'));
    assert_eq!(source_reader.eat_next(), Ok('c'));

    assert_eq!(source_reader.pop_buffer(), Ok(String::from("bc")));
}

#[test]
fn lone_carriage_return_at_end_reads_as_newline() {
    let mut source_reader = reader("\r");

    assert_eq!(source_reader.peek_next(), Ok('\n'));
    assert_eq!(source_reader.eat_next(), Ok('\n'));
    check_at(&source_reader, 1, 2, 1);
    check_end(&mut source_reader);
}

#[test]
fn carriage_return_before_other_character_reads_as_newline() {
    let mut source_reader = reader("\rx");

    assert_eq!(source_reader.eat_next(), Ok('\n'));
    check_at(&source_reader, 1, 2, 1);
    check_step(&mut source_reader, 'x');
    check_at(&source_reader, 2, 2, 2);
}

#[test]
fn folding_keeps_one_newline_per_line_break() {
    let mut source_reader = reader("\n\r\n\r\r");
    assert_eq!(source_reader.enable_buffering(), Ok(()));

    while source_reader.eat_next().is_ok() {}

    assert_eq!(source_reader.pop_buffer(), Ok(String::from("\n\n\n")));
    assert_eq!(source_reader.location().line, 4);
    assert_eq!(source_reader.location().column, 1);
}
