use langtools::domain::source_info::SourceInfo;
use langtools::domain::token::{Token, TokenKind};
use langtools::lexing::lexer::Lexer;
use langtools::lexing::lexer_trigger_action::LexerTriggerActionCallback;
use langtools::lexing::lexing_error::LexingError;
use langtools::messaging::message::Severity;
use langtools::messaging::message_context::MessageContext;
use langtools::sourcing::read_source::ReadSource;
use langtools::sourcing::source_reader::SourceReader;
use langtools::sourcing::source_string::SourceString;

#[derive(Debug, Clone, Copy, PartialEq, PartialOrd, Eq, Hash)]
enum TokenKindTest {
    A,
    AB,
    AC,
    ABC,
}

impl TokenKind for TokenKindTest {
    fn duplicate(&self) -> Self {
        *self
    }

    fn is_same_kind(&self, other: &Self) -> bool {
        self == other
    }
}

/// The callbacks the tests attach to triggers.
#[derive(Debug, Clone, Copy)]
enum Callback {
    /// Emits a token of this kind.
    Emit(TokenKindTest),
    /// Eats the 'b' characters that follow, then emits a token of this kind.
    EmitEatingBs(TokenKindTest),
    /// Discards what was matched.
    Skip,
    /// Consumes two characters (used as an error handler).
    EatTwo,
}

impl LexerTriggerActionCallback for Callback {
    type Kind = TokenKindTest;

    fn spec_kind<S: ReadSource>(&self, _source_reader: SourceReader<S>) -> Option<TokenKindTest> {
        match self {
            Callback::Emit(kind) | Callback::EmitEatingBs(kind) => Some(*kind),
            Callback::Skip | Callback::EatTwo => None,
        }
    }

    fn spec_reads(&self, rest: Vec<char>) -> usize {
        match self {
            Callback::Emit(_) | Callback::Skip => 0,
            Callback::EmitEatingBs(_) => rest.iter().take_while(|c| **c == 'b').count(),
            Callback::EatTwo => 2,
        }
    }

    fn call<S: ReadSource>(&self, source_reader: &mut SourceReader<S>) -> Option<TokenKindTest> {
        match self {
            Callback::Emit(kind) => Some(*kind),
            Callback::EmitEatingBs(kind) => {
                while source_reader.peek_next() == Ok('b') {
                    let _ = source_reader.eat_next();
                }
                Some(*kind)
            }
            Callback::Skip => None,
            Callback::EatTwo => {
                let _ = source_reader.eat_next();
                let _ = source_reader.eat_next();
                None
            }
        }
    }
}

fn reader(data: &str) -> SourceReader<SourceString> {
    let mut source_reader =
        SourceReader::new(SourceString::new(SourceInfo::new(String::from("--")), data));
    assert_eq!(source_reader.enable_buffering(), Ok(()));
    source_reader
}

fn token(offset: usize, line: u32, column: u32, text: &str, kind: TokenKindTest) -> Token<TokenKindTest> {
    Token::new(String::from("--"), offset, line, column, String::from(text), kind)
}

fn three_triggers() -> Lexer<Callback> {
    let mut lexer = Lexer::<Callback>::new();

    assert_eq!(lexer.add_trigger("ab", Callback::Emit(TokenKindTest::AB)), Ok(()));
    assert_eq!(lexer.add_trigger("ac", Callback::Emit(TokenKindTest::AC)), Ok(()));
    assert_eq!(
        lexer.add_trigger("abc", Callback::Emit(TokenKindTest::ABC)),
        Ok(())
    );
    lexer
}

#[test]
fn test_lexer_add_trigger() {
    let mut lexer = Lexer::<Callback>::new();

    assert_eq!(lexer.add_trigger("ab", Callback::Emit(TokenKindTest::AB)), Ok(()));
    assert_eq!(lexer.add_trigger("ac", Callback::Emit(TokenKindTest::AC)), Ok(()));
    assert_eq!(lexer.add_trigger("abc", Callback::Emit(TokenKindTest::ABC)), Ok(()));
    assert_eq!(
        lexer.add_trigger("ab", Callback::Emit(TokenKindTest::AB)),
        Err(LexingError::DuplicateTrigger(String::from("ab")))
    );
}

#[test]
fn test_lexer_context_simple() {
    let lexer = three_triggers();
    let mut token_source = lexer.lex(reader("abacabcac"), MessageContext::new());

    assert_eq!(token_source.lex_next(), Ok(token(0, 1, 1, "ab", TokenKindTest::AB)));
    assert_eq!(token_source.lex_next(), Ok(token(2, 1, 3, "ac", TokenKindTest::AC)));
    assert_eq!(token_source.lex_next(), Ok(token(4, 1, 5, "abc", TokenKindTest::ABC)));
    assert_eq!(token_source.lex_next(), Ok(token(7, 1, 8, "ac", TokenKindTest::AC)));
    assert_eq!(token_source.lex_next(), Err(LexingError::UnexpectedEndOfSource));
}

#[test]
fn test_lexer_context_unexpected_char() {
    let lexer = three_triggers();
    let mut token_source = lexer.lex(reader("d"), MessageContext::new());

    assert_eq!(
        token_source.lex_next(),
        Err(LexingError::UnexpectedCharacter('d'))
    );
}

#[test]
fn test_lexer_context_unexpected_end() {
    let lexer = three_triggers();
    let mut token_source = lexer.lex(reader("a"), MessageContext::new());

    assert_eq!(
        token_source.lex_next(),
        Err(LexingError::UnexpectedEndOfSource)
    );
}

#[test]
fn test_lexer_context_trigger_action() {
    let mut lexer = Lexer::<Callback>::new();

    assert_eq!(
        lexer.add_trigger("ab", Callback::EmitEatingBs(TokenKindTest::AB)),
        Ok(())
    );
    assert_eq!(lexer.add_trigger("ac", Callback::Emit(TokenKindTest::AC)), Ok(()));
    assert_eq!(
        lexer.add_trigger("abc", Callback::Emit(TokenKindTest::ABC)),
        Ok(())
    );

    let mut token_source = lexer.lex(reader("abbbacabcac"), MessageContext::new());

    assert_eq!(token_source.lex_next(), Ok(token(0, 1, 1, "abbb", TokenKindTest::AB)));
    assert_eq!(token_source.lex_next(), Ok(token(4, 1, 5, "ac", TokenKindTest::AC)));
    assert_eq!(token_source.lex_next(), Ok(token(6, 1, 7, "abc", TokenKindTest::ABC)));
    assert_eq!(token_source.lex_next(), Ok(token(9, 1, 10, "ac", TokenKindTest::AC)));
    assert_eq!(token_source.lex_next(), Err(LexingError::UnexpectedEndOfSource));
}

#[test]
fn test_lexer_context_error_recovery_default() {
    let mut lexer = Lexer::<Callback>::new();

    assert_eq!(lexer.add_trigger("a", Callback::Emit(TokenKindTest::A)), Ok(()));

    let mut token_source = lexer.lex(reader("aba"), MessageContext::new());

    assert_eq!(token_source.next(), Some(token(0, 1, 1, "a", TokenKindTest::A)));
    assert_eq!(token_source.next(), Some(token(2, 1, 3, "a", TokenKindTest::A)));
    assert_eq!(token_source.next(), None);

    let messages = token_source.message_context().messages();
    assert!(messages.iter().any(|i| i.description.contains("unexpected")));
}

#[test]
fn test_lexer_context_error_recovery_simple() {
    let mut lexer = Lexer::<Callback>::new();

    assert_eq!(lexer.add_trigger("a", Callback::Emit(TokenKindTest::A)), Ok(()));

    lexer.set_error_handler(Callback::EatTwo);

    let mut token_source = lexer.lex(reader("abaa"), MessageContext::new());

    assert_eq!(token_source.next(), Some(token(0, 1, 1, "a", TokenKindTest::A)));
    assert_eq!(token_source.next(), Some(token(3, 1, 4, "a", TokenKindTest::A)));
    assert_eq!(token_source.next(), None);

    let messages = token_source.message_context().messages();
    assert!(messages.iter().any(|i| i.description.contains("unexpected")));
}

#[test]
fn empty_source_yields_no_token() {
    let lexer = three_triggers();
    let mut token_source = lexer.lex(reader(""), MessageContext::new());

    assert_eq!(token_source.next(), None);
    assert_eq!(token_source.message_context().messages().len(), 0);
}

#[test]
fn newline_only_source_moves_to_next_line() {
    let lexer = three_triggers();
    let mut token_source = lexer.lex(reader("\n"), MessageContext::new());

    assert_eq!(token_source.next(), None);
    let location = token_source.source_reader().location();
    assert_eq!((location.offset, location.line, location.column), (1, 2, 1));
}

#[test]
fn longest_trigger_wins() {
    let mut lexer = Lexer::<Callback>::new();
    assert_eq!(lexer.add_trigger("ab", Callback::Emit(TokenKindTest::AB)), Ok(()));
    assert_eq!(lexer.add_trigger("abc", Callback::Emit(TokenKindTest::ABC)), Ok(()));

    let mut token_source = lexer.lex(reader("abc"), MessageContext::new());
    assert_eq!(token_source.next(), Some(token(0, 1, 1, "abc", TokenKindTest::ABC)));
    assert_eq!(token_source.next(), None);
}

#[test]
fn shorter_trigger_then_recovery() {
    let mut lexer = Lexer::<Callback>::new();
    assert_eq!(lexer.add_trigger("ab", Callback::Emit(TokenKindTest::AB)), Ok(()));
    assert_eq!(lexer.add_trigger("abc", Callback::Emit(TokenKindTest::ABC)), Ok(()));

    let mut token_source = lexer.lex(reader("abd"), MessageContext::new());
    assert_eq!(token_source.next(), Some(token(0, 1, 1, "ab", TokenKindTest::AB)));
    assert_eq!(token_source.next(), None);

    let messages = token_source.message_context().messages();
    assert_eq!(messages.len(), 1);
    assert_eq!(messages[0].severity, Severity::Error);
    assert_eq!(messages[0].description, String::from("unexpected character 'd'"));
    assert_eq!(token_source.message_context().count_with_severity(Severity::Error), 1);
}

#[test]
fn unexpected_character_diagnostic_position() {
    let mut lexer = Lexer::<Callback>::new();
    assert_eq!(lexer.add_trigger("a", Callback::Emit(TokenKindTest::A)), Ok(()));

    let mut token_source = lexer.lex(reader("aba"), MessageContext::new());
    assert!(token_source.next().is_some());
    assert!(token_source.next().is_some());
    assert_eq!(token_source.next(), None);

    let messages = token_source.message_context().messages();
    assert_eq!(messages.len(), 1);
    assert_eq!(messages[0].description, String::from("unexpected character 'b'"));
    match &messages[0].source {
        langtools::messaging::message::MessageSource::Location { location } => {
            assert_eq!((location.offset, location.line, location.column), (1, 1, 2));
        }
        _ => panic!("the diagnostic should name a position"),
    }
}

#[test]
fn skipping_trigger_discards_text() {
    let mut lexer = Lexer::<Callback>::new();
    assert_eq!(lexer.add_trigger(" ", Callback::Skip), Ok(()));
    assert_eq!(lexer.add_trigger("a", Callback::Emit(TokenKindTest::A)), Ok(()));

    let mut token_source = lexer.lex(reader("  a\r\n a"), MessageContext::new());
    assert_eq!(token_source.lex_next(), Ok(token(2, 1, 3, "a", TokenKindTest::A)));
    assert_eq!(
        token_source.lex_next(),
        Err(LexingError::UnexpectedCharacter('\n'))
    );
}

#[test]
fn tokens_and_discarded_characters_cover_the_source() {
    let mut lexer = Lexer::<Callback>::new();
    assert_eq!(lexer.add_trigger(" ", Callback::Skip), Ok(()));
    assert_eq!(lexer.add_trigger("ab", Callback::Emit(TokenKindTest::AB)), Ok(()));

    let mut token_source = lexer.lex(reader("ab ab  ab"), MessageContext::new());
    let mut texts = String::new();
    while let Some(t) = token_source.next() {
        texts.push_str(&t.text);
    }
    assert_eq!(texts, String::from("ababab"));
}

#[test]
fn lexing_error_descriptions() {
    assert_eq!(
        LexingError::UnexpectedCharacter('x').description(),
        String::from("unexpected character: 'x'")
    );
    assert_eq!(
        LexingError::DuplicateTrigger(String::from("ab")).description(),
        String::from("duplicate trigger \"ab\"")
    );
    assert_eq!(
        LexingError::SourcingError(langtools::sourcing::sourcing_error::SourcingError::NoMoreChars)
            .description(),
        String::from("sourcing error: no more characters to be read")
    );
    assert_eq!(
        LexingError::from(langtools::lexing::dfsa_error::DFSAError::NoSuchTransition),
        LexingError::DFSAError(langtools::lexing::dfsa_error::DFSAError::NoSuchTransition)
    );
}

#[test]
fn default_lexer_has_no_trigger() {
    let lexer = Lexer::<Callback>::default();
    assert!(lexer.get_error_handler().is_none());
    let mut token_source = lexer.lex(reader("a"), MessageContext::new());
    assert_eq!(
        token_source.lex_next(),
        Err(LexingError::UnexpectedCharacter('a'))
    );
}

#[test]
fn duplicate_trigger_keeps_the_first_callback() {
    let mut lexer = Lexer::<Callback>::new();
    assert_eq!(lexer.add_trigger("a", Callback::Emit(TokenKindTest::A)), Ok(()));
    assert_eq!(
        lexer.add_trigger("a", Callback::Emit(TokenKindTest::AB)),
        Err(LexingError::DuplicateTrigger(String::from("a")))
    );
    let mut token_source = lexer.lex(reader("a"), MessageContext::new());
    assert_eq!(token_source.lex_next(), Ok(token(0, 1, 1, "a", TokenKindTest::A)));
}

#[test]
fn newline_in_diagnostic_is_escaped() {
    let mut lexer = Lexer::<Callback>::new();
    assert_eq!(lexer.add_trigger("a", Callback::Emit(TokenKindTest::A)), Ok(()));

    let mut token_source = lexer.lex(reader("\n"), MessageContext::new());
    assert_eq!(token_source.next(), None);

    let messages = token_source.message_context().messages();
    assert_eq!(messages.len(), 1);
    assert_eq!(messages[0].description, String::from("unexpected character '\\n'"));
    let location = token_source.source_reader().location();
    assert_eq!((location.offset, location.line, location.column), (1, 2, 1));
}
