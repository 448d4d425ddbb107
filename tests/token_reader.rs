use langtools::domain::token::{Token, TokenKind};
use langtools::lexing::token_reader::{TokenReader, TokenVec};

#[derive(Debug, Clone, Copy, PartialEq, PartialOrd, Eq, Hash)]
enum TokenKindTest {
    A,
    B,
}

impl TokenKind for TokenKindTest {
    fn duplicate(&self) -> Self {
        *self
    }

    fn is_same_kind(&self, other: &Self) -> bool {
        self == other
    }
}

fn token(offset: usize, line: u32, column: u32, text: &str, kind: TokenKindTest) -> Token<TokenKindTest> {
    Token::new(String::from("--"), offset, line, column, String::from(text), kind)
}

#[test]
fn test_token_reader_empty() {
    let tokens = Vec::<Token<TokenKindTest>>::new();
    let mut token_reader = TokenReader::new(TokenVec::new(tokens));

    assert_eq!(token_reader.offset(), 0);
    assert!(!token_reader.has_more());
    assert_eq!(token_reader.peek_next(), None);
    assert_eq!(token_reader.eat_next(), None);
}

#[test]
fn test_token_reader_one() {
    let tokens = Vec::from([token(0, 1, 1, "a", TokenKindTest::A)]);
    let mut token_reader = TokenReader::new(TokenVec::new(tokens));

    assert_eq!(token_reader.offset(), 0);
    assert!(token_reader.has_more());
    assert_eq!(
        token_reader.peek_next().map(|token| token.to_owned()),
        Some(token(0, 1, 1, "a", TokenKindTest::A))
    );
    assert_eq!(
        token_reader.eat_next().map(|token| token.to_owned()),
        Some(token(0, 1, 1, "a", TokenKindTest::A))
    );

    assert_eq!(token_reader.offset(), 1);
    assert!(!token_reader.has_more());
    assert_eq!(token_reader.peek_next(), None);
    assert_eq!(token_reader.eat_next(), None);
}

#[test]
fn test_token_reader_two() {
    let tokens = Vec::from([
        token(0, 1, 1, "a", TokenKindTest::A),
        token(1, 2, 2, "b", TokenKindTest::B),
    ]);
    let mut token_reader = TokenReader::new(TokenVec::new(tokens));

    assert_eq!(token_reader.offset(), 0);
    assert!(token_reader.has_more());
    assert_eq!(
        token_reader.peek_next().map(|token| token.to_owned()),
        Some(token(0, 1, 1, "a", TokenKindTest::A))
    );
    assert_eq!(
        token_reader.eat_next().map(|token| token.to_owned()),
        Some(token(0, 1, 1, "a", TokenKindTest::A))
    );

    assert_eq!(token_reader.offset(), 1);
    assert!(token_reader.has_more());
    assert_eq!(
        token_reader.peek_next().map(|token| token.to_owned()),
        Some(token(1, 2, 2, "b", TokenKindTest::B))
    );
    assert_eq!(
        token_reader.eat_next().map(|token| token.to_owned()),
        Some(token(1, 2, 2, "b", TokenKindTest::B))
    );

    assert_eq!(token_reader.offset(), 2);
    assert!(!token_reader.has_more());
    assert_eq!(token_reader.peek_next(), None);
    assert_eq!(token_reader.eat_next(), None);
}

#[test]
fn token_reader_seeks_back() {
    let tokens = Vec::from([
        token(0, 1, 1, "a", TokenKindTest::A),
        token(1, 1, 2, "b", TokenKindTest::B),
    ]);
    let mut token_reader = TokenReader::new(TokenVec::new(tokens));

    assert!(token_reader.eat_next().is_some());
    assert!(token_reader.eat_next().is_some());
    token_reader.seek(1);
    assert_eq!(token_reader.offset(), 1);
    assert_eq!(
        token_reader.eat_next().map(|token| token.to_owned()),
        Some(token(1, 1, 2, "b", TokenKindTest::B))
    );
    token_reader.seek(0);
    assert_eq!(
        token_reader.peek_next().map(|token| token.to_owned()),
        Some(token(0, 1, 1, "a", TokenKindTest::A))
    );
}
