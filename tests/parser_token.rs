use langtools::domain::token::{Token, TokenKind};
use langtools::lexing::token_reader::{TokenReader, TokenVec};
use langtools::parsing::parse::{Parser, ParserAction, Tree};
use langtools::parsing::parser_token::ParserTokenBuilder;
use langtools::parsing::parsing_error::ParsingError;

#[derive(Debug, Clone, Copy, PartialEq, PartialOrd, Eq, Hash)]
enum TokenKindTest {
    A,
    B,
    C,
}

impl TokenKind for TokenKindTest {
    fn duplicate(&self) -> Self {
        *self
    }

    fn is_same_kind(&self, other: &Self) -> bool {
        self == other
    }
}

#[derive(Debug, PartialEq, Eq, Clone)]
enum TreeTest {
    A(Token<()>),
    B(Token<()>),
    AB(Token<()>, Box<TreeTest>, Box<TreeTest>),
}

impl Tree for TreeTest {
    fn spec_token(&self) -> Token<()> {
        self.token().clone()
    }

    fn token(&self) -> &Token<()> {
        match &self {
            TreeTest::A(token) => token,
            TreeTest::B(token) => token,
            TreeTest::AB(token, _, _) => token,
        }
    }
}

/// Which node the tests build.
#[derive(Debug, Clone, Copy)]
enum Build {
    A,
    B,
    AB,
}

impl ParserAction for Build {
    type Tree = TreeTest;

    fn spec_token_tree(&self, token: Token<()>) -> TreeTest {
        self.token_tree(token)
    }

    fn spec_sequence_tree(&self, token: Token<()>, children: Vec<TreeTest>) -> TreeTest {
        self.sequence_tree(token, children)
    }

    fn token_tree(&self, token: Token<()>) -> TreeTest {
        match self {
            Build::A => TreeTest::A(token),
            _ => TreeTest::B(token),
        }
    }

    fn sequence_tree(&self, token: Token<()>, children: Vec<TreeTest>) -> TreeTest {
        let mut iter = children.into_iter();

        TreeTest::AB(
            token,
            Box::new(iter.next().unwrap()),
            Box::new(iter.next().unwrap()),
        )
    }
}

fn token(offset: usize, line: u32, column: u32, text: &str, kind: TokenKindTest) -> Token<TokenKindTest> {
    Token::new(String::from("--"), offset, line, column, String::from(text), kind)
}

fn kindless(offset: usize, line: u32, column: u32, text: &str) -> Token<()> {
    Token::new(String::from("--"), offset, line, column, String::from(text), ())
}

fn reader(tokens: Vec<Token<TokenKindTest>>) -> TokenReader<TokenVec<TokenKindTest>> {
    TokenReader::new(TokenVec::new(tokens))
}

fn terminal(kind: TokenKindTest, build: Build) -> Parser<TokenKindTest, Build> {
    Parser::Token(
        ParserTokenBuilder::<TokenKindTest, Build>::default()
            .token_kind(kind)
            .action(build)
            .build()
            .unwrap(),
    )
}

#[test]
fn test_parser_token_end_of_source() {
    let mut token_reader = reader(Vec::new());

    let parser = ParserTokenBuilder::<TokenKindTest, Build>::default()
        .token_kind(TokenKindTest::A)
        .action(Build::A)
        .build()
        .unwrap();

    assert_eq!(
        parser.parse(&mut token_reader),
        Err(ParsingError::UnexpectedEndOfSource {
            expected_token_kinds: vec![TokenKindTest::A],
        })
    );
}

#[test]
fn test_parser_token_unexpected_token() {
    let tokens = Vec::from([token(0, 1, 1, "a", TokenKindTest::A)]);
    let actual_token = tokens[0].clone();
    let mut token_reader = reader(tokens);

    let parser = ParserTokenBuilder::<TokenKindTest, Build>::default()
        .token_kind(TokenKindTest::B)
        .action(Build::B)
        .build()
        .unwrap();

    assert_eq!(
        parser.parse(&mut token_reader),
        Err(ParsingError::UnexpectedToken {
            expected_token_kinds: vec![TokenKindTest::B],
            actual_token,
        })
    );
}

#[test]
fn test_parser_token_success() {
    let mut token_reader = reader(Vec::from([token(0, 1, 1, "a", TokenKindTest::A)]));

    let parser = ParserTokenBuilder::<TokenKindTest, Build>::default()
        .token_kind(TokenKindTest::A)
        .action(Build::A)
        .build()
        .unwrap();

    assert_eq!(
        parser.parse(&mut token_reader),
        Ok(TreeTest::A(kindless(0, 1, 1, "a")))
    );
}

#[test]
fn token_builder_requires_fields() {
    assert!(matches!(
        ParserTokenBuilder::<TokenKindTest, Build>::default().action(Build::A).build(),
        Err(ParsingError::RequiredParserFieldMissing(name)) if name == "token_kind"
    ));
    assert!(matches!(
        ParserTokenBuilder::<TokenKindTest, Build>::default().token_kind(TokenKindTest::A).build(),
        Err(ParsingError::RequiredParserFieldMissing(name)) if name == "action"
    ));
}
