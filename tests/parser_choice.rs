use langtools::domain::token::{Token, TokenKind};
use langtools::lexing::token_reader::{TokenReader, TokenVec};
use langtools::parsing::parse::{Parser, ParserAction, Tree};
use langtools::parsing::parser_choice::ParserChoiceBuilder;
use langtools::parsing::parser_token::ParserTokenBuilder;
use langtools::parsing::parsing_error::ParsingError;

#[derive(Debug, Clone, Copy, PartialEq, PartialOrd, Eq, Hash)]
enum TokenKindTest {
    A,
    B,
    C,
}

impl TokenKind for TokenKindTest {
    fn duplicate(&self) -> Self {
        *self
    }

    fn is_same_kind(&self, other: &Self) -> bool {
        self == other
    }
}

#[derive(Debug, PartialEq, Eq, Clone)]
enum TreeTest {
    A(Token<()>),
    B(Token<()>),
    AB(Token<()>, Box<TreeTest>, Box<TreeTest>),
}

impl Tree for TreeTest {
    fn spec_token(&self) -> Token<()> {
        self.token().clone()
    }

    fn token(&self) -> &Token<()> {
        match &self {
            TreeTest::A(token) => token,
            TreeTest::B(token) => token,
            TreeTest::AB(token, _, _) => token,
        }
    }
}

/// Which node the tests build.
#[derive(Debug, Clone, Copy)]
enum Build {
    A,
    B,
    AB,
}

impl ParserAction for Build {
    type Tree = TreeTest;

    fn spec_token_tree(&self, token: Token<()>) -> TreeTest {
        self.token_tree(token)
    }

    fn spec_sequence_tree(&self, token: Token<()>, children: Vec<TreeTest>) -> TreeTest {
        self.sequence_tree(token, children)
    }

    fn token_tree(&self, token: Token<()>) -> TreeTest {
        match self {
            Build::A => TreeTest::A(token),
            _ => TreeTest::B(token),
        }
    }

    fn sequence_tree(&self, token: Token<()>, children: Vec<TreeTest>) -> TreeTest {
        let mut iter = children.into_iter();

        TreeTest::AB(
            token,
            Box::new(iter.next().unwrap()),
            Box::new(iter.next().unwrap()),
        )
    }
}

fn token(offset: usize, line: u32, column: u32, text: &str, kind: TokenKindTest) -> Token<TokenKindTest> {
    Token::new(String::from("--"), offset, line, column, String::from(text), kind)
}

fn kindless(offset: usize, line: u32, column: u32, text: &str) -> Token<()> {
    Token::new(String::from("--"), offset, line, column, String::from(text), ())
}

fn reader(tokens: Vec<Token<TokenKindTest>>) -> TokenReader<TokenVec<TokenKindTest>> {
    TokenReader::new(TokenVec::new(tokens))
}

fn terminal(kind: TokenKindTest, build: Build) -> Parser<TokenKindTest, Build> {
    Parser::Token(
        ParserTokenBuilder::<TokenKindTest, Build>::default()
            .token_kind(kind)
            .action(build)
            .build()
            .unwrap(),
    )
}

fn a_or_b() -> langtools::parsing::parse::ParserChoice<TokenKindTest, Build> {
    ParserChoiceBuilder::<TokenKindTest, Build>::default()
        .choices(terminal(TokenKindTest::A, Build::A))
        .choices(terminal(TokenKindTest::B, Build::B))
        .build()
        .unwrap()
}

#[test]
fn parser_choice_test_parser_sequential_end_of_source() {
    let mut token_reader = reader(Vec::new());
    let parser = a_or_b();

    assert_eq!(
        parser.parse(&mut token_reader),
        Err(ParsingError::UnexpectedEndOfSource {
            expected_token_kinds: vec![TokenKindTest::A, TokenKindTest::B],
        })
    );
}

#[test]
fn test_parser_sequential_unexpected_token() {
    let mut token_reader = reader(Vec::from([token(0, 1, 1, "c", TokenKindTest::C)]));
    let parser = a_or_b();

    assert_eq!(
        parser.parse(&mut token_reader),
        Err(ParsingError::UnexpectedToken {
            expected_token_kinds: vec![TokenKindTest::A, TokenKindTest::B],
            actual_token: token(0, 1, 1, "c", TokenKindTest::C)
        })
    );
    assert_eq!(token_reader.offset(), 0);
}

#[test]
fn test_parser_sequential_success_a() {
    let mut token_reader = reader(Vec::from([token(0, 1, 1, "a", TokenKindTest::A)]));
    let parser = a_or_b();

    assert_eq!(
        parser.parse(&mut token_reader),
        Ok(TreeTest::A(kindless(0, 1, 1, "a")))
    );
}

#[test]
fn test_parser_sequential_success_b() {
    let mut token_reader = reader(Vec::from([token(0, 1, 1, "b", TokenKindTest::B)]));
    let parser = a_or_b();

    assert_eq!(
        parser.parse(&mut token_reader),
        Ok(TreeTest::B(kindless(0, 1, 1, "b")))
    );
}

#[test]
fn choice_expected_tokens_are_the_union() {
    let parser = a_or_b();
    assert_eq!(
        parser.expected_tokens().map_err(|_| ()),
        Ok(vec![TokenKindTest::A, TokenKindTest::B])
    );
}

#[test]
fn choice_without_alternatives_is_refused() {
    assert!(matches!(
        ParserChoiceBuilder::<TokenKindTest, Build>::default().build(),
        Err(ParsingError::RequiredParserFieldMissing(name)) if name == "choices"
    ));
}

#[test]
fn parsing_errors_compare_kinds_as_sets() {
    let a: ParsingError<TokenKindTest> = ParsingError::UnexpectedEndOfSource {
        expected_token_kinds: vec![TokenKindTest::A, TokenKindTest::B],
    };
    let b: ParsingError<TokenKindTest> = ParsingError::UnexpectedEndOfSource {
        expected_token_kinds: vec![TokenKindTest::B, TokenKindTest::A],
    };
    let c: ParsingError<TokenKindTest> = ParsingError::UnexpectedEndOfSource {
        expected_token_kinds: vec![TokenKindTest::B],
    };
    assert_eq!(a, b);
    assert_ne!(a, c);
    assert_ne!(a, ParsingError::NoExpectedTokensProvided);
}
