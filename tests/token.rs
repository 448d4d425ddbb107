use langtools::domain::source_location::SourceLocation;
use langtools::domain::token::{Token, TokenKind};

#[derive(Debug, Clone, Copy, PartialEq, PartialOrd, Eq, Hash)]
struct TokenKindTest {}

impl TokenKind for TokenKindTest {
    fn duplicate(&self) -> Self {
        *self
    }

    fn is_same_kind(&self, other: &Self) -> bool {
        self == other
    }
}

#[test]
fn test_token_to_kindless() {
    let token_with_kind = Token::<TokenKindTest>::new(
        String::from("--"),
        0,
        1,
        1,
        String::from("hi"),
        TokenKindTest {},
    );
    let token_without_kind: Token<()> = token_with_kind.to_kindless();

    assert_eq!(token_without_kind.location, token_with_kind.location);
    assert_eq!(token_without_kind.text, token_with_kind.text);
}

#[test]
fn locations_compare_by_value() {
    let a = SourceLocation::new(String::from("f"), 3, 2, 1);
    let b = SourceLocation::new(String::from("f"), 3, 2, 1);
    let c = SourceLocation::new(String::from("g"), 3, 2, 1);
    assert_eq!(a, b);
    assert_ne!(a, c);
    assert_eq!(a.clone(), a);
}
