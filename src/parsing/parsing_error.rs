use vstd::prelude::*;

use crate::domain::token::{Token, TokenKind};

verus! {

#[derive(Debug)]
pub enum ParsingError<K: TokenKind> {
    UnexpectedEndOfSource { expected_token_kinds: Vec<K> },
    UnexpectedToken { expected_token_kinds: Vec<K>, actual_token: Token<K> },
    RequiredParserFieldMissing(String),
    NoExpectedTokensProvided,
    UndefinedRule(usize),
    RecursionLimitReached,
}

/// A parsing error as a value: expected kinds form a set.
#[verifier::reject_recursive_types(K)]
pub enum ParsingErrorView<K: TokenKind> {
    UnexpectedEndOfSource(Set<K>),
    UnexpectedToken(Set<K>, Token<K>),
    RequiredParserFieldMissing(Seq<char>),
    NoExpectedTokensProvided,
    UndefinedRule(usize),
    RecursionLimitReached,
}

impl<K: TokenKind> ParsingError<K> {
    pub open spec fn view(&self) -> ParsingErrorView<K> {
        match self {
            ParsingError::UnexpectedEndOfSource { expected_token_kinds } => {
                ParsingErrorView::UnexpectedEndOfSource(expected_token_kinds@.to_set())
            },
            ParsingError::UnexpectedToken { expected_token_kinds, actual_token } => {
                ParsingErrorView::UnexpectedToken(expected_token_kinds@.to_set(), *actual_token)
            },
            ParsingError::RequiredParserFieldMissing(name) => {
                ParsingErrorView::RequiredParserFieldMissing(name@)
            },
            ParsingError::NoExpectedTokensProvided => ParsingErrorView::NoExpectedTokensProvided,
            ParsingError::UndefinedRule(i) => ParsingErrorView::UndefinedRule(*i),
            ParsingError::RecursionLimitReached => ParsingErrorView::RecursionLimitReached,
        }
    }

    /// Equal as values: the same expected kinds as sets, the same offending
    /// token, the same field name.
    pub open spec fn same_as(&self, other: &ParsingError<K>) -> bool {
        match (self.view(), other.view()) {
            (
                ParsingErrorView::UnexpectedEndOfSource(a),
                ParsingErrorView::UnexpectedEndOfSource(b),
            ) => a == b,
            (
                ParsingErrorView::UnexpectedToken(a, t),
                ParsingErrorView::UnexpectedToken(b, u),
            ) => a == b && t.same_as(&u),
            (
                ParsingErrorView::RequiredParserFieldMissing(a),
                ParsingErrorView::RequiredParserFieldMissing(b),
            ) => a == b,
            (
                ParsingErrorView::NoExpectedTokensProvided,
                ParsingErrorView::NoExpectedTokensProvided,
            ) => true,
            (ParsingErrorView::UndefinedRule(a), ParsingErrorView::UndefinedRule(b)) => a == b,
            (
                ParsingErrorView::RecursionLimitReached,
                ParsingErrorView::RecursionLimitReached,
            ) => true,
            _ => false,
        }
    }
}

/// Whether `kinds` holds `kind`.
pub fn contains_kind<K: TokenKind>(kinds: &Vec<K>, kind: &K) -> (r: bool)
    ensures
        r == kinds@.contains(*kind),
{
    let mut i: usize = 0;
    while i < kinds.len()
        invariant
            i <= kinds@.len(),
            forall|j: int| 0 <= j < i ==> kinds@[j] != *kind,
        decreases kinds@.len() - i,
    {
        if kinds[i].is_same_kind(kind) {
            return true;
        }
        i = i + 1;
    }
    false
}

/// Whether every kind of `a` is in `b`.
fn is_subset<K: TokenKind>(a: &Vec<K>, b: &Vec<K>) -> (r: bool)
    ensures
        r == a@.to_set().subset_of(b@.to_set()),
{
    let mut i: usize = 0;
    while i < a.len()
        invariant
            i <= a@.len(),
            forall|j: int| 0 <= j < i ==> b@.contains(#[trigger] a@[j]),
        decreases a@.len() - i,
    {
        if !contains_kind(b, &a[i]) {
            assert(a@.to_set().contains(a@[i as int]));
            return false;
        }
        i = i + 1;
    }
    assert forall|k: K| a@.to_set().contains(k) implies b@.to_set().contains(k) by {
        let j = choose|j: int| 0 <= j < a@.len() && a@[j] == k;
    }
    true
}

fn same_kinds<K: TokenKind>(a: &Vec<K>, b: &Vec<K>) -> (r: bool)
    ensures
        r == (a@.to_set() == b@.to_set()),
{
    let r = is_subset(a, b) && is_subset(b, a);
    proof {
        if r {
            assert(a@.to_set() =~= b@.to_set());
        }
    }
    r
}

impl<K: TokenKind> PartialEq for ParsingError<K> {
    fn eq(&self, other: &Self) -> (r: bool)
        ensures
            r == self.same_as(other),
    {
        match self {
            ParsingError::UnexpectedEndOfSource { expected_token_kinds: expected_self } => {
                match other {
                    ParsingError::UnexpectedEndOfSource { expected_token_kinds: expected_other } => {
                        same_kinds(expected_self, expected_other)
                    },
                    _ => false,
                }
            },
            ParsingError::UnexpectedToken {
                expected_token_kinds: expected_self,
                actual_token: actual_self,
            } => {
                match other {
                    ParsingError::UnexpectedToken {
                        expected_token_kinds: expected_other,
                        actual_token: actual_other,
                    } => {
                        same_kinds(expected_self, expected_other) && *actual_self == *actual_other
                    },
                    _ => false,
                }
            },
            ParsingError::RequiredParserFieldMissing(name_self) => {
                match other {
                    ParsingError::RequiredParserFieldMissing(name_other) => *name_self
                        == *name_other,
                    _ => false,
                }
            },
            ParsingError::NoExpectedTokensProvided => {
                match other {
                    ParsingError::NoExpectedTokensProvided => true,
                    _ => false,
                }
            },
            ParsingError::UndefinedRule(a) => {
                match other {
                    ParsingError::UndefinedRule(b) => *a == *b,
                    _ => false,
                }
            },
            ParsingError::RecursionLimitReached => {
                match other {
                    ParsingError::RecursionLimitReached => true,
                    _ => false,
                }
            },
        }
    }
}

impl<K: TokenKind> vstd::std_specs::cmp::PartialEqSpecImpl for ParsingError<K> {
    open spec fn obeys_eq_spec() -> bool {
        true
    }

    open spec fn eq_spec(&self, other: &ParsingError<K>) -> bool {
        self.same_as(other)
    }
}

} // verus!
