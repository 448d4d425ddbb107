use vstd::prelude::*;

use super::parsing_error::{contains_kind, ParsingError, ParsingErrorView};
use crate::domain::token::{Token, TokenKind};
use crate::lexing::token_reader::{TokenReader, TokenSource};

verus! {

/// A node of the user's tree: it exposes the token that anchors it.
pub trait Tree: Sized {
    /// The anchoring token.
    spec fn spec_token(&self) -> Token<()>;

    fn token(&self) -> (r: &Token<()>)
        ensures
            *r == self.spec_token(),
    ;
}

/// The vector that holds `children`, in order.
pub open spec fn vec_of<T>(children: Seq<T>) -> Vec<T> {
    choose|v: Vec<T>| v@ == children
}

/// How the user builds tree nodes: from the token a terminal matched, and
/// from the anchor token (the first child's) and the children of a
/// sequence. A node depends on these values alone.
pub trait ParserAction {
    type Tree: Tree;

    /// The node of a terminal that matched `token`.
    spec fn spec_token_tree(&self, token: Token<()>) -> Self::Tree;

    /// The node of a sequence anchored at `anchor` with these children.
    spec fn spec_sequence_tree(&self, anchor: Token<()>, children: Vec<Self::Tree>) -> Self::Tree;

    fn token_tree(&self, token: Token<()>) -> (r: Self::Tree)
        ensures
            r == self.spec_token_tree(token),
    ;

    fn sequence_tree(&self, anchor: Token<()>, children: Vec<Self::Tree>) -> (r: Self::Tree)
        ensures
            r == self.spec_sequence_tree(anchor, vec_of(children@)),
    ;
}

/// Matches one token of a given kind.
pub struct ParserToken<K: TokenKind, A: ParserAction> {
    pub token_kind: K,
    pub action: A,
}

/// Ordered concatenation of sub-parsers.
pub struct ParserSequential<K: TokenKind, A: ParserAction> {
    pub sequence: Vec<Parser<K, A>>,
    pub action: A,
}

/// Ordered alternation with backtracking.
pub struct ParserChoice<K: TokenKind, A: ParserAction> {
    pub choices: Vec<Parser<K, A>>,
}

/// Any combinator, or a reference to a rule of a grammar by its index,
/// through which a grammar can refer to itself.
pub enum Parser<K: TokenKind, A: ParserAction> {
    Token(ParserToken<K, A>),
    Sequential(ParserSequential<K, A>),
    Choice(ParserChoice<K, A>),
    Rule(usize),
}

/// The rules that `Parser::Rule` refers to, by index.
pub struct Grammar<K: TokenKind, A: ParserAction> {
    pub rules: Vec<Parser<K, A>>,
}

/// The tree that parsing builds or how it fails, and the offset it leaves
/// the reader at.
pub type Outcome<K, T> = (Result<T, ParsingErrorView<K>>, int);

/// An expected-kinds result, with an empty set refused.
pub open spec fn checked<K: TokenKind>(r: Result<Set<K>, ParsingErrorView<K>>) -> Result<
    Set<K>,
    ParsingErrorView<K>,
> {
    match r {
        Ok(s) => if s == Set::<K>::empty() {
            Err(ParsingErrorView::NoExpectedTokensProvided)
        } else {
            Ok(s)
        },
        Err(e) => Err(e),
    }
}

impl<K: TokenKind, A: ParserAction> ParserToken<K, A> {
    pub(crate) fn from_parts(token_kind: K, action: A) -> (r: Self)
        ensures
            r.spec_kind() == token_kind,
            r.spec_action() == action,
    {
        Self { token_kind, action }
    }

    pub open spec fn spec_kind(&self) -> K {
        self.token_kind
    }

    pub open spec fn spec_action(&self) -> A {
        self.action
    }
}

impl<K: TokenKind, A: ParserAction> ParserSequential<K, A> {
    pub(crate) fn from_parts(sequence: Vec<Parser<K, A>>, action: A) -> (r: Self)
        ensures
            r.spec_sequence() == sequence@,
            r.spec_action() == action,
    {
        Self { sequence, action }
    }

    pub open spec fn spec_sequence(&self) -> Seq<Parser<K, A>> {
        self.sequence@
    }

    pub open spec fn spec_action(&self) -> A {
        self.action
    }
}

impl<K: TokenKind, A: ParserAction> ParserChoice<K, A> {
    pub(crate) fn from_parts(choices: Vec<Parser<K, A>>) -> (r: Self)
        ensures
            r.spec_choices() == choices@,
    {
        Self { choices }
    }

    pub open spec fn spec_choices(&self) -> Seq<Parser<K, A>> {
        self.choices@
    }
}

/// The kinds that may start `p`, as each combinator declares them.
pub open spec fn spec_expected<K: TokenKind, A: ParserAction>(p: Parser<K, A>, g: Seq<Parser<K, A>>, depth: nat) -> Result<
    Set<K>,
    ParsingErrorView<K>,
>
    decreases depth, p, 1int, 0int,
{
    match p {
        Parser::Token(t) => Ok(set![t.token_kind]),
        Parser::Sequential(q) => if q.sequence@.len() == 0 {
            Err(ParsingErrorView::RequiredParserFieldMissing("sequence"@))
        } else {
            checked(spec_expected(q.sequence@[0], g, depth))
        },
        Parser::Choice(c) => union_from(p, g, depth, 0),
        Parser::Rule(i) => if depth == 0 {
            Err(ParsingErrorView::RecursionLimitReached)
        } else if i < g.len() {
            spec_expected(g[i as int], g, (depth - 1) as nat)
        } else {
            Err(ParsingErrorView::UndefinedRule(i))
        },
    }
}

/// The union of the checked expected kinds of the choices from the `i`-th
/// on; the first error wins.
pub open spec fn union_from<K: TokenKind, A: ParserAction>(p: Parser<K, A>,g: Seq<Parser<K, A>>,depth: nat, i: int) -> Result<
    Set<K>,
    ParsingErrorView<K>,
>
    decreases depth, p, 0int, (match p {
        Parser::Choice(c) => c.choices@.len() - i,
        _ => 0,
    }),
{
    match p {
        Parser::Choice(c) => if 0 <= i < c.choices@.len() {
            match checked(spec_expected(c.choices@[i], g, depth)) {
                Err(e) => Err(e),
                Ok(s1) => match union_from(p, g, depth, i + 1) {
                    Err(e) => Err(e),
                    Ok(s2) => Ok(s1 + s2),
                },
            }
        } else {
            Ok(Set::empty())
        },
        _ => Ok(Set::empty()),
    }
}

/// What parsing `p` on the token stream `s` from offset `off` gives.
pub open spec fn spec_parse<K: TokenKind, A: ParserAction>(
    p: Parser<K, A>,
    g: Seq<Parser<K, A>>,
    depth: nat,
    s: Seq<Token<K>>,
    off: int,
) -> Outcome<K, A::Tree>
    decreases depth, p, 1int, 0int,
{
    match p {
        Parser::Token(t) => if 0 <= off < s.len() {
            if s[off].kind == t.token_kind {
                (Ok(t.action.spec_token_tree(s[off].kindless())), off + 1)
            } else {
                (Err(ParsingErrorView::UnexpectedToken(set![t.token_kind], s[off])), off + 1)
            }
        } else {
            (Err(ParsingErrorView::UnexpectedEndOfSource(set![t.token_kind])), off)
        },
        Parser::Sequential(q) => {
            let (r, o) = run_children(p, g, depth, q.sequence@.len() as int, s, off);
            match r {
                Err(e) => (Err(e), o),
                Ok(ts) => if ts.len() == 0 {
                    (Err(ParsingErrorView::RequiredParserFieldMissing("sequence"@)), o)
                } else {
                    (Ok(q.action.spec_sequence_tree(ts[0].spec_token(), vec_of(ts))), o)
                },
            }
        },
        Parser::Choice(c) => match run_choice(p, g, depth, 0, s, off) {
            Some((t, o)) => (Ok(t), o),
            None => match checked(spec_expected(p, g, depth)) {
                Err(e) => (Err(e), off),
                Ok(kinds) => if 0 <= off < s.len() {
                    (Err(ParsingErrorView::UnexpectedToken(kinds, s[off])), off)
                } else {
                    (Err(ParsingErrorView::UnexpectedEndOfSource(kinds)), off)
                },
            },
        },
        Parser::Rule(i) => if depth == 0 {
            (Err(ParsingErrorView::RecursionLimitReached), off)
        } else if i < g.len() {
            spec_parse(g[i as int], g, (depth - 1) as nat, s, off)
        } else {
            (Err(ParsingErrorView::UndefinedRule(i)), off)
        },
    }
}

/// Parsing the first `n` parsers of a sequence one after the other.
pub open spec fn run_children<K: TokenKind, A: ParserAction>(
    p: Parser<K, A>,
    g: Seq<Parser<K, A>>,
    depth: nat,
    n: int,
    s: Seq<Token<K>>,
    off: int,
) -> (Result<Seq<A::Tree>, ParsingErrorView<K>>, int)
    decreases depth, p, 0int, n,
{
    match p {
        Parser::Sequential(q) => if 0 < n <= q.sequence@.len() {
            let (r, o) = run_children(p, g, depth, n - 1, s, off);
            match r {
                Err(e) => (Err(e), o),
                Ok(ts) => {
                    let (r2, o2) = spec_parse(q.sequence@[n - 1], g, depth, s, o);
                    match r2 {
                        Err(e) => (Err(e), o2),
                        Ok(t) => (Ok(ts.push(t)), o2),
                    }
                },
            }
        } else {
            (Ok(Seq::empty()), off)
        },
        _ => (Ok(Seq::empty()), off),
    }
}

/// The first of the choices from the `i`-th on that succeeds from `off`.
pub open spec fn run_choice<K: TokenKind, A: ParserAction>(
    p: Parser<K, A>,
    g: Seq<Parser<K, A>>,
    depth: nat,
    i: int,
    s: Seq<Token<K>>,
    off: int,
) -> Option<(A::Tree, int)>
    decreases depth, p, 0int, (match p {
        Parser::Choice(c) => c.choices@.len() - i,
        _ => 0,
    }),
{
    match p {
        Parser::Choice(c) => if 0 <= i < c.choices@.len() {
            match spec_parse(c.choices@[i], g, depth, s, off) {
                (Ok(t), o) => Some((t, o)),
                _ => run_choice(p, g, depth, i + 1, s, off),
            }
        } else {
            None
        },
        _ => None,
    }
}

/// Parsing never moves the reader back.
pub proof fn lemma_parse_forward<K: TokenKind, A: ParserAction>(
    p: Parser<K, A>,
    g: Seq<Parser<K, A>>,
    depth: nat,
    s: Seq<Token<K>>,
    off: int,
)
    ensures
        spec_parse(p, g, depth, s, off).1 >= off,
    decreases depth, p, 1int, 0int,
{
    match p {
        Parser::Token(_) => {},
        Parser::Sequential(q) => {
            lemma_children_forward(p, g, depth, q.sequence@.len() as int, s, off);
        },
        Parser::Choice(c) => {
            lemma_choice_forward(p, g, depth, 0, s, off);
        },
        Parser::Rule(i) => if depth > 0 && i < g.len() {
            lemma_parse_forward(g[i as int], g, (depth - 1) as nat, s, off);
        },
    }
}

proof fn lemma_children_forward<K: TokenKind, A: ParserAction>(
    p: Parser<K, A>,
    g: Seq<Parser<K, A>>,
    depth: nat,
    n: int,
    s: Seq<Token<K>>,
    off: int,
)
    ensures
        run_children(p, g, depth, n, s, off).1 >= off,
    decreases depth, p, 0int, n,
{
    match p {
        Parser::Sequential(q) => if 0 < n <= q.sequence@.len() {
            lemma_children_forward(p, g, depth, n - 1, s, off);
            let o = run_children(p, g, depth, n - 1, s, off).1;
            lemma_parse_forward(q.sequence@[n - 1], g, depth, s, o);
        },
        _ => {},
    }
}

proof fn lemma_choice_forward<K: TokenKind, A: ParserAction>(
    p: Parser<K, A>,
    g: Seq<Parser<K, A>>,
    depth: nat,
    i: int,
    s: Seq<Token<K>>,
    off: int,
)
    ensures
        run_choice(p, g, depth, i, s, off) matches Some((_, o)) ==> o >= off,
    decreases depth, p, 0int, (match p {
        Parser::Choice(c) => c.choices@.len() - i,
        _ => 0,
    }),
{
    match p {
        Parser::Choice(c) => if 0 <= i < c.choices@.len() {
            lemma_parse_forward(c.choices@[i], g, depth, s, off);
            lemma_choice_forward(p, g, depth, i + 1, s, off);
        },
        _ => {},
    }
}

/// Once a child of a sequence fails, the sequence fails the same way.
proof fn lemma_children_err<K: TokenKind, A: ParserAction>(
    p: Parser<K, A>,
    g: Seq<Parser<K, A>>,
    depth: nat,
    n: int,
    m: int,
    s: Seq<Token<K>>,
    off: int,
)
    requires
        p is Sequential,
        0 <= n <= m <= p->Sequential_0.sequence@.len(),
        run_children(p, g, depth, n, s, off).0 is Err,
    ensures
        run_children(p, g, depth, m, s, off) == run_children(p, g, depth, n, s, off),
    decreases m - n,
{
    if n < m {
        lemma_children_err(p, g, depth, n, m - 1, s, off);
    }
}

/// A parse result with its error seen as a value.
pub open spec fn result_view<K: TokenKind, T>(r: Result<T, ParsingError<K>>) -> Result<
    T,
    ParsingErrorView<K>,
> {
    match r {
        Ok(t) => Ok(t),
        Err(e) => Err(e.view()),
    }
}

/// An expected-kinds result with the kinds seen as a set.
pub open spec fn kinds_view<K: TokenKind>(r: Result<Vec<K>, ParsingError<K>>) -> Result<
    Set<K>,
    ParsingErrorView<K>,
> {
    match r {
        Ok(v) => Ok(v@.to_set()),
        Err(e) => Err(e.view()),
    }
}

/// Refuses an empty set of expected kinds.
fn check_expected<K: TokenKind>(r: Result<Vec<K>, ParsingError<K>>) -> (c: Result<
    Vec<K>,
    ParsingError<K>,
>)
    ensures
        kinds_view(c) == checked(kinds_view(r)),
{
    let result = r?;
    if result.len() == 0 {
        assert(result@.to_set() =~= Set::<K>::empty());
        Err(ParsingError::NoExpectedTokensProvided)
    } else {
        assert(result@.to_set().contains(result@[0]));
        Ok(result)
    }
}

impl<K: TokenKind, A: ParserAction> ParserToken<K, A> {
    /// Consumes one token; succeeds when it has the expected kind.
    pub fn parse_in<I: TokenSource<Kind = K>>(
        &self,
        grammar: &Grammar<K, A>,
        depth: usize,
        token_reader: &mut TokenReader<I>,
    ) -> (r: Result<
        A::Tree,
        ParsingError<K>,
    >)
        requires
            old(token_reader).wf(),
        ensures
            final(token_reader).wf(),
            final(token_reader).stream() == old(token_reader).stream(),
            (result_view(r), final(token_reader).spec_offset() as int) == spec_parse(
                Parser::Token(*self), grammar.rules@, depth as nat,
                old(token_reader).stream(),
                old(token_reader).spec_offset() as int,
            ),
    {
        if let Some(token) = token_reader.eat_next() {
            if token.kind.is_same_kind(&self.token_kind) {
                Ok(self.action.token_tree(token.to_kindless()))
            } else {
                let expected_token_kinds = vec![self.token_kind.duplicate()];
                assert(expected_token_kinds@.to_set() =~= set![self.token_kind]);
                Err(ParsingError::UnexpectedToken { expected_token_kinds, actual_token: token.clone() })
            }
        } else {
            let expected_token_kinds = vec![self.token_kind.duplicate()];
            assert(expected_token_kinds@.to_set() =~= set![self.token_kind]);
            Err(ParsingError::UnexpectedEndOfSource { expected_token_kinds })
        }
    }

    /// The kind this parser matches.
    pub fn expected_tokens_unsafe_in(&self, grammar: &Grammar<K, A>, depth: usize) -> (r: Result<Vec<K>, ParsingError<K>>)
        ensures
            kinds_view(r) == spec_expected(Parser::Token(*self), grammar.rules@, depth as nat),
    {
        let kinds = vec![self.token_kind.duplicate()];
        assert(kinds@.to_set() =~= set![self.token_kind]);
        Ok(kinds)
    }
}

impl<K: TokenKind, A: ParserAction> ParserSequential<K, A> {
    /// Runs each sub-parser in order and builds a node from the first
    /// child's token and all the children; the first failure is returned
    /// as it is.
    pub fn parse_in<I: TokenSource<Kind = K>>(
        &self,
        grammar: &Grammar<K, A>,
        depth: usize,
        token_reader: &mut TokenReader<I>,
    ) -> (r: Result<
        A::Tree,
        ParsingError<K>,
    >)
        requires
            old(token_reader).wf(),
        ensures
            final(token_reader).wf(),
            final(token_reader).stream() == old(token_reader).stream(),
            (result_view(r), final(token_reader).spec_offset() as int) == spec_parse(
                Parser::Sequential(*self), grammar.rules@, depth as nat,
                old(token_reader).stream(),
                old(token_reader).spec_offset() as int,
            ),
        decreases depth, self, 0int,
    {
        let ghost p = Parser::Sequential(*self);
        let ghost s = token_reader.stream();
        let ghost off = token_reader.spec_offset() as int;
        let mut children: Vec<A::Tree> = Vec::new();
        let mut token: Option<Token<()>> = None;
        let mut i: usize = 0;
        while i < self.sequence.len()
            invariant
                p == Parser::Sequential(*self),
                s == old(token_reader).stream(),
                off == old(token_reader).spec_offset(),
                i <= self.sequence@.len(),
                token_reader.wf(),
                token_reader.stream() == s,
                run_children(p, grammar.rules@, depth as nat, i as int, s, off) == (
                    Ok::<Seq<A::Tree>, ParsingErrorView<K>>(children@),
                    token_reader.spec_offset() as int,
                ),
                children@.len() == i,
                i > 0 ==> token == Some(children@[0].spec_token()),
                i == 0 ==> token is None,
            decreases self.sequence@.len() - i,
        {
            match self.sequence[i].parse_in(grammar, depth, token_reader) {
                Ok(child) => {
                    if token.is_none() {
                        token = Some(child.token().clone());
                    }
                    children.push(child);
                },
                Err(err) => {
                    proof {
                        lemma_children_err(p, grammar.rules@, depth as nat, i + 1, self.sequence@.len() as int, s, off);
                    }
                    return Err(err);
                },
            }
            i = i + 1;
        }
        match token {
            Some(anchor) => Ok(self.action.sequence_tree(anchor, children)),
            None => Err(ParsingError::RequiredParserFieldMissing("sequence".to_owned())),
        }
    }

    /// The expected kinds of the first sub-parser.
    pub fn expected_tokens_unsafe_in(&self, grammar: &Grammar<K, A>, depth: usize) -> (r: Result<Vec<K>, ParsingError<K>>)
        ensures
            kinds_view(r) == spec_expected(Parser::Sequential(*self), grammar.rules@, depth as nat),
        decreases depth, self, 0int,
    {
        if self.sequence.len() == 0 {
            Err(ParsingError::RequiredParserFieldMissing("sequence".to_owned()))
        } else {
            self.sequence[0].expected_tokens_in(grammar, depth)
        }
    }
}

impl<K: TokenKind, A: ParserAction> ParserChoice<K, A> {
    /// Tries each choice from the same offset and returns the first
    /// success. When all fail the reader is back at the offset it had, and
    /// the error names the token there (or the end) and the union of the
    /// choices' expected kinds.
    pub fn parse_in<I: TokenSource<Kind = K>>(
        &self,
        grammar: &Grammar<K, A>,
        depth: usize,
        token_reader: &mut TokenReader<I>,
    ) -> (r: Result<
        A::Tree,
        ParsingError<K>,
    >)
        requires
            old(token_reader).wf(),
        ensures
            final(token_reader).wf(),
            final(token_reader).stream() == old(token_reader).stream(),
            (result_view(r), final(token_reader).spec_offset() as int) == spec_parse(
                Parser::Choice(*self), grammar.rules@, depth as nat,
                old(token_reader).stream(),
                old(token_reader).spec_offset() as int,
            ),
        decreases depth, self, 0int,
    {
        let ghost p = Parser::Choice(*self);
        let ghost s = token_reader.stream();
        let offset = token_reader.offset();
        let mut i: usize = 0;
        while i < self.choices.len()
            invariant
                p == Parser::Choice(*self),
                s == old(token_reader).stream(),
                offset == old(token_reader).spec_offset(),
                i <= self.choices@.len(),
                token_reader.wf(),
                token_reader.stream() == s,
                token_reader.spec_offset() == offset,
                run_choice(p, grammar.rules@, depth as nat, 0, s, offset as int) == run_choice(p, grammar.rules@, depth as nat, i as int, s, offset as int),
            decreases self.choices@.len() - i,
        {
            let result = self.choices[i].parse_in(grammar, depth, token_reader);
            if let Ok(child) = result {
                return Ok(child);
            } else {
                proof {
                    lemma_parse_forward(self.choices@[i as int], grammar.rules@, depth as nat, s, offset as int);
                }
                token_reader.seek(offset);
            }
            i = i + 1;
        }
        let expected = self.expected_tokens_in(grammar, depth);
        let next = token_reader.peek_next();
        match next {
            Some(token) => {
                let actual_token = token.clone();
                match expected {
                    Ok(expected_token_kinds) => Err(
                        ParsingError::UnexpectedToken { expected_token_kinds, actual_token },
                    ),
                    Err(e) => Err(e),
                }
            },
            None => match expected {
                Ok(expected_token_kinds) => Err(
                    ParsingError::UnexpectedEndOfSource { expected_token_kinds },
                ),
                Err(e) => Err(e),
            },
        }
    }

    /// The union of the choices' expected kinds.
    pub fn expected_tokens_unsafe_in(&self, grammar: &Grammar<K, A>, depth: usize) -> (r: Result<Vec<K>, ParsingError<K>>)
        ensures
            kinds_view(r) == spec_expected(Parser::Choice(*self), grammar.rules@, depth as nat),
        decreases depth, self, 0int,
    {
        let ghost p = Parser::Choice(*self);
        let mut result: Vec<K> = Vec::new();
        let mut i: usize = 0;
        assert(result@.to_set() =~= Set::<K>::empty());
        proof {
            match union_from(p, grammar.rules@, depth as nat, 0) {
                Ok(rest) => {
                    assert(Set::<K>::empty() + rest =~= rest);
                },
                Err(_) => {},
            }
        }
        while i < self.choices.len()
            invariant
                p == Parser::Choice(*self),
                i <= self.choices@.len(),
                union_from(p, grammar.rules@, depth as nat, 0) == match union_from(p, grammar.rules@, depth as nat, i as int) {
                    Ok(rest) => Ok(result@.to_set() + rest),
                    Err(e) => Err(e),
                },
            decreases self.choices@.len() - i,
        {
            let kinds = self.choices[i].expected_tokens_in(grammar, depth)?;
            let mut j: usize = 0;
            let ghost before = result@.to_set();
            assert(kinds@.subrange(0, 0) =~= Seq::<K>::empty());
            assert(before + Seq::<K>::empty().to_set() =~= before);
            while j < kinds.len()
                invariant
                    j <= kinds@.len(),
                    result@.to_set() == before + kinds@.subrange(0, j as int).to_set(),
                decreases kinds@.len() - j,
            {
                let ghost pre = result@;
                if !contains_kind(&result, &kinds[j]) {
                    result.push(kinds[j].duplicate());
                    proof {
                        pre.lemma_push_to_set_commute(kinds@[j as int]);
                    }
                } else {
                    assert(pre.to_set().contains(kinds@[j as int]));
                }
                assert(kinds@.subrange(0, j + 1) =~= kinds@.subrange(0, j as int).push(kinds@[j as int]));
                proof {
                    kinds@.subrange(0, j as int).lemma_push_to_set_commute(kinds@[j as int]);
                }
                assert(result@.to_set() =~= before + kinds@.subrange(0, j + 1).to_set());
                j = j + 1;
            }
            assert(kinds@.subrange(0, kinds@.len() as int) =~= kinds@);
            proof {
                match union_from(p, grammar.rules@, depth as nat, i + 1) {
                    Ok(rest) => {
                        assert(before + (kinds@.to_set() + rest) =~= result@.to_set() + rest);
                    },
                    Err(_) => {},
                }
            }
            i = i + 1;
        }
        assert(result@.to_set() + Set::<K>::empty() =~= result@.to_set());
        Ok(result)
    }

    /// The union of the choices' expected kinds, refused when empty.
    pub fn expected_tokens_in(&self, grammar: &Grammar<K, A>, depth: usize) -> (r: Result<Vec<K>, ParsingError<K>>)
        ensures
            kinds_view(r) == checked(spec_expected(Parser::Choice(*self), grammar.rules@, depth as nat)),
        decreases depth, self, 1int,
    {
        check_expected(self.expected_tokens_unsafe_in(grammar, depth))
    }
}

impl<K: TokenKind, A: ParserAction> Parser<K, A> {
    pub fn parse_in<I: TokenSource<Kind = K>>(
        &self,
        grammar: &Grammar<K, A>,
        depth: usize,
        token_reader: &mut TokenReader<I>,
    ) -> (r: Result<
        A::Tree,
        ParsingError<K>,
    >)
        requires
            old(token_reader).wf(),
        ensures
            final(token_reader).wf(),
            final(token_reader).stream() == old(token_reader).stream(),
            (result_view(r), final(token_reader).spec_offset() as int) == spec_parse(
                *self, grammar.rules@, depth as nat,
                old(token_reader).stream(),
                old(token_reader).spec_offset() as int,
            ),
        decreases depth, self, 1int,
    {
        match self {
            Parser::Token(t) => t.parse_in(grammar, depth, token_reader),
            Parser::Sequential(q) => q.parse_in(grammar, depth, token_reader),
            Parser::Choice(c) => c.parse_in(grammar, depth, token_reader),
            Parser::Rule(i) => {
                if depth == 0 {
                    Err(ParsingError::RecursionLimitReached)
                } else if *i < grammar.rules.len() {
                    grammar.rules[*i].parse_in(grammar, depth - 1, token_reader)
                } else {
                    Err(ParsingError::UndefinedRule(*i))
                }
            },
        }
    }

    pub fn expected_tokens_unsafe_in(&self, grammar: &Grammar<K, A>, depth: usize) -> (r: Result<Vec<K>, ParsingError<K>>)
        ensures
            kinds_view(r) == spec_expected(*self, grammar.rules@, depth as nat),
        decreases depth, self, 1int,
    {
        match self {
            Parser::Token(t) => t.expected_tokens_unsafe_in(grammar, depth),
            Parser::Sequential(q) => q.expected_tokens_unsafe_in(grammar, depth),
            Parser::Choice(c) => c.expected_tokens_unsafe_in(grammar, depth),
            Parser::Rule(i) => {
                if depth == 0 {
                    Err(ParsingError::RecursionLimitReached)
                } else if *i < grammar.rules.len() {
                    grammar.rules[*i].expected_tokens_unsafe_in(grammar, depth - 1)
                } else {
                    Err(ParsingError::UndefinedRule(*i))
                }
            },
        }
    }

    /// The kinds that may start this parser; an empty set is refused.
    pub fn expected_tokens_in(&self, grammar: &Grammar<K, A>, depth: usize) -> (r: Result<Vec<K>, ParsingError<K>>)
        ensures
            kinds_view(r) == checked(spec_expected(*self, grammar.rules@, depth as nat)),
        decreases depth, self, 2int,
    {
        check_expected(self.expected_tokens_unsafe_in(grammar, depth))
    }
}

impl<K: TokenKind, A: ParserAction> ParserToken<K, A> {
    /// Parses on its own, outside any grammar: a rule reference in it fails.
    pub fn parse<I: TokenSource<Kind = K>>(&self, token_reader: &mut TokenReader<I>) -> (r: Result<
        A::Tree,
        ParsingError<K>,
    >)
        requires
            old(token_reader).wf(),
        ensures
            final(token_reader).wf(),
            final(token_reader).stream() == old(token_reader).stream(),
            (result_view(r), final(token_reader).spec_offset() as int) == spec_parse(
                Parser::Token(*self),
                Seq::<Parser<K, A>>::empty(),
                0,
                old(token_reader).stream(),
                old(token_reader).spec_offset() as int,
            ),
    {
        let grammar = Grammar { rules: Vec::new() };
        self.parse_in(&grammar, 0, token_reader)
    }

    /// The expected kinds outside any grammar, an empty set allowed.
    pub fn expected_tokens_unsafe(&self) -> (r: Result<Vec<K>, ParsingError<K>>)
        ensures
            kinds_view(r) == spec_expected(Parser::Token(*self), Seq::<Parser<K, A>>::empty(), 0),
    {
        let grammar = Grammar { rules: Vec::new() };
        self.expected_tokens_unsafe_in(&grammar, 0)
    }
}

impl<K: TokenKind, A: ParserAction> ParserSequential<K, A> {
    /// Parses on its own, outside any grammar: a rule reference in it fails.
    pub fn parse<I: TokenSource<Kind = K>>(&self, token_reader: &mut TokenReader<I>) -> (r: Result<
        A::Tree,
        ParsingError<K>,
    >)
        requires
            old(token_reader).wf(),
        ensures
            final(token_reader).wf(),
            final(token_reader).stream() == old(token_reader).stream(),
            (result_view(r), final(token_reader).spec_offset() as int) == spec_parse(
                Parser::Sequential(*self),
                Seq::<Parser<K, A>>::empty(),
                0,
                old(token_reader).stream(),
                old(token_reader).spec_offset() as int,
            ),
    {
        let grammar = Grammar { rules: Vec::new() };
        self.parse_in(&grammar, 0, token_reader)
    }

    /// The expected kinds outside any grammar, an empty set allowed.
    pub fn expected_tokens_unsafe(&self) -> (r: Result<Vec<K>, ParsingError<K>>)
        ensures
            kinds_view(r) == spec_expected(Parser::Sequential(*self), Seq::<Parser<K, A>>::empty(), 0),
    {
        let grammar = Grammar { rules: Vec::new() };
        self.expected_tokens_unsafe_in(&grammar, 0)
    }
}

impl<K: TokenKind, A: ParserAction> ParserChoice<K, A> {
    /// Parses on its own, outside any grammar: a rule reference in it fails.
    pub fn parse<I: TokenSource<Kind = K>>(&self, token_reader: &mut TokenReader<I>) -> (r: Result<
        A::Tree,
        ParsingError<K>,
    >)
        requires
            old(token_reader).wf(),
        ensures
            final(token_reader).wf(),
            final(token_reader).stream() == old(token_reader).stream(),
            (result_view(r), final(token_reader).spec_offset() as int) == spec_parse(
                Parser::Choice(*self),
                Seq::<Parser<K, A>>::empty(),
                0,
                old(token_reader).stream(),
                old(token_reader).spec_offset() as int,
            ),
    {
        let grammar = Grammar { rules: Vec::new() };
        self.parse_in(&grammar, 0, token_reader)
    }

    /// The expected kinds outside any grammar, an empty set allowed.
    pub fn expected_tokens_unsafe(&self) -> (r: Result<Vec<K>, ParsingError<K>>)
        ensures
            kinds_view(r) == spec_expected(Parser::Choice(*self), Seq::<Parser<K, A>>::empty(), 0),
    {
        let grammar = Grammar { rules: Vec::new() };
        self.expected_tokens_unsafe_in(&grammar, 0)
    }

    /// The expected kinds outside any grammar, an empty set refused.
    pub fn expected_tokens(&self) -> (r: Result<Vec<K>, ParsingError<K>>)
        ensures
            kinds_view(r) == checked(spec_expected(Parser::Choice(*self), Seq::<Parser<K, A>>::empty(), 0)),
    {
        let grammar = Grammar { rules: Vec::new() };
        self.expected_tokens_in(&grammar, 0)
    }
}

impl<K: TokenKind, A: ParserAction> Parser<K, A> {
    /// Parses on its own, outside any grammar: a rule reference in it fails.
    pub fn parse<I: TokenSource<Kind = K>>(&self, token_reader: &mut TokenReader<I>) -> (r: Result<
        A::Tree,
        ParsingError<K>,
    >)
        requires
            old(token_reader).wf(),
        ensures
            final(token_reader).wf(),
            final(token_reader).stream() == old(token_reader).stream(),
            (result_view(r), final(token_reader).spec_offset() as int) == spec_parse(
                *self,
                Seq::<Parser<K, A>>::empty(),
                0,
                old(token_reader).stream(),
                old(token_reader).spec_offset() as int,
            ),
    {
        let grammar = Grammar { rules: Vec::new() };
        self.parse_in(&grammar, 0, token_reader)
    }

    /// The expected kinds outside any grammar, an empty set allowed.
    pub fn expected_tokens_unsafe(&self) -> (r: Result<Vec<K>, ParsingError<K>>)
        ensures
            kinds_view(r) == spec_expected(*self, Seq::<Parser<K, A>>::empty(), 0),
    {
        let grammar = Grammar { rules: Vec::new() };
        self.expected_tokens_unsafe_in(&grammar, 0)
    }

    /// The expected kinds outside any grammar, an empty set refused.
    pub fn expected_tokens(&self) -> (r: Result<Vec<K>, ParsingError<K>>)
        ensures
            kinds_view(r) == checked(spec_expected(*self, Seq::<Parser<K, A>>::empty(), 0)),
    {
        let grammar = Grammar { rules: Vec::new() };
        self.expected_tokens_in(&grammar, 0)
    }
}

impl<K: TokenKind, A: ParserAction> Grammar<K, A> {
    pub fn new(rules: Vec<Parser<K, A>>) -> (r: Self)
        ensures
            r.rules@ == rules@,
    {
        Self { rules }
    }

    /// Parses rule `rule`, following at most `max_depth` rule references
    /// in a row; a deeper recursion fails with `RecursionLimitReached`.
    pub fn parse<I: TokenSource<Kind = K>>(
        &self,
        rule: usize,
        max_depth: usize,
        token_reader: &mut TokenReader<I>,
    ) -> (r: Result<A::Tree, ParsingError<K>>)
        requires
            old(token_reader).wf(),
        ensures
            final(token_reader).wf(),
            final(token_reader).stream() == old(token_reader).stream(),
            (result_view(r), final(token_reader).spec_offset() as int) == spec_parse(
                Parser::<K, A>::Rule(rule),
                self.rules@,
                max_depth as nat,
                old(token_reader).stream(),
                old(token_reader).spec_offset() as int,
            ),
    {
        let start: Parser<K, A> = Parser::Rule(rule);
        start.parse_in(self, max_depth, token_reader)
    }
}


/// A choice whose alternatives all fail leaves the reader where it was.
pub proof fn lemma_choice_backtracks<K: TokenKind, A: ParserAction>(
    c: ParserChoice<K, A>,
    g: Seq<Parser<K, A>>,
    depth: nat,
    s: Seq<Token<K>>,
    off: int,
)
    requires
        spec_parse(Parser::Choice(c), g, depth, s, off).0 is Err,
    ensures
        spec_parse(Parser::Choice(c), g, depth, s, off).1 == off,
{
}

/// A sequence expects exactly what its first sub-parser expects.
pub proof fn lemma_sequence_expects_first<K: TokenKind, A: ParserAction>(
    q: ParserSequential<K, A>,
    g: Seq<Parser<K, A>>,
    depth: nat,
)
    requires
        q.spec_sequence().len() > 0,
    ensures
        checked(spec_expected(Parser::Sequential(q), g, depth)) == checked(
            spec_expected(q.spec_sequence()[0], g, depth),
        ),
{
}

} // verus!
