use vstd::prelude::*;

use super::dfsa::DFSA;
use super::dfsa_executor::DFSAExecutor;
use super::lexer::Lexer;
use super::lexer_trigger_action::{LexerTriggerAction, LexerTriggerActionCallback};
use super::lexing_error::{escaped_char, push_escaped, LexingError, Result};
use crate::domain::source_location::SourceLocation;
use crate::domain::token::{Token, TokenKind};
use crate::messaging::message::{Message, MessageSource, Severity};
use crate::messaging::message_context::MessageContext;
use crate::sourcing::read_source::ReadSource;
use crate::sourcing::source_reader::{fold_head, fold_newlines, lemma_position_moves, push_char, SourceReader};

verus! {

/// `token` was lexed from `mid` to `now`: it stands at the position of
/// `mid`, its text is everything consumed since, and that text begins with
/// the greedy walk of the trigger automaton from `mid`, which ended at or
/// after a trigger.
pub open spec fn lexed_from<C, S: ReadSource, K: TokenKind>(
    dfsa: DFSA<char, LexerTriggerAction<C>>,
    mid: SourceReader<S>,
    now: SourceReader<S>,
    token: Token<K>,
) -> bool {
    let fm = fold_newlines(mid.pending());
    let k = dfsa.scan(0, fm);
    &&& token.location == mid.spec_location()
    &&& token.text@ == now.consumed_since(&mid)
    &&& k <= token.text@.len()
    &&& token.text@.take(k) == fm.take(k)
    &&& dfsa.best_action(0, fm.take(k)) is Some
}

/// Nothing read is lost: the characters discarded before a token, then
/// its text, then what is left make up, folded, what was left before.
pub proof fn lemma_token_covers_input<C, S: ReadSource, K: TokenKind>(
    dfsa: DFSA<char, LexerTriggerAction<C>>,
    before: SourceReader<S>,
    mid: SourceReader<S>,
    after: SourceReader<S>,
    token: Token<K>,
)
    requires
        mid.progressed_from(&before),
        after.progressed_from(&mid),
        lexed_from(dfsa, mid, after, token),
    ensures
        fold_newlines(before.pending()) == mid.consumed_since(&before) + token.text@
            + fold_newlines(after.pending()),
{
    assert(mid.consumed_since(&before) + token.text@ + fold_newlines(after.pending())
        =~= mid.consumed_since(&before) + (token.text@ + fold_newlines(after.pending())));
}

/// Lexing from `mid` failed with `e`: the greedy walk of the trigger
/// automaton met no trigger; it either could not start on the next
/// character, or stopped (the end of the source or no transition) after
/// consuming, into the buffer, what it read.
pub open spec fn failed_from<C, S: ReadSource>(
    dfsa: DFSA<char, LexerTriggerAction<C>>,
    mid: SourceReader<S>,
    now: SourceReader<S>,
    e: LexingError,
) -> bool {
    let fm = fold_newlines(mid.pending());
    let k = dfsa.scan(0, fm);
    &&& dfsa.best_action(0, fm.take(k)) is None
    &&& now.consumed_since(&mid) == fm.take(k)
    &&& now.buffer_view() == Some(fm.take(k))
    &&& {
        ||| {
            &&& e is UnexpectedCharacter
            &&& k == 0
            &&& fm.len() > 0
            &&& e->UnexpectedCharacter_0 == fm[0]
        }
        ||| {
            &&& e is UnexpectedEndOfSource
            &&& k > 0 || fm.len() == 0
        }
    }
}

/// The greedy walk of the trigger automaton from `mid` read up to `am`
/// and ended at or after a trigger, whose callback, handed `am`, returns
/// `kind` and reads on what it says it reads; by `now` nothing more was
/// consumed.
pub open spec fn callback_chose<C: LexerTriggerActionCallback, S: ReadSource>(
    dfsa: DFSA<char, LexerTriggerAction<C>>,
    mid: SourceReader<S>,
    am: SourceReader<S>,
    now: SourceReader<S>,
    kind: Option<C::Kind>,
) -> bool {
    let fm = fold_newlines(mid.pending());
    let k = dfsa.scan(0, fm);
    let callback = dfsa.best_action(0, fm.take(k))->Some_0.spec_callback();
    &&& am.advanced_from(&mid)
    &&& am.consumed_since(&mid) == fm.take(k)
    &&& dfsa.best_action(0, fm.take(k)) is Some
    &&& callback.spec_kind(am) == kind
    &&& now.consumed_since(&mid) == fm.take(k) + callback.spec_read(fold_newlines(am.pending()))
}

/// From `a`, the greedy walk of the trigger automaton ended at or after a
/// trigger, whose callback read on and then discarded the text: `b` is the
/// reader after the buffer was cleared.
pub open spec fn discarded_from<C: LexerTriggerActionCallback, S: ReadSource>(
    dfsa: DFSA<char, LexerTriggerAction<C>>,
    a: SourceReader<S>,
    b: SourceReader<S>,
) -> bool {
    let fa = fold_newlines(a.pending());
    let k = dfsa.scan(0, fa);
    &&& b.progressed_from(&a)
    &&& b.buffer_view() == Some(Seq::<char>::empty())
    &&& dfsa.best_action(0, fa.take(k)) is Some
    &&& k <= b.consumed_since(&a).len()
    &&& b.consumed_since(&a).take(k) == fa.take(k)
    &&& exists|am: SourceReader<S>| #[trigger] callback_chose(dfsa, a, am, b, None)
}

/// `chain` starts at `start`, and each reader in it follows the one before
/// by a discarded match.
pub open spec fn discard_chain<C: LexerTriggerActionCallback, S: ReadSource>(
    dfsa: DFSA<char, LexerTriggerAction<C>>,
    start: SourceReader<S>,
    chain: Seq<SourceReader<S>>,
) -> bool {
    &&& chain.len() >= 1
    &&& chain[0] == start
    &&& chain.last().progressed_from(&start)
    &&& forall|i: int|
        0 <= i < chain.len() - 1 ==> #[trigger] discarded_from(dfsa, chain[i], chain[i + 1])
}

/// Lexing from `mid` reached the end: the greedy walk of the trigger
/// automaton met no trigger and could not go on, after reading at least one
/// character or at the end of the source; it consumed what it read.
pub open spec fn ended_from<C, S: ReadSource>(
    dfsa: DFSA<char, LexerTriggerAction<C>>,
    mid: SourceReader<S>,
    now: SourceReader<S>,
) -> bool {
    let fm = fold_newlines(mid.pending());
    let k = dfsa.scan(0, fm);
    &&& dfsa.best_action(0, fm.take(k)) is None
    &&& now.consumed_since(&mid) == fm.take(k)
    &&& k > 0 || fm.len() == 0
}

/// What recovery reads from the characters `fa`: what the error handler
/// reads, or the first character when it reads none or there is no
/// handler.
pub open spec fn recovery_read<C: LexerTriggerActionCallback>(
    handler: Option<C>,
    fa: Seq<char>,
) -> Seq<char> {
    match handler {
        Some(h) => if h.spec_read(fa).len() > 0 {
            h.spec_read(fa)
        } else {
            fa.take(1)
        },
        None => fa.take(1),
    }
}

/// From `a` the next character is unexpected: no trigger starts with it.
/// `b` follows recovery, which consumed what `recovery_read` says.
pub open spec fn recovered_from<C: LexerTriggerActionCallback, S: ReadSource>(
    dfsa: DFSA<char, LexerTriggerAction<C>>,
    handler: Option<C>,
    a: SourceReader<S>,
    b: SourceReader<S>,
) -> bool {
    let fa = fold_newlines(a.pending());
    &&& fa.len() > 0
    &&& dfsa.scan(0, fa) == 0
    &&& b.progressed_from(&a)
    &&& b.buffer_view() == Some(Seq::<char>::empty())
    &&& b.consumed_since(&a) == recovery_read(handler, fa)
}

/// `m` reports the unexpected character at the position of `a`.
pub open spec fn is_diagnostic_for<S: ReadSource>(m: Message, a: SourceReader<S>) -> bool {
    let fa = fold_newlines(a.pending());
    &&& m.source == (MessageSource::Location { location: a.spec_location() })
    &&& m.severity == Severity::Error
    &&& fa.len() > 0
    &&& m.description@ == unexpected_character_text(fa[0])
}

/// One round of recovery from `a` to `b`, reported by `m`: discarded
/// matches, then an unexpected character, reported, then recovery.
pub open spec fn recovery_round<C: LexerTriggerActionCallback, S: ReadSource>(
    dfsa: DFSA<char, LexerTriggerAction<C>>,
    handler: Option<C>,
    a: SourceReader<S>,
    b: SourceReader<S>,
    m: Message,
) -> bool {
    exists|chain: Seq<SourceReader<S>>|
        {
            &&& discard_chain(dfsa, a, chain)
            &&& is_diagnostic_for(m, chain.last())
            &&& recovered_from(dfsa, handler, chain.last(), b)
        }
}

/// What one call of the iterator did, from `start` with messages `old_ms`
/// to `now` with messages `ms`: rounds of recovery, each reported by one
/// new message, then discarded matches, then the token `r` or the end.
pub open spec fn iterated<C: LexerTriggerActionCallback, S: ReadSource>(
    dfsa: DFSA<char, LexerTriggerAction<C>>,
    handler: Option<C>,
    start: SourceReader<S>,
    old_ms: Seq<Message>,
    rounds: Seq<SourceReader<S>>,
    now: SourceReader<S>,
    ms: Seq<Message>,
    r: Option<Token<C::Kind>>,
) -> bool {
    &&& rounds.len() >= 1
    &&& rounds[0] == start
    &&& rounds.last().progressed_from(&start)
    &&& ms.len() == old_ms.len() + rounds.len() - 1
    &&& ms.take(old_ms.len() as int) == old_ms
    &&& forall|j: int|
        0 <= j < rounds.len() - 1 ==> #[trigger] recovery_round(
            dfsa,
            handler,
            rounds[j],
            rounds[j + 1],
            ms[old_ms.len() + j],
        )
    &&& exists|chain: Seq<SourceReader<S>>|
        #[trigger] finished(dfsa, rounds.last(), chain, now, r)
}

/// From `a`, discarded matches along `chain`, then the token `r` lexed, or
/// the end reached, from the last reader of `chain` to `now`.
pub open spec fn finished<C: LexerTriggerActionCallback, S: ReadSource>(
    dfsa: DFSA<char, LexerTriggerAction<C>>,
    a: SourceReader<S>,
    chain: Seq<SourceReader<S>>,
    now: SourceReader<S>,
    r: Option<Token<C::Kind>>,
) -> bool {
    &&& discard_chain(dfsa, a, chain)
    &&& now.progressed_from(&chain.last())
    &&& r is Some ==> lexed_from(dfsa, chain.last(), now, r->Some_0)
    &&& r is Some ==> exists|am: SourceReader<S>|
        #[trigger] callback_chose(dfsa, chain.last(), am, now, Some(r->Some_0.kind))
    &&& r is None ==> ended_from(dfsa, chain.last(), now)
}

/// The description of the diagnostic for an unexpected character.
pub open spec fn unexpected_character_text(c: char) -> Seq<char> {
    "unexpected character '"@ + escaped_char(c) + seq!['\'']
}

fn unexpected_character_description(c: char) -> (r: String)
    ensures
        r@ == unexpected_character_text(c),
{
    let mut description = "unexpected character '".to_owned();
    push_escaped(&mut description, c);
    push_char(&mut description, '\'');
    assert(description@ =~= unexpected_character_text(c));
    description
}

/// Lexes one source: the lexer, the reader over the source, and the buffer
/// that diagnostics go to.
pub struct LexerContext<'lexer, C, S: ReadSource> {
    lexer: &'lexer Lexer<C>,
    source_reader: SourceReader<S>,
    message_context: MessageContext,
}

impl<'lexer, C: LexerTriggerActionCallback, S: ReadSource> LexerContext<'lexer, C, S> {
    pub closed spec fn spec_lexer(&self) -> &'lexer Lexer<C> {
        self.lexer
    }

    pub closed spec fn spec_reader(&self) -> SourceReader<S> {
        self.source_reader
    }

    pub closed spec fn spec_messages(&self) -> MessageContext {
        self.message_context
    }

    pub open spec fn spec_dfsa(&self) -> DFSA<char, LexerTriggerAction<C>> {
        self.spec_lexer().spec_dfsa()
    }

    pub fn new(
        lexer: &'lexer Lexer<C>,
        source_reader: SourceReader<S>,
        message_context: MessageContext,
    ) -> (r: Self)
        ensures
            r.spec_lexer() == lexer,
            r.spec_reader() == source_reader,
            r.spec_messages() == message_context,
    {
        Self { lexer, source_reader, message_context }
    }

    pub fn source_reader(&self) -> (r: &SourceReader<S>)
        ensures
            *r == self.spec_reader(),
    {
        &self.source_reader
    }

    pub fn message_context(&self) -> (r: &MessageContext)
        ensures
            *r == self.spec_messages(),
    {
        &self.message_context
    }

    /// Gives back the reader and the diagnostics.
    pub fn into_parts(self) -> (r: (SourceReader<S>, MessageContext))
        ensures
            r.0 == self.spec_reader(),
            r.1 == self.spec_messages(),
    {
        (self.source_reader, self.message_context)
    }

    /// Walks the trigger automaton greedily over the next characters,
    /// consuming each character it can step on, and returns the action of
    /// the last state with one.
    fn lex_next_trigger_action(&mut self) -> (r: Result<&'lexer LexerTriggerAction<C>>)
        requires
            old(self).spec_lexer().wf(),
            old(self).spec_reader().wf(),
        ensures
            final(self).spec_lexer() == old(self).spec_lexer(),
            final(self).spec_messages() == old(self).spec_messages(),
            final(self).spec_reader().advanced_from(&old(self).spec_reader()),
            ({
                let f = fold_newlines(old(self).spec_reader().pending());
                let k = old(self).spec_dfsa().scan(0, f);
                let best = old(self).spec_dfsa().best_action(0, f.take(k));
                &&& final(self).spec_reader().consumed_since(&old(self).spec_reader()) == f.take(k)
                &&& 0 <= k <= f.len()
                &&& r is Ok ==> best == Some(*r->Ok_0)
                &&& r is Err ==> best is None
                &&& r is Err ==> {
                    ||| {
                        &&& r->Err_0 is UnexpectedCharacter
                        &&& k == 0
                        &&& f.len() > 0
                        &&& r->Err_0->UnexpectedCharacter_0 == f[0]
                    }
                    ||| {
                        &&& r->Err_0 is UnexpectedEndOfSource
                        &&& k > 0 || f.len() == 0
                    }
                }
            }),
    {
        let ghost start = self.source_reader;
        let ghost f = fold_newlines(start.pending());
        let lexer: &'lexer Lexer<C> = self.lexer;
        let dfsa: &'lexer DFSA<char, LexerTriggerAction<C>> = lexer.trigger_dfsa();
        let mut executor = match DFSAExecutor::new(dfsa) {
            Ok(e) => e,
            Err(e) => {
                return Err(LexingError::DFSAError(e));
            },
        };
        let mut last_trigger: Option<&'lexer LexerTriggerAction<C>> = None;
        let first_char = self.source_reader.peek_next().ok();
        proof {
            start.lemma_advanced_refl();
            assert(f.take(0) =~= Seq::<char>::empty());
        }
        loop
            invariant_except_break
                last_trigger is Some ==> self.source_reader.consumed_since(&start).len() > 0
                    && dfsa.best_action(0, f.take(self.source_reader.consumed_since(&start).len() - 1int)) == Some(*last_trigger->Some_0),
                last_trigger is None ==> self.source_reader.consumed_since(&start).len() == 0
                    || dfsa.best_action(0, f.take(self.source_reader.consumed_since(&start).len() - 1int)) is None,
            invariant
                self.lexer == lexer,
                *dfsa == lexer.spec_dfsa(),
                lexer.wf(),
                self.message_context == old(self).message_context,
                start == old(self).source_reader,
                f == fold_newlines(start.pending()),
                self.source_reader.advanced_from(&start),
                self.source_reader.consumed_since(&start) == f.take(self.source_reader.consumed_since(&start).len() as int),
                fold_newlines(self.source_reader.pending()) == f.skip(self.source_reader.consumed_since(&start).len() as int),
                executor.wf(),
                executor.spec_dfsa() == dfsa,
                executor.spec_start_id() == 0,
                dfsa.run(0, f.take(self.source_reader.consumed_since(&start).len() as int)) == Some(executor.spec_current_id()),
                executor.spec_moved() == (self.source_reader.consumed_since(&start).len() > 0),
                first_char == (if f.len() > 0 { Some(f[0]) } else { None::<char> }),
            ensures
                self.source_reader.consumed_since(&start).len() == f.len() || dfsa.run(0, f.take(self.source_reader.consumed_since(&start).len() + 1int)) is None,
                last_trigger is Some ==> dfsa.best_action(0, f.take(self.source_reader.consumed_since(&start).len() as int)) == Some(*last_trigger->Some_0),
                last_trigger is None ==> dfsa.best_action(0, f.take(self.source_reader.consumed_since(&start).len() as int)) is None,
            decreases self.source_reader.pending().len(),
        {
            let ghost i = self.source_reader.consumed_since(&start).len() as int;
            proof {
                if i > 0 {
                    assert(f.take(i).drop_last() =~= f.take(i - 1));
                }
            }
            let current_trigger = executor.current_action();
            if current_trigger.is_some() {
                last_trigger = current_trigger;
            }
            let ghost before = self.source_reader;
            let next = self.source_reader.peek_next();
            match next {
                Ok(next_char) => {
                    proof {
                        assert(fold_newlines(before.pending())[0] == next_char);
                        assert(f[i] == next_char);
                        assert(f.take(i + 1).drop_last() =~= f.take(i));
                    }
                    if executor.step(next_char).is_ok() {
                        let _ = self.source_reader.eat_next();
                        proof {
                            self.source_reader.lemma_advanced_trans(&before, &start);
                            let d = self.source_reader.consumed_since(&start);
                            assert(d =~= f.take(i + 1));
                            assert(fold_newlines(self.source_reader.pending()) =~= f.skip(i + 1));
                        }
                    } else {
                        break;
                    }
                },
                Err(_) => {
                    assert(f.skip(i).len() == 0);
                    break;
                },
            }
        }
        let ghost k = self.source_reader.consumed_since(&start).len() as int;
        proof {
            dfsa.lemma_scan_exact(0, f, k);
        }
        if let Some(last_trigger) = last_trigger {
            Ok(last_trigger)
        } else if let Some(first_char) = first_char {
            if executor.is_at_start() {
                Err(LexingError::UnexpectedCharacter(first_char))
            } else {
                Err(LexingError::UnexpectedEndOfSource)
            }
        } else {
            Err(LexingError::UnexpectedEndOfSource)
        }
    }

    /// Ends a match with what its callback returned: with a kind, the
    /// buffered text becomes a token of that kind at `location`; without
    /// one, the text is discarded. The buffer is left empty either way.
    pub fn emit_or_discard(&mut self, location: SourceLocation, kind: Option<C::Kind>) -> (r:
        Option<Token<C::Kind>>)
        requires
            old(self).spec_reader().buffer_view() is Some,
        ensures
            final(self).spec_lexer() == old(self).spec_lexer(),
            final(self).spec_messages() == old(self).spec_messages(),
            final(self).spec_reader().same_position(&old(self).spec_reader()),
            final(self).spec_reader().buffer_view() == Some(Seq::<char>::empty()),
            kind is None ==> r is None,
            kind is Some ==> {
                &&& r is Some
                &&& r->Some_0.location == location
                &&& r->Some_0.text@ == old(self).spec_reader().buffer_view()->Some_0
                &&& r->Some_0.kind == kind->Some_0
            },
    {
        match kind {
            Some(token_kind) => match self.source_reader.pop_buffer() {
                Ok(text) => Some(Token::new_from_location(location, text, token_kind)),
                Err(_) => None,
            },
            None => {
                let _ = self.source_reader.clear_buffer();
                None
            },
        }
    }

    /// Produces the next token: matches the longest trigger prefix, runs
    /// its callback, and emits the buffered text with the returned kind, or
    /// discards it and goes on when the callback returns `None`.
    pub fn lex_next(&mut self) -> (r: Result<Token<C::Kind>>)
        requires
            old(self).spec_lexer().wf(),
            old(self).spec_reader().wf(),
            old(self).spec_reader().buffer_view() == Some(Seq::<char>::empty()),
        ensures
            final(self).spec_lexer() == old(self).spec_lexer(),
            final(self).spec_messages() == old(self).spec_messages(),
            final(self).spec_reader().progressed_from(&old(self).spec_reader()),
            r is Ok ==> final(self).spec_reader().buffer_view() == Some(Seq::<char>::empty()),
            exists|chain: Seq<SourceReader<S>>|
                {
                    &&& discard_chain(old(self).spec_dfsa(), old(self).spec_reader(), chain)
                    &&& chain.last().buffer_view() == Some(Seq::<char>::empty())
                    &&& final(self).spec_reader().progressed_from(&chain.last())
                    &&& r is Ok ==> lexed_from(
                        old(self).spec_dfsa(),
                        chain.last(),
                        final(self).spec_reader(),
                        r->Ok_0,
                    )
                    &&& r is Ok ==> exists|am: SourceReader<S>|
                        #[trigger] callback_chose(
                            old(self).spec_dfsa(),
                            chain.last(),
                            am,
                            final(self).spec_reader(),
                            Some(r->Ok_0.kind),
                        )
                    &&& r is Err ==> failed_from(
                        old(self).spec_dfsa(),
                        chain.last(),
                        final(self).spec_reader(),
                        r->Err_0,
                    )
                },
    {
        let ghost mut chain = seq![self.source_reader];
        proof {
            old(self).source_reader.lemma_advanced_refl();
        }
        loop
            invariant
                self.lexer == old(self).lexer,
                self.lexer.wf(),
                self.message_context == old(self).message_context,
                self.source_reader.progressed_from(&old(self).source_reader),
                self.source_reader.buffer_view() == Some(Seq::<char>::empty()),
                discard_chain(self.lexer.spec_dfsa(), old(self).source_reader, chain),
                chain.last() == self.source_reader,
            decreases fold_newlines(self.source_reader.pending()).len(),
        {
            let ghost mid = self.source_reader;
            let ghost fm = fold_newlines(mid.pending());
            let location_first = self.source_reader.location().clone();
            match self.lex_next_trigger_action() {
                Ok(trigger_action) => {
                    let ghost after_match = self.source_reader;
                    proof {
                        let k = self.lexer.spec_dfsa().scan(0, fm);
                        if k == 0 {
                            assert(fm.take(k) =~= Seq::<char>::empty());
                            assert(self.lexer.spec_dfsa().run(0, fm.take(k)) == Some(0usize));
                            assert(self.lexer.spec_dfsa().best_action(0, fm.take(k)) is None);
                        }
                    }
                    let kind = trigger_action.callback().call(&mut self.source_reader);
                    let ghost after_callback = self.source_reader;
                    proof {
                        self.source_reader.lemma_advanced_trans(&after_match, &mid);
                        assert(mid.buffer_view()->Some_0 + self.source_reader.consumed_since(&mid)
                            =~= self.source_reader.consumed_since(&mid));
                    }
                    let ghost before_end = self.source_reader;
                    match self.emit_or_discard(location_first, kind) {
                        Some(token) => {
                            proof {
                                self.source_reader.lemma_progressed_same_position(
                                    &before_end,
                                    &mid,
                                );
                                self.source_reader.lemma_progressed_trans(
                                    &mid,
                                    &old(self).source_reader,
                                );
                                let d = self.source_reader.consumed_since(&mid);
                                let k = self.lexer.spec_dfsa().scan(0, fm);
                                assert(after_match.consumed_since(&mid) == fm.take(k));
                                assert(d =~= after_match.consumed_since(&mid)
                                    + before_end.consumed_since(&after_match));
                                assert(d.take(k) =~= fm.take(k));
                                assert(lexed_from(self.lexer.spec_dfsa(), mid, self.source_reader, token));
                                assert(callback_chose(
                                    self.lexer.spec_dfsa(),
                                    mid,
                                    after_match,
                                    self.source_reader,
                                    kind,
                                ));
                                assert(chain.last() == mid);
                                assert(self.source_reader.progressed_from(&chain.last()));
                                assert(discard_chain(old(self).spec_dfsa(), old(self).spec_reader(), chain));
                                assert(lexed_from(old(self).spec_dfsa(), chain.last(), self.spec_reader(), token));
                                assert(chain.last().buffer_view() == Some(Seq::<char>::empty()));
                            }
                            return Ok(token);
                        },
                        None => {
                            proof {
                                self.source_reader.lemma_progressed_same_position(
                                    &before_end,
                                    &mid,
                                );
                                self.source_reader.lemma_progressed_trans(
                                    &mid,
                                    &old(self).source_reader,
                                );
                                let d = self.source_reader.consumed_since(&mid);
                                let k = self.lexer.spec_dfsa().scan(0, fm);
                                assert(d =~= after_match.consumed_since(&mid)
                                    + before_end.consumed_since(&after_match));
                                assert(d.take(k) =~= fm.take(k));
                                assert(callback_chose(
                                    self.lexer.spec_dfsa(),
                                    mid,
                                    after_match,
                                    self.source_reader,
                                    kind,
                                ));
                                assert(discarded_from(self.lexer.spec_dfsa(), mid, self.source_reader));
                                let old_chain = chain;
                                chain = chain.push(self.source_reader);
                                assert forall|i: int| 0 <= i < chain.len() - 1 implies #[trigger] discarded_from(
                                    self.lexer.spec_dfsa(),
                                    chain[i],
                                    chain[i + 1],
                                ) by {
                                    if i < old_chain.len() - 1 {
                                        assert(discarded_from(
                                            self.lexer.spec_dfsa(),
                                            old_chain[i],
                                            old_chain[i + 1],
                                        ));
                                    }
                                }
                            }
                        },
                    }
                },
                Err(e) => {
                    proof {
                        self.source_reader.lemma_progressed_trans(&mid, &old(self).source_reader);
                        assert(Seq::<char>::empty() + self.source_reader.consumed_since(&mid)
                            =~= self.source_reader.consumed_since(&mid));
                        assert(failed_from(self.lexer.spec_dfsa(), mid, self.source_reader, e));
                        assert(chain.last() == mid);
                        assert(self.source_reader.progressed_from(&chain.last()));
                        assert(discard_chain(old(self).spec_dfsa(), old(self).spec_reader(), chain));
                        assert(failed_from(old(self).spec_dfsa(), chain.last(), self.spec_reader(), e));
                    }
                    return Err(e);
                },
            }
        }
    }

    /// The next token, recovering from unexpected characters: each one gets
    /// an error diagnostic at its position, then the lexer's error handler
    /// runs (by default it consumes one character; at least one is always
    /// consumed) and lexing goes on. `None` once no trigger can match.
    pub fn next(&mut self) -> (r: Option<Token<C::Kind>>)
        requires
            old(self).spec_lexer().wf(),
            old(self).spec_reader().wf(),
            old(self).spec_reader().buffer_view() == Some(Seq::<char>::empty()),
            old(self).spec_messages().wf(),
        ensures
            final(self).spec_lexer() == old(self).spec_lexer(),
            final(self).spec_reader().progressed_from(&old(self).spec_reader()),
            final(self).spec_reader().buffer_view() == Some(Seq::<char>::empty()),
            final(self).spec_messages().wf(),
            exists|rounds: Seq<SourceReader<S>>|
                #[trigger] iterated(
                    old(self).spec_dfsa(),
                    old(self).spec_lexer().spec_error_handler(),
                    old(self).spec_reader(),
                    old(self).spec_messages().spec_messages(),
                    rounds,
                    final(self).spec_reader(),
                    final(self).spec_messages().spec_messages(),
                    r,
                ),
    {
        let ghost old_messages = self.message_context.spec_messages();
        let ghost dfsa = self.lexer.spec_dfsa();
        let ghost handler = self.lexer.spec_error_handler();
        let ghost mut rounds = seq![self.source_reader];
        proof {
            old(self).source_reader.lemma_advanced_refl();
            assert(old_messages.take(old_messages.len() as int) =~= old_messages);
        }
        loop
            invariant
                self.lexer == old(self).lexer,
                self.lexer.wf(),
                dfsa == self.lexer.spec_dfsa(),
                handler == self.lexer.spec_error_handler(),
                self.source_reader.progressed_from(&old(self).source_reader),
                self.source_reader.buffer_view() == Some(Seq::<char>::empty()),
                self.message_context.wf(),
                old_messages == old(self).message_context.spec_messages(),
                rounds.len() >= 1,
                rounds[0] == old(self).source_reader,
                rounds.last() == self.source_reader,
                self.message_context.spec_messages().len() == old_messages.len() + rounds.len()
                    - 1,
                self.message_context.spec_messages().take(old_messages.len() as int)
                    == old_messages,
                forall|j: int|
                    0 <= j < rounds.len() - 1 ==> #[trigger] recovery_round(
                        dfsa,
                        handler,
                        rounds[j],
                        rounds[j + 1],
                        self.message_context.spec_messages()[old_messages.len() + j],
                    ),
            decreases fold_newlines(self.source_reader.pending()).len(),
        {
            let ghost start = self.source_reader;
            match self.lex_next() {
                Ok(token) => {
                    proof {
                        let chain = choose|chain: Seq<SourceReader<S>>|
                            {
                                &&& discard_chain(dfsa, start, chain)
                                &&& chain.last().buffer_view() == Some(Seq::<char>::empty())
                                &&& self.source_reader.progressed_from(&chain.last())
                                &&& lexed_from(dfsa, chain.last(), self.source_reader, token)
                                &&& exists|am: SourceReader<S>|
                                    #[trigger] callback_chose(dfsa, chain.last(), am, self.source_reader, Some(token.kind))
                            };
                        self.source_reader.lemma_progressed_trans(&start, &old(self).source_reader);
                        assert(finished(dfsa, rounds.last(), chain, self.source_reader, Some(token)));
                        assert(iterated(
                            dfsa,
                            handler,
                            old(self).source_reader,
                            old_messages,
                            rounds,
                            self.source_reader,
                            self.message_context.spec_messages(),
                            Some(token),
                        ));
                        assert(iterated(
                            old(self).spec_dfsa(),
                            old(self).spec_lexer().spec_error_handler(),
                            old(self).spec_reader(),
                            old(self).spec_messages().spec_messages(),
                            rounds,
                            self.spec_reader(),
                            self.spec_messages().spec_messages(),
                            Some(token),
                        ));
                    }
                    return Some(token);
                },
                Err(LexingError::UnexpectedCharacter(chr)) => {
                    let ghost failed = self.source_reader;
                    let ghost chain = choose|chain: Seq<SourceReader<S>>|
                        {
                            &&& discard_chain(dfsa, start, chain)
                            &&& chain.last().buffer_view() == Some(Seq::<char>::empty())
                            &&& failed.progressed_from(&chain.last())
                            &&& failed_from(
                                dfsa,
                                chain.last(),
                                failed,
                                LexingError::UnexpectedCharacter(chr),
                            )
                        };
                    let ghost mid = chain.last();
                    proof {
                        assert(fold_newlines(mid.pending()).take(0) =~= Seq::<char>::empty());
                        assert(failed.same_position(&mid));
                        assert(failed.pending().len() > 0);
                        failed.lemma_progressed_trans(&start, &old(self).source_reader);
                    }
                    let location = self.source_reader.location().clone();
                    let line = location.line;
                    let column = location.column;
                    let ghost messages_before = self.message_context.spec_messages();
                    let message = Message::new_location(
                        location,
                        Severity::Error,
                        unexpected_character_description(chr),
                    );
                    let ghost diagnostic = message;
                    self.message_context.emit(message);
                    let ghost before_recovery = self.source_reader;
                    let ghost fa = fold_newlines(before_recovery.pending());
                    proof {
                        assert(fa.len() > 0);
                        assert(fa[0] == fold_head(before_recovery.pending()));
                        assert(fa.take(1) =~= seq![fold_head(before_recovery.pending())]);
                    }
                    match self.lexer.get_error_handler() {
                        Some(error_handler) => {
                            let _ = error_handler.call(&mut self.source_reader);
                        },
                        None => {
                            let _ = self.source_reader.eat_next();
                            proof {
                                assert(self.source_reader.consumed_since(&before_recovery)
                                    =~= fa.take(1));
                            }
                        },
                    }
                    let ghost after_handler = self.source_reader;
                    let ghost read = after_handler.consumed_since(&before_recovery);
                    proof {
                        match handler {
                            Some(h) => {
                                assert(read == h.spec_read(fa));
                            },
                            None => {
                                assert(read == fa.take(1));
                            },
                        }
                    }
                    proof {
                        lemma_position_moves(
                            line as int,
                            column as int,
                            self.source_reader.consumed_since(&before_recovery),
                        );
                    }
                    if self.source_reader.location().line == line
                        && self.source_reader.location().column == column {
                        let _ = self.source_reader.eat_next();
                        proof {
                            self.source_reader.lemma_advanced_trans(
                                &after_handler,
                                &before_recovery,
                            );
                            assert(read.len() == 0);
                            assert(after_handler.same_position(&before_recovery));
                            assert(self.source_reader.consumed_since(&before_recovery)
                                =~= fa.take(1));
                        }
                    }
                    let ghost before_clear = self.source_reader;
                    let _ = self.source_reader.clear_buffer();
                    proof {
                        self.source_reader.lemma_progressed_same_position(
                            &before_clear,
                            &before_recovery,
                        );
                        self.source_reader.lemma_progressed_trans(
                            &before_recovery,
                            &old(self).source_reader,
                        );
                        self.source_reader.lemma_progressed_trans(&before_recovery, &mid);
                        assert(self.source_reader.consumed_since(&mid)
                            == self.source_reader.consumed_since(&before_recovery));
                        assert(self.source_reader.consumed_since(&before_recovery)
                            == recovery_read(handler, fa));
                        assert(self.source_reader.consumed_since(&before_recovery).len() > 0);
                        assert(is_diagnostic_for(diagnostic, mid));
                        assert(recovered_from(
                            dfsa,
                            handler,
                            mid,
                            self.source_reader,
                        ));
                        assert(recovery_round(
                            dfsa,
                            handler,
                            start,
                            self.source_reader,
                            diagnostic,
                        ));
                        let ms = self.message_context.spec_messages();
                        let old_rounds = rounds;
                        rounds = rounds.push(self.source_reader);
                        assert(ms.take(old_messages.len() as int) =~= messages_before.take(
                            old_messages.len() as int,
                        ));
                        assert forall|j: int| 0 <= j < rounds.len() - 1 implies #[trigger] recovery_round(
                            dfsa,
                            handler,
                            rounds[j],
                            rounds[j + 1],
                            ms[old_messages.len() + j],
                        ) by {
                            if j < old_rounds.len() - 1 {
                                assert(recovery_round(
                                    dfsa,
                                    handler,
                                    old_rounds[j],
                                    old_rounds[j + 1],
                                    messages_before[old_messages.len() + j],
                                ));
                            }
                        }
                    }
                },
                Err(_) => {
                    // With a well-formed lexer and buffering enabled, the
                    // only other outcome is the end of the source.
                    let ghost ended = self.source_reader;
                    let _ = self.source_reader.clear_buffer();
                    proof {
                        let chain = choose|chain: Seq<SourceReader<S>>|
                            {
                                &&& discard_chain(dfsa, start, chain)
                                &&& chain.last().buffer_view() == Some(Seq::<char>::empty())
                                &&& ended.progressed_from(&chain.last())
                                &&& failed_from(
                                    dfsa,
                                    chain.last(),
                                    ended,
                                    LexingError::UnexpectedEndOfSource,
                                )
                            };
                        let mid = chain.last();
                        self.source_reader.lemma_progressed_same_position(&ended, &mid);
                        self.source_reader.lemma_progressed_trans(&start, &old(self).source_reader);
                        assert(ended_from(dfsa, mid, self.source_reader));
                        assert(finished(dfsa, rounds.last(), chain, self.source_reader, None::<Token<C::Kind>>));
                        assert(iterated(
                            dfsa,
                            handler,
                            old(self).source_reader,
                            old_messages,
                            rounds,
                            self.source_reader,
                            self.message_context.spec_messages(),
                            None::<Token<C::Kind>>,
                        ));
                        assert(iterated(
                            old(self).spec_dfsa(),
                            old(self).spec_lexer().spec_error_handler(),
                            old(self).spec_reader(),
                            old(self).spec_messages().spec_messages(),
                            rounds,
                            self.spec_reader(),
                            self.spec_messages().spec_messages(),
                            None::<Token<C::Kind>>,
                        ));
                    }
                    return None;
                },
            }
        }
    }
}

} // verus!
