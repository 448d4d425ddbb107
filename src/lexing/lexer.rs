use vstd::prelude::*;

use super::dfsa::DFSA;
use super::dfsa_types::DFSAId;
use super::lexer_context::LexerContext;
use super::lexer_trigger_action::{LexerTriggerAction, LexerTriggerActionCallback};
use super::lexing_error::{LexingError, Result};
use crate::messaging::message_context::MessageContext;
use crate::sourcing::read_source::ReadSource;
use crate::sourcing::source_reader::SourceReader;
use crate::sourcing::source_string::chars_of;

verus! {

/// Every state of `d` is reached from the start state 0 by exactly one
/// word, `words[id]`: the automaton is a tree of prefixes.
pub open spec fn is_trie<A>(d: DFSA<char, A>, words: Seq<Seq<char>>) -> bool {
    &&& words.len() == d.num_states()
    &&& forall|id: int| 0 <= id < words.len() ==> #[trigger] d.run(0, words[id]) == Some(id as DFSAId)
    &&& forall|w: Seq<char>| #[trigger]
        d.run(0, w) is Some ==> w == words[d.run(0, w)->Some_0 as int]
}

/// In an automaton grown by one state `n`, entered only from `cur` on `c`,
/// a run ends either where it ended before or, reading the word of `cur`
/// and then `c`, at `n`.
proof fn lemma_run_after_growth<A>(
    before: DFSA<char, A>,
    after: DFSA<char, A>,
    words: Seq<Seq<char>>,
    cur: DFSAId,
    c: char,
    w: Seq<char>,
)
    requires
        before.wf(),
        is_trie(before, words),
        1 <= before.num_states() < usize::MAX,
        cur < before.num_states(),
        after.num_states() == before.num_states() + 1,
        after.spec_transition(cur as int, c) == Some(before.num_states() as DFSAId),
        forall|id: int, e: char|
            (id != cur || e != c) && id != before.num_states() ==> #[trigger] after.spec_transition(
                id,
                e,
            ) == before.spec_transition(id, e),
        forall|e: char| #[trigger] after.spec_transition(before.num_states() as int, e) is None,
    ensures
        after.run(0, w) is Some ==> {
            ||| after.run(0, w)->Some_0 < before.num_states() && before.run(0, w) == after.run(0, w)
            ||| after.run(0, w) == Some(before.num_states() as DFSAId) && w == words[cur as int].push(c)
        },
    decreases w.len(),
{
    if w.len() > 0 {
        let v = w.drop_last();
        let l = w.last();
        lemma_run_after_growth(before, after, words, cur, c, v);
        if after.run(0, w) is Some {
            assert(after.run(0, v) is Some);
            let y = after.run(0, v)->Some_0;
            assert(after.run(0, w) == after.spec_transition(y as int, l));
            assert(after.spec_transition(before.num_states() as int, l) is None);
            assert(before.run(0, v) == Some(y));
            if y == cur && l == c {
                assert(v == words[before.run(0, v)->Some_0 as int]);
                assert(v == words[cur as int]);
                assert(w =~= v.push(l));
            } else {
                assert(after.spec_transition(y as int, l) == before.spec_transition(y as int, l));
                assert(before.run(0, w) == before.spec_transition(y as int, l));
            }
        }
    }
}

proof fn lemma_trie_grows<A>(
    before: DFSA<char, A>,
    after: DFSA<char, A>,
    words: Seq<Seq<char>>,
    cur: DFSAId,
    c: char,
)
    requires
        before.wf(),
        is_trie(before, words),
        1 <= before.num_states() < usize::MAX,
        cur < before.num_states(),
        after.extends(&before),
        after.num_states() == before.num_states() + 1,
        after.spec_transition(cur as int, c) == Some(before.num_states() as DFSAId),
        forall|id: int, e: char|
            (id != cur || e != c) && id != before.num_states() ==> #[trigger] after.spec_transition(
                id,
                e,
            ) == before.spec_transition(id, e),
        forall|e: char| #[trigger] after.spec_transition(before.num_states() as int, e) is None,
    ensures
        is_trie(after, words.push(words[cur as int].push(c))),
{
    let n = before.num_states();
    let ws = words.push(words[cur as int].push(c));
    assert forall|id: int| 0 <= id < ws.len() implies #[trigger] after.run(0, ws[id]) == Some(
        id as DFSAId,
    ) by {
        if id < n {
            after.lemma_run_extends(&before, 0, words[id]);
        } else {
            after.lemma_run_extends(&before, 0, words[cur as int]);
            assert(ws[id].drop_last() =~= words[cur as int]);
        }
    }
    assert forall|w: Seq<char>| #[trigger] after.run(0, w) is Some implies w == ws[after.run(
        0,
        w,
    )->Some_0 as int] by {
        lemma_run_after_growth(before, after, words, cur, c, w);
    }
}

/// A set of triggers (a character prefix and the callback it activates),
/// compiled into one automaton, plus an error-recovery policy.
pub struct Lexer<C> {
    trigger_dfsa: DFSA<char, LexerTriggerAction<C>>,
    error_handler: Option<C>,
    words: Ghost<Seq<Seq<char>>>,
}

impl<C: LexerTriggerActionCallback> Lexer<C> {
    pub closed spec fn spec_dfsa(&self) -> DFSA<char, LexerTriggerAction<C>> {
        self.trigger_dfsa
    }

    pub closed spec fn spec_error_handler(&self) -> Option<C> {
        self.error_handler
    }

    /// The word that leads to each state.
    pub closed spec fn spec_words(&self) -> Seq<Seq<char>> {
        self.words@
    }

    /// The trigger automaton is a tree of prefixes rooted at state 0, which
    /// no transition enters and which has no action.
    pub open spec fn wf(&self) -> bool {
        let d = self.spec_dfsa();
        &&& d.wf()
        &&& is_trie(d, self.spec_words())
        &&& d.spec_start_id() == Some(0usize)
        &&& d.num_states() >= 1
        &&& d.spec_action(0) is None
        &&& forall|id: int, e: char| #[trigger]
            d.spec_transition(id, e) is Some ==> d.spec_transition(id, e)->Some_0 != 0
    }

    /// The callback that the characters `w` activate, if any.
    pub open spec fn spec_trigger(&self, w: Seq<char>) -> Option<C> {
        match self.spec_dfsa().run(0, w) {
            Some(id) => match self.spec_dfsa().spec_action(id as int) {
                Some(a) => Some(a.spec_callback()),
                None => None,
            },
            None => None,
        }
    }

    pub fn new() -> (r: Self)
        ensures
            r.wf(),
            r.spec_dfsa().num_states() == 1,
            r.spec_error_handler() is None,
            forall|w: Seq<char>| #[trigger] r.spec_trigger(w) is None,
    {
        let mut trigger_dfsa = DFSA::new();
        let start_id = trigger_dfsa.add_state();
        let _ = trigger_dfsa.set_start_id(start_id);
        let ghost words = seq![Seq::<char>::empty()];
        let r = Self { trigger_dfsa, error_handler: None, words: Ghost(words) };
        assert forall|w: Seq<char>| #[trigger] r.spec_dfsa().run(0, w) is Some implies w
            == r.spec_words()[r.spec_dfsa().run(0, w)->Some_0 as int] by {
            if w.len() > 0 {
                r.spec_dfsa().lemma_run_prefix_none(0, w, 1);
                assert(w.take(1).drop_last() =~= Seq::<char>::empty());
            }
        }
        assert forall|w: Seq<char>| #[trigger] r.spec_trigger(w) is None by {
            if w.len() > 0 {
                r.spec_dfsa().lemma_run_prefix_none(0, w, 1);
                assert(w.take(1).drop_last() =~= Seq::<char>::empty());
            }
        }
        r
    }

    /// The automaton that the triggers were compiled into.
    pub fn trigger_dfsa(&self) -> (r: &DFSA<char, LexerTriggerAction<C>>)
        ensures
            *r == self.spec_dfsa(),
    {
        &self.trigger_dfsa
    }

    /// Makes `prefix` activate `callback`, leaving every other trigger as
    /// it was. Fails with `DuplicateTrigger`, changing nothing, when
    /// `prefix` already activates one.
    pub fn add_trigger(&mut self, prefix: &str, callback: C) -> (r: Result<()>)
        requires
            old(self).wf(),
            prefix@.len() > 0,
            old(self).spec_dfsa().num_states() + prefix@.len() < usize::MAX,
        ensures
            final(self).wf(),
            final(self).spec_error_handler() == old(self).spec_error_handler(),
            old(self).spec_dfsa().num_states() <= final(self).spec_dfsa().num_states()
                <= old(self).spec_dfsa().num_states() + prefix@.len(),
            old(self).spec_trigger(prefix@) is Some ==> {
                &&& r matches Err(LexingError::DuplicateTrigger(p)) && p@ == prefix@
                &&& final(self).spec_dfsa() == old(self).spec_dfsa()
            },
            old(self).spec_trigger(prefix@) is None ==> {
                &&& r is Ok
                &&& final(self).spec_trigger(prefix@) == Some(callback)
            },
            forall|w: Seq<char>|
                w != prefix@ ==> #[trigger] final(self).spec_trigger(w) == old(self).spec_trigger(
                    w,
                ),
    {
        let chars = chars_of(prefix);
        let ghost w = chars@;
        let ghost old_dfsa = self.trigger_dfsa;
        let ghost old_words = self.words@;
        let ghost old_n = old_dfsa.num_states();
        let mut current_id: DFSAId = 0;
        let mut grown = false;
        let mut i: usize = 0;
        assert(w.take(0) =~= Seq::<char>::empty());
        while i < chars.len()
            invariant
                w == chars@,
                w == prefix@,
                old_dfsa == old(self).spec_dfsa(),
                old_words == old(self).spec_words(),
                old_n == old_dfsa.num_states(),
                i <= w.len(),
                old_n + w.len() < usize::MAX,
                self.wf(),
                self.error_handler == old(self).error_handler,
                old_n <= self.trigger_dfsa.num_states() <= old_n + i,
                forall|id: int| 0 <= id < old_n ==> #[trigger] self.words@[id] == old_words[id],
                forall|id: int|
                    0 <= id < old_n ==> #[trigger] self.trigger_dfsa.spec_action(id)
                        == old_dfsa.spec_action(id),
                forall|id: int|
                    old_n <= id < self.trigger_dfsa.num_states() ==> (
                    #[trigger] self.trigger_dfsa.spec_action(id)) is None,
                self.trigger_dfsa.extends(&old_dfsa),
                self.trigger_dfsa.run(0, w.take(i as int)) == Some(current_id),
                current_id < self.trigger_dfsa.num_states(),
                !grown ==> self.trigger_dfsa == old_dfsa && self.words@ == old_words,
                grown ==> {
                    &&& old_dfsa.run(0, w.take(i as int)) is None
                    &&& current_id >= old_n
                    &&& forall|e: char| #[trigger]
                        self.trigger_dfsa.spec_transition(current_id as int, e) is None
                },
            decreases w.len() - i,
        {
            let c = chars[i];
            assert(w.take(i + 1).drop_last() =~= w.take(i as int));
            assert(w.take(i + 1).last() == c);
            match self.trigger_dfsa.try_get_transition(current_id, c) {
                Ok(next_id) => {
                    current_id = next_id;
                },
                Err(_) => {
                    let ghost before = self.trigger_dfsa;
                    let ghost before_words = self.words@;
                    let next_id = self.trigger_dfsa.add_state();
                    let ghost mid = self.trigger_dfsa;
                    let added = self.trigger_dfsa.add_transition(current_id, c, next_id);
                    proof {
                        assert(mid.spec_transition(current_id as int, c) is None);
                        assert(added is Ok);
                        assert forall|id: int, e: char| #[trigger]
                            before.spec_transition(id, e) is Some implies self.trigger_dfsa.spec_transition(id, e)
                            == before.spec_transition(id, e) by {
                            assert(mid.spec_transition(id, e) == before.spec_transition(id, e));
                        }
                        assert forall|e: char| #[trigger]
                            self.trigger_dfsa.spec_transition(next_id as int, e) is None by {
                            assert(mid.spec_transition(next_id as int, e) is None);
                        }
                        assert forall|id: int, e: char|
                            (id != current_id || e != c) && id != before.num_states() implies #[trigger] self.trigger_dfsa.spec_transition(
                                id,
                                e,
                            ) == before.spec_transition(id, e) by {
                            assert(mid.spec_transition(id, e) == before.spec_transition(id, e));
                        }
                        lemma_trie_grows(before, self.trigger_dfsa, before_words, current_id, c);
                        self.trigger_dfsa.lemma_run_extends(&before, 0, w.take(i as int));
                        assert forall|id: int, e: char| #[trigger]
                            self.trigger_dfsa.spec_transition(id, e) is Some implies self.trigger_dfsa.spec_transition(id, e)->Some_0 != 0 by {
                            if id != current_id || e != c {
                                assert(mid.spec_transition(id, e) == before.spec_transition(id, e) || id == next_id);
                            }
                        }
                        assert forall|id: int, e: char| #[trigger]
                            old_dfsa.spec_transition(id, e) is Some implies self.trigger_dfsa.spec_transition(id, e)
                            == old_dfsa.spec_transition(id, e) by {
                            assert(before.spec_transition(id, e) == old_dfsa.spec_transition(id, e));
                        }
                    }
                    self.words = Ghost(before_words.push(before_words[current_id as int].push(c)));
                    current_id = next_id;
                    grown = true;
                },
            }
            i = i + 1;
        }
        assert(w.take(i as int) =~= w);
        let has_action = self.trigger_dfsa.try_get_state_action(current_id).is_ok();
        if has_action {
            Err(LexingError::DuplicateTrigger(prefix.to_owned()))
        } else {
            let ghost loop_end = self.trigger_dfsa;
            let _ = self.trigger_dfsa.set_state_action(
                current_id,
                Some(LexerTriggerAction::new(callback)),
            );
            proof {
                let f = self.trigger_dfsa;
                assert(f.extends(&loop_end));
                assert(loop_end.extends(&f));
                f.lemma_run_extends(&loop_end, 0, w);
                assert forall|id: int|
                    0 <= id < self.words@.len() implies #[trigger] f.run(0, self.words@[id]) == Some(
                    id as DFSAId,
                ) by {
                    f.lemma_run_extends(&loop_end, 0, self.words@[id]);
                }
                assert forall|v: Seq<char>| #[trigger] f.run(0, v) is Some implies v
                    == self.words@[f.run(0, v)->Some_0 as int] by {
                    loop_end.lemma_run_extends(&f, 0, v);
                }
                assert forall|v: Seq<char>| v != prefix@ implies #[trigger] self.spec_trigger(v)
                    == old(self).spec_trigger(v) by {
                    if loop_end.run(0, v) is Some {
                        loop_end.lemma_run_extends(&f, 0, v);
                        let x = loop_end.run(0, v)->Some_0;
                        assert(v == self.words@[x as int]);
                        assert(x != current_id);
                        if x < old_n {
                            assert(old_dfsa.run(0, old_words[x as int]) == Some(x));
                        } else if old_dfsa.run(0, v) is Some {
                            loop_end.lemma_run_extends(&old_dfsa, 0, v);
                        }
                    } else {
                        if f.run(0, v) is Some {
                            loop_end.lemma_run_extends(&f, 0, v);
                        }
                        if old_dfsa.run(0, v) is Some {
                            loop_end.lemma_run_extends(&old_dfsa, 0, v);
                        }
                    }
                }
            }
            Ok(())
        }
    }

    /// Starts lexing the source behind `source_reader`.
    pub fn lex<S: ReadSource>(
        &self,
        source_reader: SourceReader<S>,
        message_context: MessageContext,
    ) -> (r: LexerContext<'_, C, S>)
        ensures
            r.spec_lexer() == self,
            r.spec_reader() == source_reader,
            r.spec_messages() == message_context,
    {
        LexerContext::new(self, source_reader, message_context)
    }

    /// Replaces the recovery run after an unexpected character; its kind
    /// result is ignored.
    pub fn set_error_handler(&mut self, error_handler: C)
        ensures
            final(self).spec_error_handler() == Some(error_handler),
            final(self).spec_dfsa() == old(self).spec_dfsa(),
    {
        self.error_handler = Some(error_handler)
    }

    /// The recovery set by the user; `None` means the default, which
    /// consumes one character.
    pub fn get_error_handler(&self) -> (r: Option<&C>)
        ensures
            r matches Some(h) ==> self.spec_error_handler() == Some(*h),
            r is None ==> self.spec_error_handler() is None,
    {
        match &self.error_handler {
            Some(h) => Some(h),
            None => None,
        }
    }
}

impl<C: LexerTriggerActionCallback> Default for Lexer<C> {
    fn default() -> (r: Self)
        ensures
            r.wf(),
            r.spec_error_handler() is None,
            forall|w: Seq<char>| #[trigger] r.spec_trigger(w) is None,
    {
        Self::new()
    }
}

} // verus!
