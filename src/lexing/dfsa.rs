use vstd::prelude::*;

use super::dfsa_error::{DFSAError, Result};
use super::dfsa_types::{DFSAElement, DFSAId};

verus! {

/// The destination of the transition on `e` in the list `ts`, if any.
pub open spec fn lookup<E>(ts: Seq<(E, DFSAId)>, e: E) -> Option<DFSAId>
    decreases ts.len(),
{
    if ts.len() == 0 {
        None
    } else if ts.last().0 == e {
        Some(ts.last().1)
    } else {
        lookup(ts.drop_last(), e)
    }
}

fn find_transition<E: DFSAElement>(ts: &Vec<(E, DFSAId)>, e: &E) -> (r: Option<DFSAId>)
    ensures
        r == lookup(ts@, *e),
{
    let mut i: usize = ts.len();
    assert(ts@.subrange(0, i as int) =~= ts@);
    while i > 0
        invariant
            i <= ts@.len(),
            lookup(ts@, *e) == lookup(ts@.subrange(0, i as int), *e),
        decreases i,
    {
        assert(ts@.subrange(0, i as int).drop_last() =~= ts@.subrange(0, i - 1));
        if ts[i - 1].0.is_same_element(e) {
            return Some(ts[i - 1].1);
        }
        i = i - 1;
    }
    None
}

/// One state of an automaton: its optional action and its outgoing
/// transitions, each an element and a destination.
pub struct DFSAState<E, A> {
    action: Option<A>,
    transitions: Vec<(E, DFSAId)>,
}

impl<E, A> DFSAState<E, A> {
    pub closed spec fn spec_action(&self) -> Option<A> {
        self.action
    }

    pub closed spec fn spec_transitions(&self) -> Seq<(E, DFSAId)> {
        self.transitions@
    }

    /// A state without action or transition.
    pub fn new() -> (r: Self)
        ensures
            r.spec_action() is None,
            r.spec_transitions().len() == 0,
    {
        Self { action: None, transitions: Vec::new() }
    }

    /// A state carrying `action`, without transition.
    pub fn new_with_action(action: A) -> (r: Self)
        ensures
            r.spec_action() == Some(action),
            r.spec_transitions().len() == 0,
    {
        Self { action: Some(action), transitions: Vec::new() }
    }
}

/// A deterministic automaton over elements `E` whose states may carry an
/// action `A`. States and transitions are only ever added.
pub struct DFSA<E, A> {
    states: Vec<DFSAState<E, A>>,
    start_id: Option<DFSAId>,
}

impl<E: DFSAElement, A> DFSA<E, A> {
    pub closed spec fn num_states(&self) -> nat {
        self.states@.len()
    }

    pub closed spec fn spec_start_id(&self) -> Option<DFSAId> {
        self.start_id
    }

    /// The action of state `id`, if it has one (`None` out of range).
    pub closed spec fn spec_action(&self, id: int) -> Option<A> {
        if 0 <= id < self.states@.len() {
            self.states@[id].action
        } else {
            None
        }
    }

    /// The destination of the transition from `id` on `e`, if any.
    pub closed spec fn spec_transition(&self, id: int, e: E) -> Option<DFSAId> {
        if 0 <= id < self.states@.len() {
            lookup(self.states@[id].transitions@, e)
        } else {
            None
        }
    }

    /// Every destination and the start state are in range.
    pub open spec fn wf(&self) -> bool {
        &&& forall|id: int, e: E|
            #[trigger] self.spec_transition(id, e) is Some ==> 0 <= id < self.num_states()
                && self.spec_transition(id, e)->Some_0 < self.num_states()
        &&& self.spec_start_id() is Some ==> self.spec_start_id()->Some_0 < self.num_states()
    }

    /// `self` is `earlier` with nothing removed: states, transitions and
    /// the start state are kept.
    pub open spec fn extends(&self, earlier: &Self) -> bool {
        &&& earlier.num_states() <= self.num_states()
        &&& forall|id: int, e: E|
            #[trigger] earlier.spec_transition(id, e) is Some ==> self.spec_transition(id, e)
                == earlier.spec_transition(id, e)
    }

    /// What looking up the transition from `from_id` on `e` gives.
    pub open spec fn transition_outcome(&self, from_id: DFSAId, e: E) -> Result<DFSAId> {
        if from_id >= self.num_states() {
            Err(DFSAError::OutOfRangeId(from_id))
        } else if self.spec_transition(from_id as int, e) is None {
            Err(DFSAError::NoSuchTransition)
        } else {
            Ok(self.spec_transition(from_id as int, e)->Some_0)
        }
    }

    /// What adding the transition from `from_id` on `e` to `to_id` gives.
    pub open spec fn add_transition_outcome(&self, from_id: DFSAId, e: E, to_id: DFSAId) -> Result<()> {
        if to_id >= self.num_states() {
            Err(DFSAError::OutOfRangeId(to_id))
        } else if from_id >= self.num_states() {
            Err(DFSAError::OutOfRangeId(from_id))
        } else if self.spec_transition(from_id as int, e) is Some {
            Err(DFSAError::TransitionAlreadyExists)
        } else {
            Ok(())
        }
    }

    /// The state reached from `id` by reading `w`, if every step exists.
    pub open spec fn run(&self, id: DFSAId, w: Seq<E>) -> Option<DFSAId>
        decreases w.len(),
    {
        if w.len() == 0 {
            Some(id)
        } else {
            match self.run(id, w.drop_last()) {
                Some(x) => self.spec_transition(x as int, w.last()),
                None => None,
            }
        }
    }

    /// Runs that exist are kept when the automaton grows.
    pub proof fn lemma_run_extends(&self, earlier: &Self, id: DFSAId, w: Seq<E>)
        requires
            self.extends(earlier),
            earlier.run(id, w) is Some,
        ensures
            self.run(id, w) == earlier.run(id, w),
        decreases w.len(),
    {
        if w.len() > 0 {
            self.lemma_run_extends(earlier, id, w.drop_last());
        }
    }

    /// A run that stops somewhere cannot be continued.
    pub proof fn lemma_run_prefix_none(&self, id: DFSAId, w: Seq<E>, k: int)
        requires
            0 <= k <= w.len(),
            self.run(id, w.take(k)) is None,
        ensures
            self.run(id, w) is None,
        decreases w.len() - k,
    {
        if k < w.len() {
            assert(w.take(k + 1).drop_last() =~= w.take(k));
            self.lemma_run_prefix_none(id, w, k + 1);
        } else {
            assert(w.take(k) =~= w);
        }
    }

    /// How many elements of `f` a greedy walk from `id` reads, starting
    /// after the first `k`: it stops at the end of `f` or at the first
    /// element without a transition.
    pub open spec fn scan_from(&self, id: DFSAId, f: Seq<E>, k: int) -> int
        decreases f.len() - k,
    {
        if 0 <= k < f.len() && self.run(id, f.take(k + 1)) is Some {
            self.scan_from(id, f, k + 1)
        } else {
            k
        }
    }

    /// How many elements of `f` a greedy walk from `id` reads.
    pub open spec fn scan(&self, id: DFSAId, f: Seq<E>) -> int {
        self.scan_from(id, f, 0)
    }

    /// The action of the longest prefix of `w` (read from `id`) whose
    /// state has one.
    pub open spec fn best_action(&self, id: DFSAId, w: Seq<E>) -> Option<A>
        decreases w.len(),
    {
        match self.run(id, w) {
            Some(x) if self.spec_action(x as int) is Some => self.spec_action(x as int),
            _ => if w.len() == 0 {
                None
            } else {
                self.best_action(id, w.drop_last())
            },
        }
    }

    /// A walk that reads `i` elements and then cannot go on is the greedy scan.
    pub proof fn lemma_scan_exact(&self, id: DFSAId, f: Seq<E>, i: int)
        requires
            0 <= i <= f.len(),
            self.run(id, f.take(i)) is Some,
            i == f.len() || self.run(id, f.take(i + 1)) is None,
        ensures
            self.scan(id, f) == i,
    {
        self.lemma_scan_from_exact(id, f, i, 0);
    }

    proof fn lemma_scan_from_exact(&self, id: DFSAId, f: Seq<E>, i: int, j: int)
        requires
            0 <= j <= i <= f.len(),
            self.run(id, f.take(i)) is Some,
            i == f.len() || self.run(id, f.take(i + 1)) is None,
        ensures
            self.scan_from(id, f, j) == i,
        decreases i - j,
    {
        if j < i {
            if self.run(id, f.take(j + 1)) is None {
                assert(f.take(i).take(j + 1) =~= f.take(j + 1));
                self.lemma_run_prefix_none(id, f.take(i), j + 1);
            }
            self.lemma_scan_from_exact(id, f, i, j + 1);
        }
    }

    pub fn new() -> (r: Self)
        ensures
            r.num_states() == 0,
            r.spec_start_id() is None,
            r.wf(),
    {
        Self { states: Vec::new(), start_id: None }
    }

    /// Adds a state without action and returns its id.
    pub fn add_state(&mut self) -> (r: DFSAId)
        requires
            old(self).num_states() < usize::MAX,
        ensures
            r == old(self).num_states(),
            final(self).num_states() == old(self).num_states() + 1,
            final(self).spec_start_id() == old(self).spec_start_id(),
            final(self).spec_action(r as int) is None,
            forall|e: E| final(self).spec_transition(r as int, e) is None,
            forall|id: int|
                id != r ==> #[trigger] final(self).spec_action(id) == old(self).spec_action(id),
            forall|id: int, e: E|
                id != r ==> #[trigger] final(self).spec_transition(id, e)
                    == old(self).spec_transition(id, e),
            old(self).wf() ==> final(self).wf(),
            old(self).wf() ==> final(self).extends(old(self)),
    {
        let id = self.states.len();
        self.states.push(DFSAState::new());
        proof {
            assert(forall|id: int| 0 <= id < old(self).num_states() ==> self.states@[id] == old(self).states@[id]);
            assert forall|e: E| lookup(self.states@[id as int].transitions@, e) is None by {}
            if old(self).wf() {
                assert forall|i: int, e: E| #[trigger]
                    self.spec_transition(i, e) is Some implies 0 <= i < self.num_states()
                    && self.spec_transition(i, e)->Some_0 < self.num_states() by {
                    if i != id {
                        assert(self.spec_transition(i, e) == old(self).spec_transition(i, e));
                    }
                }
            }
        }
        id
    }

    /// Adds a state carrying `action` and returns its id.
    pub fn add_state_with_action(&mut self, action: A) -> (r: DFSAId)
        requires
            old(self).num_states() < usize::MAX,
        ensures
            r == old(self).num_states(),
            final(self).num_states() == old(self).num_states() + 1,
            final(self).spec_start_id() == old(self).spec_start_id(),
            final(self).spec_action(r as int) == Some(action),
            forall|e: E| final(self).spec_transition(r as int, e) is None,
            forall|id: int|
                id != r ==> #[trigger] final(self).spec_action(id) == old(self).spec_action(id),
            forall|id: int, e: E|
                id != r ==> #[trigger] final(self).spec_transition(id, e)
                    == old(self).spec_transition(id, e),
            old(self).wf() ==> final(self).wf(),
            old(self).wf() ==> final(self).extends(old(self)),
    {
        let id = self.states.len();
        self.states.push(DFSAState::new_with_action(action));
        proof {
            assert(forall|id: int| 0 <= id < old(self).num_states() ==> self.states@[id] == old(self).states@[id]);
            assert forall|e: E| lookup(self.states@[id as int].transitions@, e) is None by {}
            if old(self).wf() {
                assert forall|i: int, e: E| #[trigger]
                    self.spec_transition(i, e) is Some implies 0 <= i < self.num_states()
                    && self.spec_transition(i, e)->Some_0 < self.num_states() by {
                    if i != id {
                        assert(self.spec_transition(i, e) == old(self).spec_transition(i, e));
                    }
                }
            }
        }
        id
    }

    fn is_id_in_bounds(&self, id: DFSAId) -> (r: bool)
        ensures
            r == (id < self.num_states()),
    {
        id < self.states.len()
    }

    fn try_get_state(&self, id: DFSAId) -> (r: Result<&DFSAState<E, A>>)
        ensures
            id < self.num_states() ==> r == Ok::<&DFSAState<E, A>, DFSAError>(
                &self.states@[id as int],
            ),
            id >= self.num_states() ==> r == Err::<&DFSAState<E, A>, DFSAError>(
                DFSAError::OutOfRangeId(id),
            ),
    {
        if id < self.states.len() {
            Ok(&self.states[id])
        } else {
            Err(DFSAError::OutOfRangeId(id))
        }
    }

    /// Adds the transition from `from_id` on `on_element` to `to_id`. Fails,
    /// changing nothing, when an id is out of range (`to_id` is checked
    /// first) or when `from_id` already has a transition on that element.
    pub fn add_transition(&mut self, from_id: DFSAId, on_element: E, to_id: DFSAId) -> (r: Result<
        (),
    >)
        ensures
            r == old(self).add_transition_outcome(from_id, on_element, to_id),
            r is Ok ==> final(self).spec_transition(from_id as int, on_element) == Some(to_id),
            r is Err ==> final(self).spec_transition(from_id as int, on_element) == old(
                self,
            ).spec_transition(from_id as int, on_element),
            forall|id: int, e: E|
                id != from_id || e != on_element ==> #[trigger] final(self).spec_transition(id, e)
                    == old(self).spec_transition(id, e),
            final(self).num_states() == old(self).num_states(),
            final(self).spec_start_id() == old(self).spec_start_id(),
            forall|id: int| #[trigger] final(self).spec_action(id) == old(self).spec_action(id),
            old(self).wf() ==> final(self).wf(),
            final(self).extends(old(self)),
    {
        if !self.is_id_in_bounds(to_id) {
            return Err(DFSAError::OutOfRangeId(to_id));
        }
        if !self.is_id_in_bounds(from_id) {
            return Err(DFSAError::OutOfRangeId(from_id));
        }
        match find_transition(&self.states[from_id].transitions, &on_element) {
            Some(_) => Err(DFSAError::TransitionAlreadyExists),
            None => {
                let ghost e0 = on_element;
                self.states[from_id].transitions.push((on_element, to_id));
                proof {
                    let ts = self.states@[from_id as int].transitions@;
                    assert(ts.drop_last() =~= old(self).states@[from_id as int].transitions@);
                    assert(forall|id: int|
                        0 <= id < self.num_states() && id != from_id ==> self.states@[id]
                            == old(self).states@[id]);
                    if old(self).wf() {
                        assert forall|i: int, e: E| #[trigger]
                            self.spec_transition(i, e) is Some implies 0 <= i
                            < self.num_states() && self.spec_transition(i, e)->Some_0
                            < self.num_states() by {
                            if i != from_id || e != e0 {
                                assert(self.spec_transition(i, e) == old(self).spec_transition(
                                    i,
                                    e,
                                ));
                            }
                        }
                    }
                }
                Ok(())
            },
        }
    }

    pub fn try_get_start_id(&self) -> (r: Result<DFSAId>)
        ensures
            self.spec_start_id() is Some ==> r == Ok::<DFSAId, DFSAError>(
                self.spec_start_id()->Some_0,
            ),
            self.spec_start_id() is None ==> r == Err::<DFSAId, DFSAError>(DFSAError::NoStartId),
    {
        if let Some(result) = self.start_id {
            Ok(result)
        } else {
            Err(DFSAError::NoStartId)
        }
    }

    /// Makes `id` the start state; it may be set again.
    pub fn set_start_id(&mut self, id: DFSAId) -> (r: Result<()>)
        ensures
            id < old(self).num_states() ==> {
                &&& r == Ok::<(), DFSAError>(())
                &&& final(self).spec_start_id() == Some(id)
            },
            id >= old(self).num_states() ==> {
                &&& r == Err::<(), DFSAError>(DFSAError::OutOfRangeId(id))
                &&& final(self).spec_start_id() == old(self).spec_start_id()
            },
            final(self).num_states() == old(self).num_states(),
            forall|i: int| #[trigger] final(self).spec_action(i) == old(self).spec_action(i),
            forall|i: int, e: E|
                #[trigger] final(self).spec_transition(i, e) == old(self).spec_transition(i, e),
            old(self).wf() ==> final(self).wf(),
    {
        if self.is_id_in_bounds(id) {
            self.start_id = Some(id);
            assert(forall|i: int, e: E|
                #[trigger] self.spec_transition(i, e) == old(self).spec_transition(i, e));
            Ok(())
        } else {
            Err(DFSAError::OutOfRangeId(id))
        }
    }

    pub fn try_get_state_action(&self, id: DFSAId) -> (r: Result<&A>)
        ensures
            id >= self.num_states() ==> r == Err::<&A, DFSAError>(DFSAError::OutOfRangeId(id)),
            id < self.num_states() && self.spec_action(id as int) is None ==> r == Err::<
                &A,
                DFSAError,
            >(DFSAError::StateHasNoAction(id)),
            id < self.num_states() && self.spec_action(id as int) is Some ==> {
                &&& r is Ok
                &&& *r->Ok_0 == self.spec_action(id as int)->Some_0
            },
    {
        let state = self.try_get_state(id)?;
        match &state.action {
            Some(action) => Ok(action),
            None => Err(DFSAError::StateHasNoAction(id)),
        }
    }

    /// Sets, replaces or removes the action of state `id`.
    pub fn set_state_action(&mut self, id: DFSAId, action: Option<A>) -> (r: Result<()>)
        ensures
            id < old(self).num_states() ==> {
                &&& r == Ok::<(), DFSAError>(())
                &&& final(self).spec_action(id as int) == action
            },
            id >= old(self).num_states() ==> r == Err::<(), DFSAError>(
                DFSAError::OutOfRangeId(id),
            ),
            forall|i: int|
                i != id ==> #[trigger] final(self).spec_action(i) == old(self).spec_action(i),
            final(self).num_states() == old(self).num_states(),
            final(self).spec_start_id() == old(self).spec_start_id(),
            forall|i: int, e: E|
                #[trigger] final(self).spec_transition(i, e) == old(self).spec_transition(i, e),
            old(self).wf() ==> final(self).wf(),
    {
        if !self.is_id_in_bounds(id) {
            return Err(DFSAError::OutOfRangeId(id));
        }
        self.states[id].action = action;
        proof {
            assert(forall|i: int|
                0 <= i < self.num_states() && i != id ==> self.states@[i] == old(self).states@[i]);
            assert(self.states@[id as int].transitions == old(self).states@[id as int].transitions);
            assert(forall|i: int, e: E|
                #[trigger] self.spec_transition(i, e) == old(self).spec_transition(i, e));
        }
        Ok(())
    }

    pub fn try_get_transition(&self, from_id: DFSAId, on_element: E) -> (r: Result<DFSAId>)
        ensures
            r == self.transition_outcome(from_id, on_element),
    {
        let state = self.try_get_state(from_id)?;
        match find_transition(&state.transitions, &on_element) {
            Some(to_id) => Ok(to_id),
            None => Err(DFSAError::NoSuchTransition),
        }
    }

    /// Once adding the transition from `s` on `e` to `d` has succeeded,
    /// looking it up gives `d`, and adding a transition from `s` on `e`
    /// again fails, whatever its destination.
    pub proof fn lemma_added_transition(&self, before: &Self, s: DFSAId, e: E, d: DFSAId, d2: DFSAId)
        requires
            before.add_transition_outcome(s, e, d) is Ok,
            self.spec_transition(s as int, e) == Some(d),
            self.num_states() == before.num_states(),
        ensures
            self.transition_outcome(s, e) == Ok::<DFSAId, DFSAError>(d),
            self.add_transition_outcome(s, e, d2) is Err,
    {
    }
}

impl<E: DFSAElement, A> Default for DFSA<E, A> {
    fn default() -> (r: Self)
        ensures
            r.num_states() == 0,
            r.spec_start_id() is None,
            r.wf(),
    {
        Self::new()
    }
}

} // verus!
