use vstd::prelude::*;

use super::dfsa::DFSA;
use super::dfsa_error::{DFSAError, Result};
use super::dfsa_types::{DFSAElement, DFSAId};

verus! {

/// A cursor that walks a borrowed automaton from its start state.
pub struct DFSAExecutor<'dfsa, E: DFSAElement, A> {
    dfsa: &'dfsa DFSA<E, A>,
    start_id: DFSAId,
    current_id: DFSAId,
    moved: bool,
}

impl<'dfsa, E: DFSAElement, A> DFSAExecutor<'dfsa, E, A> {
    pub closed spec fn spec_dfsa(&self) -> &'dfsa DFSA<E, A> {
        self.dfsa
    }

    pub closed spec fn spec_start_id(&self) -> DFSAId {
        self.start_id
    }

    pub closed spec fn spec_current_id(&self) -> DFSAId {
        self.current_id
    }

    /// Whether a step has succeeded since construction or the last reset.
    pub closed spec fn spec_moved(&self) -> bool {
        self.moved
    }

    /// The cursor stands on a state of a well-formed automaton.
    pub open spec fn wf(&self) -> bool {
        &&& self.spec_dfsa().wf()
        &&& self.spec_start_id() < self.spec_dfsa().num_states()
        &&& self.spec_current_id() < self.spec_dfsa().num_states()
    }

    /// Fails with `NoStartId` when the automaton has no start state.
    pub fn new(dfsa: &'dfsa DFSA<E, A>) -> (r: Result<Self>)
        requires
            dfsa.wf(),
        ensures
            dfsa.spec_start_id() is None ==> r == Err::<Self, DFSAError>(DFSAError::NoStartId),
            dfsa.spec_start_id() is Some ==> {
                &&& r is Ok
                &&& r->Ok_0.spec_dfsa() == dfsa
                &&& r->Ok_0.spec_start_id() == dfsa.spec_start_id()->Some_0
                &&& r->Ok_0.spec_current_id() == dfsa.spec_start_id()->Some_0
                &&& !r->Ok_0.spec_moved()
                &&& r->Ok_0.wf()
            },
    {
        let start_id = dfsa.try_get_start_id()?;
        Ok(Self { dfsa, start_id, current_id: start_id, moved: false })
    }

    /// Puts the cursor back on the start state.
    pub fn reset(&mut self)
        requires
            old(self).wf(),
        ensures
            final(self).wf(),
            final(self).spec_current_id() == old(self).spec_start_id(),
            final(self).spec_start_id() == old(self).spec_start_id(),
            final(self).spec_dfsa() == old(self).spec_dfsa(),
            !final(self).spec_moved(),
    {
        self.current_id = self.start_id;
        self.moved = false;
    }

    /// Follows the transition on `element`; on failure the cursor stays.
    pub fn step(&mut self, element: E) -> (r: Result<()>)
        requires
            old(self).wf(),
        ensures
            final(self).wf(),
            old(self).spec_dfsa().transition_outcome(old(self).spec_current_id(), element) is Ok
                ==> {
                &&& r == Ok::<(), DFSAError>(())
                &&& final(self).spec_current_id() == old(self).spec_dfsa().transition_outcome(
                    old(self).spec_current_id(),
                    element,
                )->Ok_0
                &&& final(self).spec_moved()
            },
            old(self).spec_dfsa().transition_outcome(old(self).spec_current_id(), element) is Err
                ==> {
                &&& r == Err::<(), DFSAError>(
                    old(self).spec_dfsa().transition_outcome(
                        old(self).spec_current_id(),
                        element,
                    )->Err_0,
                )
                &&& final(self).spec_current_id() == old(self).spec_current_id()
                &&& final(self).spec_moved() == old(self).spec_moved()
            },
            final(self).spec_start_id() == old(self).spec_start_id(),
            final(self).spec_dfsa() == old(self).spec_dfsa(),
    {
        match self.dfsa.try_get_transition(self.current_id, element) {
            Ok(next_id) => {
                self.current_id = next_id;
                self.moved = true;
                Ok(())
            },
            Err(err) => Err(err),
        }
    }

    /// The action of the current state, if any.
    pub fn current_action(&self) -> (r: Option<&'dfsa A>)
        requires
            self.wf(),
        ensures
            r matches Some(a) ==> self.spec_dfsa().spec_action(self.spec_current_id() as int)
                == Some(*a),
            r is None ==> self.spec_dfsa().spec_action(self.spec_current_id() as int) is None,
    {
        match self.dfsa.try_get_state_action(self.current_id) {
            Ok(a) => Some(a),
            Err(_) => None,
        }
    }

    /// True when no step has succeeded since construction or the last reset.
    pub fn is_at_start(&self) -> (r: bool)
        ensures
            r == !self.spec_moved(),
    {
        !self.moved
    }
}

} // verus!
