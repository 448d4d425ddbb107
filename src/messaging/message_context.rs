use vstd::prelude::*;

use super::message::{Message, Severity};

verus! {

/// How many of the messages `ms` have severity `s`.
pub open spec fn count_severity(ms: Seq<Message>, s: Severity) -> nat
    decreases ms.len(),
{
    if ms.len() == 0 {
        0
    } else {
        count_severity(ms.drop_last(), s) + if ms.last().severity == s {
            1nat
        } else {
            0nat
        }
    }
}

proof fn lemma_count_bounded(ms: Seq<Message>, s: Severity)
    ensures
        count_severity(ms, s) <= ms.len(),
    decreases ms.len(),
{
    if ms.len() > 0 {
        lemma_count_bounded(ms.drop_last(), s);
    }
}

/// An append-only list of diagnostics, with a count per severity.
pub struct MessageContext {
    messages: Vec<Message>,
    severity_counts: Vec<usize>,
}

impl MessageContext {
    /// The per-severity counters agree with the messages.
    pub closed spec fn wf(&self) -> bool {
        &&& self.severity_counts@.len() == 7
        &&& forall|s: Severity| #[trigger]
            self.severity_counts@[s.spec_index()] == count_severity(self.messages@, s)
    }

    pub closed spec fn spec_messages(&self) -> Seq<Message> {
        self.messages@
    }

    pub fn new() -> (r: Self)
        ensures
            r.spec_messages() == Seq::<Message>::empty(),
            r.wf(),
    {
        let mut severity_counts: Vec<usize> = Vec::new();
        let mut i: usize = 0;
        while i < 7
            invariant
                i <= 7,
                severity_counts@.len() == i,
                forall|j: int| 0 <= j < i ==> severity_counts@[j] == 0,
            decreases 7 - i,
        {
            severity_counts.push(0);
            i = i + 1;
        }
        let r = Self { messages: Vec::new(), severity_counts };
        assert forall|s: Severity| #[trigger]
            r.severity_counts@[s.spec_index()] == count_severity(r.messages@, s) by {}
        r
    }

    /// The messages in the order they were emitted.
    pub fn messages(&self) -> (r: &Vec<Message>)
        ensures
            r@ == self.spec_messages(),
    {
        &self.messages
    }

    pub fn emit(&mut self, message: Message)
        requires
            old(self).wf(),
        ensures
            final(self).wf(),
            final(self).spec_messages() == old(self).spec_messages().push(message),
    {
        proof {
            lemma_count_bounded(self.messages@, message.severity);
        }
        let i = message.severity.index();
        let count = self.severity_counts[i];
        self.messages.push(message);
        assert(self.messages.len() <= usize::MAX);
        self.severity_counts.set(i, count + 1);
        proof {
            assert(self.messages@.drop_last() == old(self).messages@);
            assert forall|s: Severity| #[trigger]
                self.severity_counts@[s.spec_index()] == count_severity(self.messages@, s) by {
                if s != message.severity {
                    assert(s.spec_index() != message.severity.spec_index());
                }
            }
        }
    }

    pub fn count_with_severity(&self, severity: Severity) -> (r: usize)
        requires
            self.wf(),
        ensures
            r == count_severity(self.spec_messages(), severity),
    {
        self.severity_counts[severity.index()]
    }
}

impl Default for MessageContext {
    fn default() -> (r: Self)
        ensures
            r.spec_messages() == Seq::<Message>::empty(),
            r.wf(),
    {
        Self::new()
    }
}

} // verus!
