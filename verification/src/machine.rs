//! Whole runs of the state machines that talk to the operating system.
use crate::disk::{AnswerView, RequestView};
use vstd::prelude::*;

verus! {

/// How a state machine goes on, and what it asks for.
#[verifier::reject_recursive_types(S)]
#[verifier::reject_recursive_types(E)]
pub struct Machine<S, E> {
    /// The state after an answer.
    pub next: spec_fn(S, AnswerView<E>) -> S,
    /// What is asked for in a state; nothing where the machine has ended.
    pub request: spec_fn(S) -> Option<RequestView>,
}

impl<S, E> Machine<S, E> {
    /// The state after a sequence of answers.
    pub open spec fn run(self, s: S, answers: Seq<AnswerView<E>>) -> S
        decreases answers.len(),
    {
        if answers.len() == 0 {
            s
        } else {
            self.run((self.next)(s, answers[0]), answers.drop_first())
        }
    }

    /// Whether the machine still asks for each of the answers.
    pub open spec fn takes_all(self, s: S, answers: Seq<AnswerView<E>>) -> bool
        decreases answers.len(),
    {
        answers.len() > 0 ==> {
            &&& (self.request)(s) is Some
            &&& self.takes_all((self.next)(s, answers[0]), answers.drop_first())
        }
    }

    /// What the machine asks for, request by request, while it takes the
    /// answers.
    pub open spec fn asks(self, s: S, answers: Seq<AnswerView<E>>) -> Seq<RequestView>
        decreases answers.len(),
    {
        if answers.len() == 0 {
            seq![]
        } else {
            seq![(self.request)(s)->0] + self.asks(
                (self.next)(s, answers[0]),
                answers.drop_first(),
            )
        }
    }

    /// A run on two sequences of answers is a run on the first, continued on the
    /// second.
    pub proof fn lemma_run_add(self, s: S, a: Seq<AnswerView<E>>, b: Seq<AnswerView<E>>)
        ensures
            self.run(s, a + b) == self.run(self.run(s, a), b),
            self.asks(s, a + b) == self.asks(s, a) + self.asks(self.run(s, a), b),
            self.takes_all(s, a + b) == (self.takes_all(s, a) && self.takes_all(
                self.run(s, a),
                b,
            )),
        decreases a.len(),
    {
        if a.len() == 0 {
            assert(a + b =~= b);
            assert(self.asks(s, a + b) =~= self.asks(s, a) + self.asks(self.run(s, a), b));
        } else {
            let t = (self.next)(s, a[0]);
            assert((a + b).drop_first() =~= a.drop_first() + b);
            assert((a + b)[0] == a[0]);
            self.lemma_run_add(t, a.drop_first(), b);
            assert(self.asks(s, a + b) =~= self.asks(s, a) + self.asks(self.run(s, a), b));
        }
    }

    /// A run on one answer is one step.
    pub proof fn lemma_run_one(self, s: S, answer: AnswerView<E>)
        ensures
            self.run(s, seq![answer]) == (self.next)(s, answer),
            self.takes_all(s, seq![answer]) == (self.request)(s) is Some,
            self.asks(s, seq![answer]) == seq![(self.request)(s)->0],
    {
        let one = seq![answer];
        let t = (self.next)(s, answer);
        assert(one.drop_first() =~= seq![]);
        assert(self.run(t, one.drop_first()) == t);
        assert(self.takes_all(t, one.drop_first()));
        assert(self.asks(t, one.drop_first()) =~= seq![]);
        assert(self.asks(s, one) =~= seq![(self.request)(s)->0]);
    }
}

}
