//! Replayed procedures.
//!
//! A procedure that talks to hardware is a function of the answers received so
//! far. It runs through them from the start; where they end, it stops and
//! names the action whose answer it needs next. The caller performs the
//! action, records the answer, and runs the procedure again, until it
//! finishes. The procedures therefore do no input or output themselves.
use crate::fault::BusError;
use crate::fault::Fault;
use vstd::prelude::*;

verus! {

/// Why a procedure has no value yet, or never will.
#[derive(Debug)]
pub enum Stop<A, E> {
    /// The answer to this action is needed next.
    Pending(A),
    /// The procedure failed.
    Failed(E),
}

impl<A: View, E: View> View for Stop<A, E> {
    type V = Stop<A::V, E::V>;

    open spec fn view(&self) -> Stop<A::V, E::V> {
        match self {
            Stop::Pending(action) => Stop::Pending(action@),
            Stop::Failed(error) => Stop::Failed(error@),
        }
    }
}

/// What the hardware answered: a byte (of no meaning where the action reads
/// nothing), or a fault.
pub type Answer = Result<u8, Fault>;

/// The answers received so far, and how many of them a procedure has used.
pub struct Tape {
    pub answers: Seq<Answer>,
    pub used: nat,
}

/// What `answer` says.
pub open spec fn answer_view(answer: Result<u8, BusError>) -> Answer {
    match answer {
        Ok(byte) => Ok(byte),
        Err(error) => Err(error@),
    }
}

/// What the answers say.
pub open spec fn answers_view(answers: Seq<Result<u8, BusError>>) -> Seq<Answer> {
    answers.map_values(|answer: Result<u8, BusError>| answer_view(answer))
}

/// The outcome of one action, and the tape after it.
pub open spec fn exchange<A>(tape: Tape, action: A) -> (Result<u8, Stop<A, Fault>>, Tape) {
    if tape.used < tape.answers.len() {
        let after = Tape { answers: tape.answers, used: tape.used + 1 };
        match tape.answers[tape.used as int] {
            Ok(byte) => (Ok(byte), after),
            Err(fault) => (Err(Stop::Failed(fault)), after),
        }
    } else {
        (Err(Stop::Pending(action)), tape)
    }
}

/// The answers that a procedure runs through.
pub struct Session<'a> {
    answers: &'a [Result<u8, BusError>],
    used: usize,
}

impl<'a> View for Session<'a> {
    type V = Tape;

    closed spec fn view(&self) -> Tape {
        Tape { answers: answers_view(self.answers@), used: self.used as nat }
    }
}

/// What `result` says, for a procedure whose value is plain.
pub open spec fn plain_view<T, A: View>(result: Result<T, Stop<A, BusError>>) -> Result<
    T,
    Stop<A::V, Fault>,
> {
    match result {
        Ok(value) => Ok(value),
        Err(stop) => Err(stop@),
    }
}

/// What `result` says, for a procedure whose value has a view.
pub open spec fn outcome_view<T: View, A: View, E: View>(result: Result<T, Stop<A, E>>) -> Result<
    T::V,
    Stop<A::V, E::V>,
> {
    match result {
        Ok(value) => Ok(value@),
        Err(stop) => Err(stop@),
    }
}

impl<'a> Session<'a> {
    /// Starts at the first answer.
    pub fn new(answers: &'a [Result<u8, BusError>]) -> (session: Session<'a>)
        ensures
            session@ == (Tape { answers: answers_view(answers@), used: 0 }),
    {
        Session { answers, used: 0 }
    }

    /// Uses the answer to `action`, or stops to ask for it.
    pub fn exchange<A: View>(&mut self, action: A) -> (result: Result<u8, Stop<A, BusError>>)
        ensures
            (plain_view(result), final(self)@) == exchange(old(self)@, action@),
    {
        if self.used < self.answers.len() {
            let at: usize = self.used;
            self.used = at + 1;
            match &self.answers[at] {
                Ok(byte) => Ok(*byte),
                Err(error) => Err(Stop::Failed(error.copy())),
            }
        } else {
            Err(Stop::Pending(action))
        }
    }
}

/// An action gets the next answer, and that answer alone: a byte is handed on, a
/// fault ends the action, and without an answer it is the action itself that is
/// asked for.
pub proof fn an_action_gets_the_next_answer<A>(tape: Tape, action: A)
    ensures
        tape.used >= tape.answers.len() ==> exchange(tape, action) == (
            Err::<u8, Stop<A, Fault>>(Stop::Pending(action)),
            tape,
        ),
        tape.used < tape.answers.len() ==> {
            let (result, after) = exchange(tape, action);
            &&& after == Tape { answers: tape.answers, used: tape.used + 1 }
            &&& tape.answers[tape.used as int] matches Ok(byte) ==> result == Ok::<
                u8,
                Stop<A, Fault>,
            >(byte)
            &&& tape.answers[tape.used as int] matches Err(fault) ==> result == Err::<
                u8,
                Stop<A, Fault>,
            >(Stop::Failed(fault))
        },
{
}

/// Answers are taken for what they are, one for one.
pub proof fn answers_are_taken_as_they_are(answers: Seq<Result<u8, BusError>>, i: int)
    requires
        0 <= i < answers.len(),
    ensures
        answers_view(answers).len() == answers.len(),
        answers[i] matches Ok(byte) ==> answers_view(answers)[i] == Ok::<u8, Fault>(byte),
        answers[i] matches Err(error) ==> answers_view(answers)[i] == Err::<u8, Fault>(
            Fault { kind: error.kind, message: error.message@ },
        ),
{
}

/// Results are taken for what they are: a value is a value, an action that is
/// asked for is that action, and a failure is that failure.
pub proof fn results_are_taken_as_they_are<T, A: View>(result: Result<T, Stop<A, BusError>>)
    ensures
        match (result, plain_view(result)) {
            (Ok(value), Ok(taken)) => taken == value,
            (Err(Stop::Pending(action)), Err(Stop::Pending(taken))) => taken == action@,
            (Err(Stop::Failed(error)), Err(Stop::Failed(taken))) => taken.kind == error.kind
                && taken.message == error.message@,
            _ => false,
        },
{
}

/// Results with values that have a view are taken for what they are.
pub proof fn outcomes_are_taken_as_they_are<T: View, A: View, E: View>(
    result: Result<T, Stop<A, E>>,
)
    ensures
        match (result, outcome_view(result)) {
            (Ok(value), Ok(taken)) => taken == value@,
            (Err(Stop::Pending(action)), Err(Stop::Pending(taken))) => taken == action@,
            (Err(Stop::Failed(error)), Err(Stop::Failed(taken))) => taken == error@,
            _ => false,
        },
{
}

} // verus!
