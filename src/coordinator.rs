use vstd::prelude::*;

use crate::search::SearchOutcome;

verus! {

/// What a verifier found of one candidate.
#[derive(Debug, Clone, Copy, PartialEq, Eq, Structural)]
pub enum Verdict {
    /// The candidate signs the token.
    Match,
    /// It does not: the ordinary case.
    Mismatch,
    /// The verifier could not tell.
    Failure,
}

/// What the coordinator is told.
#[derive(Debug, PartialEq, Eq)]
pub enum Event {
    /// The producer holds the next candidate and asks to queue it.
    CandidateReady,
    /// The producer has reached the end of the keyspace.
    ProducerFinished,
    /// A verifier is free and asks for a candidate.
    WorkerIdle,
    /// A verifier is done with the candidate it was given.
    Verified(String, Verdict),
}

/// What the coordinator decides.
#[derive(Debug, PartialEq, Eq)]
pub enum Action {
    /// Put the producer's candidate in the queue.
    Enqueue,
    /// Keep the producer waiting: the queue is full.
    HoldProducer,
    /// Hand the oldest queued candidate to the idle verifier.
    Dispatch,
    /// Nothing to do now.
    Wait,
    /// Stop the producer and the verifiers: the search ended so.
    Finish(SearchOutcome),
}

/// The decisions of a search that runs one producer and any number of verifiers
/// around a bounded queue.
pub struct Coordinator {
    capacity: usize,
    queued: usize,
    in_flight: usize,
    producer_done: bool,
    finished: bool,
    accepted: Ghost<nat>,
    rejected: Ghost<nat>,
}

/// What one event does: the transition that `handle` makes and the action it returns.
pub open spec fn handle_post(before: Coordinator, event: Event, after: Coordinator, r: Action) -> bool {
    // Once decided, the outcome stands: later events change nothing.
    &&& before.finished() ==> r == Action::Wait && after == before
    &&& r is Finish <==> !before.finished() && after.finished()
    &&& !before.finished() ==> match event {
        Event::CandidateReady => {
            if before.producer_done() {
                r == Action::Wait && after == before
            } else if before.queued() + before.in_flight() < before.capacity() {
                &&& r == Action::Enqueue
                &&& after.queued() == before.queued() + 1
                &&& after.accepted() == before.accepted() + 1
                &&& after.in_flight() == before.in_flight()
                &&& after.rejected() == before.rejected()
                &&& after.producer_done() == before.producer_done()
                &&& !after.finished()
            } else {
                r == Action::HoldProducer && after == before
            }
        },
        Event::ProducerFinished => {
            &&& after.producer_done()
            &&& after.queued() == before.queued()
            &&& after.in_flight() == before.in_flight()
            &&& after.accepted() == before.accepted()
            &&& after.rejected() == before.rejected()
            &&& if after.drained() {
                r == Action::Finish(SearchOutcome::Exhausted)
            } else {
                r == Action::Wait && !after.finished()
            }
        },
        Event::WorkerIdle => {
            if before.queued() > 0 {
                &&& r == Action::Dispatch
                &&& after.queued() == before.queued() - 1
                &&& after.in_flight() == before.in_flight() + 1
                &&& after.accepted() == before.accepted()
                &&& after.rejected() == before.rejected()
                &&& after.producer_done() == before.producer_done()
                &&& !after.finished()
            } else {
                r == Action::Wait && after == before
            }
        },
        Event::Verified(candidate, verdict) => {
            if before.in_flight() == 0 {
                r matches Action::Finish(SearchOutcome::Error(_))
            } else {
                &&& after.in_flight() == before.in_flight() - 1
                &&& after.queued() == before.queued()
                &&& after.producer_done() == before.producer_done()
                &&& match verdict {
                    Verdict::Match => r == Action::Finish(SearchOutcome::Found(candidate)),
                    Verdict::Failure => r matches Action::Finish(SearchOutcome::Error(_)),
                    Verdict::Mismatch => {
                        &&& after.rejected() == before.rejected() + 1
                        &&& after.accepted() == before.accepted()
                        &&& if after.drained() {
                            r == Action::Finish(SearchOutcome::Exhausted)
                        } else {
                            r == Action::Wait && !after.finished()
                        }
                    },
                }
            }
        },
    }
}

impl Coordinator {
    /// How many candidates may be queued or under verification at once.
    pub closed spec fn capacity(&self) -> nat {
        self.capacity as nat
    }

    /// Candidates in the queue.
    pub closed spec fn queued(&self) -> nat {
        self.queued as nat
    }

    /// Candidates handed to verifiers whose verdict has not come.
    pub closed spec fn in_flight(&self) -> nat {
        self.in_flight as nat
    }

    pub closed spec fn producer_done(&self) -> bool {
        self.producer_done
    }

    /// Whether the outcome has been decided.
    pub closed spec fn finished(&self) -> bool {
        self.finished
    }

    /// Candidates taken into the queue so far.
    pub closed spec fn accepted(&self) -> nat {
        self.accepted@
    }

    /// Candidates found not to sign the token so far.
    pub closed spec fn rejected(&self) -> nat {
        self.rejected@
    }

    pub closed spec fn wf(&self) -> bool {
        &&& self.capacity >= 1
        &&& self.queued + self.in_flight <= self.capacity
        &&& !self.finished ==> self.accepted@ == self.queued + self.in_flight + self.rejected@
    }

    pub fn new(capacity: usize) -> (r: Self)
        requires
            capacity >= 1,
        ensures
            r.wf(),
            r.capacity() == capacity,
            r.queued() == 0,
            r.in_flight() == 0,
            !r.producer_done(),
            !r.finished(),
            r.accepted() == 0,
            r.rejected() == 0,
    {
        Coordinator {
            capacity,
            queued: 0,
            in_flight: 0,
            producer_done: false,
            finished: false,
            accepted: Ghost(0),
            rejected: Ghost(0),
        }
    }

    /// Whether nothing is left to verify and nothing more will come.
    pub open spec fn drained(&self) -> bool {
        self.producer_done() && self.queued() == 0 && self.in_flight() == 0
    }

    /// Takes one event and says what to do.
    pub fn handle(&mut self, event: Event) -> (r: Action)
        requires
            old(self).wf(),
        ensures
            final(self).wf(),
            final(self).capacity() == old(self).capacity(),
            handle_post(*old(self), event, *final(self), r),
    {
        if self.finished {
            return Action::Wait;
        }
        match event {
            Event::CandidateReady => {
                if self.producer_done {
                    Action::Wait
                } else if self.queued + self.in_flight < self.capacity {
                    self.queued = self.queued + 1;
                    self.accepted = Ghost(self.accepted@ + 1);
                    Action::Enqueue
                } else {
                    Action::HoldProducer
                }
            },
            Event::ProducerFinished => {
                self.producer_done = true;
                if self.queued == 0 && self.in_flight == 0 {
                    self.finished = true;
                    Action::Finish(SearchOutcome::Exhausted)
                } else {
                    Action::Wait
                }
            },
            Event::WorkerIdle => {
                if self.queued > 0 {
                    self.queued = self.queued - 1;
                    self.in_flight = self.in_flight + 1;
                    Action::Dispatch
                } else {
                    Action::Wait
                }
            },
            Event::Verified(candidate, verdict) => {
                if self.in_flight == 0 {
                    self.finished = true;
                    return Action::Finish(
                        SearchOutcome::Error(String::from_str("a verdict came for no candidate")),
                    );
                }
                self.in_flight = self.in_flight - 1;
                match verdict {
                    Verdict::Match => {
                        self.finished = true;
                        Action::Finish(SearchOutcome::Found(candidate))
                    },
                    Verdict::Failure => {
                        self.finished = true;
                        Action::Finish(
                            SearchOutcome::Error(String::from_str("a verifier failed")),
                        )
                    },
                    Verdict::Mismatch => {
                        self.rejected = Ghost(self.rejected@ + 1);
                        if self.producer_done && self.queued == 0 && self.in_flight == 0 {
                            self.finished = true;
                            Action::Finish(SearchOutcome::Exhausted)
                        } else {
                            Action::Wait
                        }
                    },
                }
            },
        }
    }
}

/// However many verifiers run, and in whatever order their verdicts come, the
/// coordinator ends with `Exhausted` only once every candidate it queued has been
/// found not to sign the token, and with `Found` only for a candidate that a
/// verifier reported as a match.
pub proof fn lemma_outcome_is_earned(before: Coordinator, event: Event, after: Coordinator, r: Action)
    requires
        before.wf(),
        !before.finished(),
        handle_post(before, event, after, r),
    ensures
        r == Action::Finish(SearchOutcome::Exhausted) ==> after.drained() && after.accepted()
            == after.rejected(),
        r matches Action::Finish(SearchOutcome::Found(s)) ==> event == Event::Verified(
            s,
            Verdict::Match,
        ),
{
}

} // verus!
