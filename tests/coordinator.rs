use std::collections::VecDeque;

use rust_jwt_cracker::coordinator::{Action, Coordinator, Event, Verdict};
use rust_jwt_cracker::generators::base::AlphabetGenerator;
use rust_jwt_cracker::search::SearchOutcome;

/// Runs a search with `workers` simulated verifiers, where a candidate matches when
/// it equals `secret`. Verdicts come back in the order given by `rotate`: each round
/// the verifiers in flight are served from a rotated position, so that results
/// arrive out of generation order.
fn simulate(alphabet: &str, max_length: usize, secret: &str, workers: usize, rotate: usize) -> SearchOutcome {
    let mut coord = Coordinator::new(2 * workers);
    let mut gen = AlphabetGenerator::init(alphabet.chars()).with_limit(max_length);
    let mut queue: VecDeque<String> = VecDeque::new();
    let mut pending: Option<String> = None;
    let mut producer_done = false;
    let mut in_flight: Vec<String> = Vec::new();
    let mut round = 0usize;
    loop {
        // Producer side.
        if !producer_done {
            let next = pending.take().or_else(|| gen.next());
            match next {
                Some(c) => match coord.handle(Event::CandidateReady) {
                    Action::Enqueue => queue.push_back(c),
                    Action::HoldProducer => pending = Some(c),
                    Action::Finish(o) => return o,
                    other => panic!("unexpected {:?}", other),
                },
                None => {
                    producer_done = true;
                    if let Action::Finish(o) = coord.handle(Event::ProducerFinished) {
                        return o;
                    }
                }
            }
        }
        // Idle verifiers ask for work.
        while in_flight.len() < workers {
            match coord.handle(Event::WorkerIdle) {
                Action::Dispatch => in_flight.push(queue.pop_front().unwrap()),
                Action::Wait => break,
                Action::Finish(o) => return o,
                other => panic!("unexpected {:?}", other),
            }
        }
        // One verifier reports, once the producer is held back or done.
        if !in_flight.is_empty() && (pending.is_some() || producer_done) {
            round += 1;
            let i = (round * rotate) % in_flight.len();
            let c = in_flight.remove(i);
            let verdict = if c == secret { Verdict::Match } else { Verdict::Mismatch };
            if let Action::Finish(o) = coord.handle(Event::Verified(c, verdict)) {
                return o;
            }
        }
    }
}

#[test]
fn many_workers_find_what_one_finds() {
    for secret in ["a", "cb", "bca"] {
        let one = simulate("abc", 3, secret, 1, 0);
        assert_eq!(one, SearchOutcome::Found(secret.to_string()));
        for workers in [2, 3, 8] {
            for rotate in [0, 1, 5] {
                assert_eq!(simulate("abc", 3, secret, workers, rotate), one);
            }
        }
    }
}

#[test]
fn many_workers_exhaust_what_one_exhausts() {
    assert_eq!(simulate("ab", 3, "zz", 1, 0), SearchOutcome::Exhausted);
    for workers in [2, 4] {
        assert_eq!(simulate("ab", 3, "zz", workers, 3), SearchOutcome::Exhausted);
    }
}

#[test]
fn queue_is_bounded() {
    let mut coord = Coordinator::new(2);
    assert_eq!(coord.handle(Event::CandidateReady), Action::Enqueue);
    assert_eq!(coord.handle(Event::CandidateReady), Action::Enqueue);
    assert_eq!(coord.handle(Event::CandidateReady), Action::HoldProducer);
    assert_eq!(coord.handle(Event::WorkerIdle), Action::Dispatch);
    assert_eq!(coord.handle(Event::CandidateReady), Action::HoldProducer);
    assert_eq!(coord.handle(Event::Verified("a".to_string(), Verdict::Mismatch)), Action::Wait);
    assert_eq!(coord.handle(Event::CandidateReady), Action::Enqueue);
}

#[test]
fn idle_worker_waits_on_empty_queue() {
    let mut coord = Coordinator::new(4);
    assert_eq!(coord.handle(Event::WorkerIdle), Action::Wait);
}

#[test]
fn exhausted_only_when_drained() {
    let mut coord = Coordinator::new(4);
    assert_eq!(coord.handle(Event::CandidateReady), Action::Enqueue);
    assert_eq!(coord.handle(Event::WorkerIdle), Action::Dispatch);
    assert_eq!(coord.handle(Event::ProducerFinished), Action::Wait);
    assert_eq!(
        coord.handle(Event::Verified("a".to_string(), Verdict::Mismatch)),
        Action::Finish(SearchOutcome::Exhausted)
    );
}

#[test]
fn empty_keyspace_is_exhausted_at_once() {
    let mut coord = Coordinator::new(1);
    assert_eq!(coord.handle(Event::ProducerFinished), Action::Finish(SearchOutcome::Exhausted));
}

#[test]
fn found_once_and_later_results_ignored() {
    let mut coord = Coordinator::new(4);
    assert_eq!(coord.handle(Event::CandidateReady), Action::Enqueue);
    assert_eq!(coord.handle(Event::CandidateReady), Action::Enqueue);
    assert_eq!(coord.handle(Event::WorkerIdle), Action::Dispatch);
    assert_eq!(coord.handle(Event::WorkerIdle), Action::Dispatch);
    assert_eq!(
        coord.handle(Event::Verified("b".to_string(), Verdict::Match)),
        Action::Finish(SearchOutcome::Found("b".to_string()))
    );
    assert_eq!(coord.handle(Event::Verified("a".to_string(), Verdict::Mismatch)), Action::Wait);
    assert_eq!(coord.handle(Event::ProducerFinished), Action::Wait);
    assert_eq!(coord.handle(Event::CandidateReady), Action::Wait);
}

#[test]
fn failure_ends_with_error() {
    let mut coord = Coordinator::new(4);
    assert_eq!(coord.handle(Event::CandidateReady), Action::Enqueue);
    assert_eq!(coord.handle(Event::WorkerIdle), Action::Dispatch);
    let r = coord.handle(Event::Verified("a".to_string(), Verdict::Failure));
    assert!(matches!(r, Action::Finish(SearchOutcome::Error(_))));
    assert_eq!(coord.handle(Event::WorkerIdle), Action::Wait);
}

#[test]
fn verdict_without_candidate_is_an_error() {
    let mut coord = Coordinator::new(4);
    let r = coord.handle(Event::Verified("a".to_string(), Verdict::Match));
    assert!(matches!(r, Action::Finish(SearchOutcome::Error(_))));
}
