//! The pipeline status machine: stage states, legal transitions, and the
//! bounded single-retry policy of the AI-driven stages.

use vstd::prelude::*;

verus! {

/// Persisted status of an item. The only field that drives routing.
#[derive(Clone, Copy, Debug, PartialEq, Eq, Structural)]
pub enum Status {
    New,
    Downloaded,
    Scraped,
    Translated,
    Rewriter,
    RewriterRetry,
    RewriterError,
    Illustrator,
    IllustratorRetry,
    IllustratorError,
    Published,
    PublishError,
}

/// Outcome of one processing attempt, discarded after the attempt.
///
/// A soft failure is a provider-level outcome recoverable by the one bounded
/// retry; a hard failure is a transport or programming failure. The two drive
/// the same transition at AI-driven stages; non-AI stages treat every failure
/// as transient and leave the status unchanged.
#[derive(Clone, Copy, Debug, PartialEq, Eq, Structural)]
pub enum Outcome {
    Success,
    SoftFailure,
    HardFailure,
}

pub open spec fn is_failure(o: Outcome) -> bool {
    o is SoftFailure || o is HardFailure
}

/// Statuses from which no stage ever moves an item again.
pub open spec fn is_terminal(s: Status) -> bool {
    match s {
        Status::RewriterError | Status::IllustratorError | Status::Published
            | Status::PublishError => true,
        _ => false,
    }
}

/// The next status for an item in status `s` whose processing attempt ended
/// with outcome `o`.
///
/// Non-AI stages (download, scrape, translate) retry without bound: a failure
/// leaves the status unchanged for the next poll cycle. The AI-driven stages
/// (rewrite, illustrate) get exactly one bounded retry: a failure moves the
/// item to the stage's retry status, and a failure from the retry status moves
/// it to the stage's terminal error status. The publish stage fails terminally
/// at once.
pub open spec fn spec_advance(s: Status, o: Outcome) -> Status {
    match s {
        Status::New => if o is Success { Status::Downloaded } else { Status::New },
        Status::Downloaded => if o is Success { Status::Scraped } else { Status::Downloaded },
        Status::Scraped => if o is Success { Status::Translated } else { Status::Scraped },
        Status::Translated => if o is Success { Status::Rewriter } else { Status::RewriterRetry },
        Status::RewriterRetry => if o is Success { Status::Rewriter } else {
            Status::RewriterError
        },
        Status::Rewriter => if o is Success { Status::Illustrator } else {
            Status::IllustratorRetry
        },
        Status::IllustratorRetry => if o is Success { Status::Illustrator } else {
            Status::IllustratorError
        },
        Status::Illustrator => if o is Success { Status::Published } else {
            Status::PublishError
        },
        Status::RewriterError => Status::RewriterError,
        Status::IllustratorError => Status::IllustratorError,
        Status::Published => Status::Published,
        Status::PublishError => Status::PublishError,
    }
}

/// Pure transition function shared by every worker.
pub fn advance(s: Status, o: Outcome) -> (r: Status)
    ensures
        r == spec_advance(s, o),
{
    match s {
        Status::New => if matches!(o, Outcome::Success) { Status::Downloaded } else { Status::New },
        Status::Downloaded => if matches!(o, Outcome::Success) {
            Status::Scraped
        } else {
            Status::Downloaded
        },
        Status::Scraped => if matches!(o, Outcome::Success) {
            Status::Translated
        } else {
            Status::Scraped
        },
        Status::Translated => if matches!(o, Outcome::Success) {
            Status::Rewriter
        } else {
            Status::RewriterRetry
        },
        Status::RewriterRetry => if matches!(o, Outcome::Success) {
            Status::Rewriter
        } else {
            Status::RewriterError
        },
        Status::Rewriter => if matches!(o, Outcome::Success) {
            Status::Illustrator
        } else {
            Status::IllustratorRetry
        },
        Status::IllustratorRetry => if matches!(o, Outcome::Success) {
            Status::Illustrator
        } else {
            Status::IllustratorError
        },
        Status::Illustrator => if matches!(o, Outcome::Success) {
            Status::Published
        } else {
            Status::PublishError
        },
        Status::RewriterError => Status::RewriterError,
        Status::IllustratorError => Status::IllustratorError,
        Status::Published => Status::Published,
        Status::PublishError => Status::PublishError,
    }
}

/// The edges of the stage graph, self-loops included: a failure of a non-AI
/// stage keeps the status, and a terminal status keeps itself.
pub open spec fn is_edge(s: Status, t: Status) -> bool {
    ||| s == t && (is_terminal(s) || matches!(
        s,
        Status::New | Status::Downloaded | Status::Scraped,
    ))
    ||| matches!(
        (s, t),
        (Status::New, Status::Downloaded)
            | (Status::Downloaded, Status::Scraped)
            | (Status::Scraped, Status::Translated)
            | (Status::Translated, Status::Rewriter)
            | (Status::Translated, Status::RewriterRetry)
            | (Status::RewriterRetry, Status::Rewriter)
            | (Status::RewriterRetry, Status::RewriterError)
            | (Status::Rewriter, Status::Illustrator)
            | (Status::Rewriter, Status::IllustratorRetry)
            | (Status::IllustratorRetry, Status::Illustrator)
            | (Status::IllustratorRetry, Status::IllustratorError)
            | (Status::Illustrator, Status::Published)
            | (Status::Illustrator, Status::PublishError),
    )
}

/// Every transition the machine makes follows an edge of the stage graph:
/// no transition skips a stage.
pub proof fn lemma_advance_follows_graph(s: Status, o: Outcome)
    ensures
        is_edge(s, spec_advance(s, o)),
{
}

/// A terminal status is stable: no outcome moves an item out of it.
pub proof fn lemma_terminal_stable(s: Status, o: Outcome)
    requires
        is_terminal(s),
    ensures
        spec_advance(s, o) == s,
{
}

/// An AI-driven stage hit twice in a row by failure outcomes drives the item
/// to the stage's terminal error status, never beyond: the first failure moves
/// it to the retry status, the second to the error status, and every further
/// outcome leaves it there.
pub proof fn lemma_double_failure_is_terminal(s: Status, o1: Outcome, o2: Outcome, o3: Outcome)
    requires
        s == Status::Translated || s == Status::Rewriter,
        is_failure(o1),
        is_failure(o2),
    ensures
        is_terminal(spec_advance(spec_advance(s, o1), o2)),
        spec_advance(spec_advance(spec_advance(s, o1), o2), o3) == spec_advance(
            spec_advance(s, o1),
            o2,
        ),
{
}

/// Replaying `advance` is safe: the next status depends on the
/// `(status, outcome)` pair alone, so a worker that crashed between writing
/// the artifact and committing the transition re-attempts the very same
/// transition on the next poll cycle.
pub proof fn lemma_advance_replay_safe(s1: Status, o1: Outcome, s2: Status, o2: Outcome)
    requires
        s1 == s2,
        o1 == o2,
    ensures
        spec_advance(s1, o1) == spec_advance(s2, o2),
{
}

} // verus!
