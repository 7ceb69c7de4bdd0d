use newspipe::status::{advance, Outcome, Status};

#[test]
fn success_walks_the_whole_graph() {
    let order = [
        Status::New,
        Status::Downloaded,
        Status::Scraped,
        Status::Translated,
        Status::Rewriter,
        Status::Illustrator,
        Status::Published,
    ];
    let mut s = Status::New;
    for expected in order.iter().skip(1) {
        s = advance(s, Outcome::Success);
        assert_eq!(s, *expected);
    }
}

#[test]
fn non_ai_stage_failure_stays_put() {
    assert_eq!(advance(Status::New, Outcome::HardFailure), Status::New);
    assert_eq!(advance(Status::Downloaded, Outcome::SoftFailure), Status::Downloaded);
    assert_eq!(advance(Status::Scraped, Outcome::HardFailure), Status::Scraped);
}

#[test]
fn ai_stage_double_soft_failure_is_terminal() {
    let retry = advance(Status::Translated, Outcome::SoftFailure);
    assert_eq!(retry, Status::RewriterRetry);
    let err = advance(retry, Outcome::SoftFailure);
    assert_eq!(err, Status::RewriterError);
    // never beyond: the error status is stable
    assert_eq!(advance(err, Outcome::SoftFailure), Status::RewriterError);
    assert_eq!(advance(err, Outcome::Success), Status::RewriterError);
}

#[test]
fn illustrate_double_failure_is_terminal() {
    let retry = advance(Status::Rewriter, Outcome::HardFailure);
    assert_eq!(retry, Status::IllustratorRetry);
    assert_eq!(advance(retry, Outcome::SoftFailure), Status::IllustratorError);
}

#[test]
fn retry_then_success_recovers() {
    let retry = advance(Status::Translated, Outcome::SoftFailure);
    assert_eq!(advance(retry, Outcome::Success), Status::Rewriter);
}

#[test]
fn publish_failure_is_terminal() {
    assert_eq!(advance(Status::Illustrator, Outcome::SoftFailure), Status::PublishError);
    assert_eq!(advance(Status::PublishError, Outcome::Success), Status::PublishError);
}

#[test]
fn advance_same_pair_gives_same_status() {
    // replay safety: the same (status, outcome) pair always yields the
    // same resulting status
    let a = advance(Status::Translated, Outcome::SoftFailure);
    let b = advance(Status::Translated, Outcome::SoftFailure);
    assert_eq!(a, b);
    let c = advance(Status::Downloaded, Outcome::Success);
    let d = advance(Status::Downloaded, Outcome::Success);
    assert_eq!(c, d);
}

#[test]
fn terminal_states_are_stable() {
    for s in [
        Status::RewriterError,
        Status::IllustratorError,
        Status::Published,
        Status::PublishError,
    ] {
        for o in [Outcome::Success, Outcome::SoftFailure, Outcome::HardFailure] {
            assert_eq!(advance(s, o), s);
        }
    }
}
