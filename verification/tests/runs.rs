use sever::error::ErrorKind;
use sever::job::{Event, Job, Next, Outcome, Stage};
use sever::report::{Completion, Report, Verdict};

fn step(j: Job, e: Event) -> Next {
    j.advance(e)
}

fn expect_continue(n: Next, stage: Stage) -> Job {
    match n {
        Next::Continue(j) => {
            assert_eq!(j.stage(), stage);
            j
        }
        other => panic!("expected to continue, got {:?}", other),
    }
}

#[test]
fn a_shared_file_goes_through_every_step() {
    let j = Job::new(String::from("f"));
    assert_eq!(j.stage(), Stage::Open);
    let j = expect_continue(step(j, Event::Done), Stage::Stat);
    let j = expect_continue(step(j, Event::Links(2)), Stage::Copy);
    let j = expect_continue(step(j, Event::Done), Stage::Unlink);
    let j = expect_continue(step(j, Event::Done), Stage::Move);
    assert_eq!(j.path(), "f");
    match step(j, Event::Done) {
        Next::Finished(Outcome::Severed(p)) => assert_eq!(p, "f"),
        other => panic!("{:?}", other),
    }
}

#[test]
fn a_single_link_is_left_alone() {
    assert!(!Job::needs_severing(1));
    assert!(!Job::needs_severing(0));
    assert!(Job::needs_severing(3));
    let j = expect_continue(step(Job::new(String::from("solo")), Event::Done), Stage::Stat);
    match step(j, Event::Links(1)) {
        Next::Finished(Outcome::Untouched(p)) => assert_eq!(p, "solo"),
        other => panic!("{:?}", other),
    }
}

#[test]
fn each_step_fails_with_its_own_kind() {
    let stages = [Stage::Open, Stage::Stat, Stage::Copy, Stage::Unlink, Stage::Move];
    let expected = [
        ErrorKind::Open(String::from("io")),
        ErrorKind::Stat(String::from("io")),
        ErrorKind::Copy(String::from("io")),
        ErrorKind::Unlink(String::from("io")),
        ErrorKind::Move(String::from("io")),
    ];
    for (stage, kind) in stages.into_iter().zip(expected) {
        match rebuild(stage).advance(Event::Failed(String::from("io"))) {
            Next::Finished(Outcome::Failed(err)) => {
                assert_eq!(err.path(), "p");
                assert_eq!(format!("{:?}", err.kind()), format!("{:?}", kind));
            }
            other => panic!("{:?}", other),
        }
    }
}

fn rebuild(stage: Stage) -> Job {
    let mut j = Job::new(String::from("p"));
    while j.stage() != stage {
        let e = if j.stage() == Stage::Stat { Event::Links(2) } else { Event::Done };
        j = match j.advance(e) {
            Next::Continue(next) => next,
            other => panic!("{:?}", other),
        };
    }
    j
}

fn failed(path: &str, kind: ErrorKind) -> Completion {
    Completion::Finished(Outcome::Failed(sever::Error::new(kind, String::from(path))))
}

#[test]
fn report_counts_and_summarises() {
    let mut r = Report::new();
    assert_eq!(r.summary(), None);
    assert_eq!(r.record(0, Completion::Finished(Outcome::Severed(String::from("a")))), Verdict::Continue);
    assert_eq!(r.record(1, Completion::Finished(Outcome::Untouched(String::from("b")))), Verdict::Continue);
    assert_eq!(r.record(2, failed("c", ErrorKind::Stat(String::from("gone")))), Verdict::Continue);
    assert_eq!(r.record(3, failed("d", ErrorKind::Copy(String::from("full")))), Verdict::Continue);
    assert_eq!(r.failed(), 2);
    assert_eq!(r.finished(), 4);
    assert_eq!(r.summary().unwrap(), "2/4 tasks failed to complete successfullly");
    assert_eq!(
        r.failure_lines(),
        "c: Failed to stat file \"c\"\nd: Failed to create copy of file \"d\""
    );
}

#[test]
fn report_stops_on_panic_and_cancel() {
    let mut r = Report::new();
    assert_eq!(r.record(7, Completion::Panicked), Verdict::Panic(String::from("Child 7 panic")));
    assert_eq!(r.record(8, Completion::Cancelled), Verdict::Cancel);
    assert_eq!(r.finished(), 0);
    assert_eq!(r.failed(), 0);
    assert_eq!(r.summary(), None);
    assert_eq!(r.failure_lines(), "");
}
