use peer_archive::nats::{server_address, Action, Failure, Probe, Reply, Stage};

fn probe() -> Probe {
    Probe::new("_INBOX.1".to_string())
}

/// The stage of a probe after some replies.
fn after(replies: &[Reply]) -> Stage {
    let mut probe = probe();
    for reply in replies {
        probe.advance(*reply);
    }
    probe.stage
}

#[test]
fn server_is_on_this_machine() {
    assert_eq!(server_address(4222), "127.0.0.1:4222");
    assert_eq!(server_address(0), "127.0.0.1:0");
    assert_eq!(server_address(65535), "127.0.0.1:65535");
}

#[test]
fn probe_goes_through_every_step() {
    let mut probe = probe();
    assert_eq!(probe.action(), Action::Subscribe("_INBOX.1".to_string()));
    probe.advance(Reply::Done);
    assert_eq!(
        probe.action(),
        Action::Publish { subject: "_INBOX.1".to_string(), payload: Vec::new() }
    );
    probe.advance(Reply::Done);
    assert_eq!(probe.action(), Action::Flush);
    probe.advance(Reply::Done);
    assert_eq!(probe.action(), Action::Wait { seconds: 5 });
    probe.advance(Reply::Done);
    assert_eq!(probe.action(), Action::Done);
    assert_eq!(probe.inbox, "_INBOX.1");
}

/// `n` replies that all went well, and then `last`.
fn good_and_then(n: usize, last: Reply) -> Vec<Reply> {
    let mut replies = vec![Reply::Done; n];
    replies.push(last);
    replies
}

#[test]
fn probe_fails_with_the_step_that_failed() {
    let failed = |n: usize| after(&good_and_then(n, Reply::Failed));
    assert_eq!(failed(0), Stage::Failed(Failure::Subscribe));
    assert_eq!(failed(1), Stage::Failed(Failure::Publish));
    assert_eq!(failed(2), Stage::Failed(Failure::Flush));
    assert_eq!(failed(3), Stage::Failed(Failure::Closed));
    assert_eq!(
        after(&good_and_then(3, Reply::TimedOut)),
        Stage::Failed(Failure::TimedOut)
    );
    assert_eq!(after(&good_and_then(3, Reply::Done)), Stage::Synced);
    assert_eq!(after(&good_and_then(2, Reply::Done)), Stage::Waiting);
}

#[test]
fn ended_probe_stays_as_it_is() {
    assert_eq!(after(&good_and_then(4, Reply::Failed)), Stage::Synced);
    let mut probe = probe();
    probe.advance(Reply::Failed);
    assert_eq!(probe.action(), Action::Fail(Failure::Subscribe));
    probe.advance(Reply::Done);
    assert_eq!(probe.stage, Stage::Failed(Failure::Subscribe));
}

#[test]
fn failures_say_what_should_have_been() {
    assert_eq!(
        Failure::Subscribe.to_text(),
        "should be able to subscribe to the probe inbox"
    );
    assert_eq!(Failure::Publish.to_text(), "should be able to publish the probe");
    assert_eq!(Failure::Flush.to_text(), "should be able to flush the probe");
    assert_eq!(
        Failure::TimedOut.to_text(),
        "should receive the probe back within 5 seconds"
    );
    assert_eq!(Failure::Closed.to_text(), "should receive the probe back");
}
