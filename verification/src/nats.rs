//! Waiting until a NATS server has handled what was published: a probe is sent to
//! an inbox on the same connection, and has to come back.
use crate::text::{decimal, is_numeral, law_decimal_reads_back, push_decimal};
use vstd::prelude::*;

verus! {

/// How many seconds the probe may take.
pub const PROBE_SECONDS: u64 = 5;

/// The address of a server on this machine.
pub open spec fn address(port: u16) -> Seq<char> {
    "127.0.0.1:"@ + decimal(port as nat)
}

/// The address of a server on this machine.
pub fn server_address(port: u16) -> (r: String)
    ensures
        r@ == address(port),
{
    let mut text = String::new();
    text.append("127.0.0.1:");
    push_decimal(&mut text, port as u64);
    assert(text@ =~= address(port));
    text
}

/// How far a probe is.
#[derive(Clone, Copy, Debug, PartialEq, Eq, Structural)]
pub enum Stage {
    Subscribing,
    Publishing,
    Flushing,
    Waiting,
    /// The probe came back.
    Synced,
    /// Something went wrong.
    Failed(Failure),
}

/// What went wrong with a probe.
#[derive(Clone, Copy, Debug, PartialEq, Eq, Structural)]
pub enum Failure {
    Subscribe,
    Publish,
    Flush,
    /// The probe did not come back in time.
    TimedOut,
    /// The subscription ended before the probe came back.
    Closed,
}

/// What a probe needs next.
#[derive(Debug, PartialEq, Eq)]
pub enum Action {
    /// Subscribe to a subject.
    Subscribe(String),
    /// Publish a payload under a subject.
    Publish { subject: String, payload: Vec<u8> },
    /// Empty the write buffer of the connection.
    Flush,
    /// Wait for a message on the subscription, for so many seconds at most.
    Wait { seconds: u64 },
    /// Nothing: the probe came back.
    Done,
    /// Nothing: this went wrong.
    Fail(Failure),
}

/// An `Action` with its texts as character sequences.
pub enum ActionView {
    Subscribe(Seq<char>),
    Publish { subject: Seq<char>, payload: Seq<u8> },
    Flush,
    Wait { seconds: nat },
    Done,
    Fail(Failure),
}

impl View for Action {
    type V = ActionView;

    open spec fn view(&self) -> ActionView {
        match *self {
            Action::Subscribe(subject) => ActionView::Subscribe(subject@),
            Action::Publish { subject, payload } => ActionView::Publish {
                subject: subject@,
                payload: payload@,
            },
            Action::Flush => ActionView::Flush,
            Action::Wait { seconds } => ActionView::Wait { seconds: seconds as nat },
            Action::Done => ActionView::Done,
            Action::Fail(failure) => ActionView::Fail(failure),
        }
    }
}

/// What came of an action.
#[derive(Clone, Copy, Debug, PartialEq, Eq, Structural)]
pub enum Reply {
    /// It succeeded; a message was received.
    Done,
    /// It failed; the subscription ended.
    Failed,
    /// No message was received in time.
    TimedOut,
}

/// Whether `reply` can come of the action at `stage`: only waiting takes too long.
pub open spec fn is_reply(stage: Stage, reply: Reply) -> bool {
    reply == Reply::TimedOut ==> stage == Stage::Waiting
}

/// The stage behind `stage`, after the given reply.
pub open spec fn next_stage(stage: Stage, reply: Reply) -> Stage {
    match (stage, reply) {
        (Stage::Subscribing, Reply::Done) => Stage::Publishing,
        (Stage::Subscribing, _) => Stage::Failed(Failure::Subscribe),
        (Stage::Publishing, Reply::Done) => Stage::Flushing,
        (Stage::Publishing, _) => Stage::Failed(Failure::Publish),
        (Stage::Flushing, Reply::Done) => Stage::Waiting,
        (Stage::Flushing, _) => Stage::Failed(Failure::Flush),
        (Stage::Waiting, Reply::Done) => Stage::Synced,
        (Stage::Waiting, Reply::TimedOut) => Stage::Failed(Failure::TimedOut),
        (Stage::Waiting, Reply::Failed) => Stage::Failed(Failure::Closed),
        (Stage::Synced, _) => Stage::Synced,
        (Stage::Failed(failure), _) => Stage::Failed(failure),
    }
}

/// What a probe to `inbox` needs at `stage`. Its message is empty.
pub open spec fn action_at(stage: Stage, inbox: Seq<char>) -> ActionView {
    match stage {
        Stage::Subscribing => ActionView::Subscribe(inbox),
        Stage::Publishing => ActionView::Publish { subject: inbox, payload: Seq::empty() },
        Stage::Flushing => ActionView::Flush,
        Stage::Waiting => ActionView::Wait { seconds: PROBE_SECONDS as nat },
        Stage::Synced => ActionView::Done,
        Stage::Failed(failure) => ActionView::Fail(failure),
    }
}

/// A probe to an inbox.
#[derive(Debug, PartialEq, Eq)]
pub struct Probe {
    pub inbox: String,
    pub stage: Stage,
}

impl Probe {
    /// A probe to `inbox` that has not begun.
    pub fn new(inbox: String) -> (r: Self)
        ensures
            r.inbox == inbox,
            r.stage == Stage::Subscribing,
    {
        Probe { inbox, stage: Stage::Subscribing }
    }

    /// What the probe needs next.
    pub fn action(&self) -> (r: Action)
        ensures
            r@ == action_at(self.stage, self.inbox@),
    {
        match self.stage {
            Stage::Subscribing => Action::Subscribe(self.inbox.clone()),
            Stage::Publishing => {
                let payload: Vec<u8> = Vec::new();
                assert(payload@ =~= Seq::empty());
                Action::Publish { subject: self.inbox.clone(), payload }
            },
            Stage::Flushing => Action::Flush,
            Stage::Waiting => Action::Wait { seconds: PROBE_SECONDS },
            Stage::Synced => Action::Done,
            Stage::Failed(failure) => Action::Fail(failure),
        }
    }

    /// Takes what came of the action.
    pub fn advance(&mut self, reply: Reply)
        requires
            is_reply(old(self).stage, reply),
        ensures
            final(self).inbox == old(self).inbox,
            final(self).stage == next_stage(old(self).stage, reply),
    {
        self.stage = match (self.stage, reply) {
            (Stage::Subscribing, Reply::Done) => Stage::Publishing,
            (Stage::Subscribing, _) => Stage::Failed(Failure::Subscribe),
            (Stage::Publishing, Reply::Done) => Stage::Flushing,
            (Stage::Publishing, _) => Stage::Failed(Failure::Publish),
            (Stage::Flushing, Reply::Done) => Stage::Waiting,
            (Stage::Flushing, _) => Stage::Failed(Failure::Flush),
            (Stage::Waiting, Reply::Done) => Stage::Synced,
            (Stage::Waiting, Reply::TimedOut) => Stage::Failed(Failure::TimedOut),
            (Stage::Waiting, Reply::Failed) => Stage::Failed(Failure::Closed),
            (stage, _) => stage,
        };
    }
}

/// What is said where a probe failed.
pub open spec fn failure_text(failure: Failure) -> Seq<char> {
    match failure {
        Failure::Subscribe => "should be able to subscribe to the probe inbox"@,
        Failure::Publish => "should be able to publish the probe"@,
        Failure::Flush => "should be able to flush the probe"@,
        Failure::TimedOut => "should receive the probe back within 5 seconds"@,
        Failure::Closed => "should receive the probe back"@,
    }
}

impl Failure {
    /// What is said of the failure.
    pub fn to_text(&self) -> (r: &'static str)
        ensures
            r@ == failure_text(*self),
    {
        match self {
            Failure::Subscribe => "should be able to subscribe to the probe inbox",
            Failure::Publish => "should be able to publish the probe",
            Failure::Flush => "should be able to flush the probe",
            Failure::TimedOut => "should receive the probe back within 5 seconds",
            Failure::Closed => "should receive the probe back",
        }
    }
}

/// The stage that a probe is at after the given replies.
pub open spec fn stage_after(replies: Seq<Reply>) -> Stage
    decreases replies.len(),
{
    if replies.len() == 0 {
        Stage::Subscribing
    } else {
        next_stage(stage_after(replies.drop_last()), replies.last())
    }
}

/// What a probe to `inbox` was about to do at each of the given replies.
pub open spec fn actions_taken(replies: Seq<Reply>, inbox: Seq<char>) -> Seq<ActionView> {
    Seq::new(replies.len(), |i: int| action_at(stage_after(replies.take(i)), inbox))
}

/// A probe that comes back has subscribed, published, flushed and waited, in this
/// order, and each of them succeeded.
pub proof fn law_synced_probe_did_every_step(replies: Seq<Reply>, inbox: Seq<char>)
    requires
        stage_after(replies) == Stage::Synced,
    ensures
        replies.len() >= 4,
        forall|i: int| 0 <= i < 4 ==> #[trigger] replies[i] == Reply::Done,
        actions_taken(replies, inbox).take(4) == seq![
            ActionView::Subscribe(inbox),
            ActionView::Publish { subject: inbox, payload: Seq::empty() },
            ActionView::Flush,
            ActionView::Wait { seconds: PROBE_SECONDS as nat },
        ],
    decreases replies.len(),
{
    reveal_with_fuel(stage_after, 2);
    if replies.len() <= 4 {
        reveal_with_fuel(stage_after, 6);
        assert(replies.take(0) =~= Seq::empty());
        if replies.len() == 4 {
            let a = replies.drop_last();
            let b = a.drop_last();
            let c = b.drop_last();
            assert(stage_after(a) == Stage::Waiting);
            assert(stage_after(b) == Stage::Flushing);
            assert(stage_after(c) == Stage::Publishing);
            assert(replies.take(3) =~= a);
            assert(replies.take(2) =~= b);
            assert(replies.take(1) =~= c);
            assert(actions_taken(replies, inbox).take(4) =~= seq![
                ActionView::Subscribe(inbox),
                ActionView::Publish { subject: inbox, payload: Seq::empty() },
                ActionView::Flush,
                ActionView::Wait { seconds: PROBE_SECONDS as nat },
            ]);
        }
    } else {
        let before = replies.drop_last();
        if stage_after(before) == Stage::Waiting {
            lemma_waiting_after_three(before);
        } else {
            law_synced_probe_did_every_step(before, inbox);
            assert forall|i: int| 0 <= i < 4 implies #[trigger] actions_taken(replies, inbox)[i]
                == actions_taken(before, inbox)[i] by {
                assert(replies.take(i) =~= before.take(i));
            }
            assert(actions_taken(replies, inbox).take(4) =~= actions_taken(before, inbox).take(4));
            assert forall|i: int| 0 <= i < 4 implies #[trigger] replies[i] == Reply::Done by {
                assert(before[i] == Reply::Done);
            }
        }
    }
}

proof fn lemma_waiting_after_three(replies: Seq<Reply>)
    requires
        stage_after(replies) == Stage::Waiting,
    ensures
        replies.len() == 3,
{
    reveal_with_fuel(stage_after, 5);
    assert(replies.len() > 0);
    let a = replies.drop_last();
    assert(stage_after(a) == Stage::Flushing);
    let b = a.drop_last();
    assert(stage_after(b) == Stage::Publishing);
    let c = b.drop_last();
    assert(stage_after(c) == Stage::Subscribing);
    assert(c.len() == 0);
}

/// A command that a server is sent.
pub enum Command {
    Subscribe(Seq<char>),
    Publish { subject: Seq<char>, payload: Seq<u8> },
}

/// The commands among actions.
pub open spec fn commands(actions: Seq<ActionView>) -> Seq<Command>
    decreases actions.len(),
{
    if actions.len() == 0 {
        Seq::empty()
    } else {
        let before = commands(actions.drop_last());
        match actions.last() {
            ActionView::Subscribe(subject) => before.push(Command::Subscribe(subject)),
            ActionView::Publish { subject, payload } => before.push(
                Command::Publish { subject, payload },
            ),
            _ => before,
        }
    }
}

/// Whether a server that has handled `handled` has sent a message to a subscription
/// to `subject`.
pub open spec fn is_delivered(handled: Seq<Command>, subject: Seq<char>) -> bool {
    exists|i: int, j: int|
        0 <= i < j < handled.len() && #[trigger] handled[i] == Command::Subscribe(subject) && (
        #[trigger] handled[j] matches Command::Publish { subject: to, .. } && to == subject)
}

/// Whether `command` has to do with `subject`.
pub open spec fn is_about(command: Command, subject: Seq<char>) -> bool {
    match command {
        Command::Subscribe(to) => to == subject,
        Command::Publish { subject: to, .. } => to == subject,
    }
}

/// A server handles the commands of a connection in order. So where the probe comes
/// back on an inbox that was not used before, the server has handled everything
/// that was published before the probe.
pub proof fn law_probe_back_means_all_was_handled(
    earlier: Seq<Command>,
    replies: Seq<Reply>,
    inbox: Seq<char>,
    handled: nat,
)
    requires
        forall|i: int| 0 <= i < earlier.len() ==> !is_about(#[trigger] earlier[i], inbox),
        stage_after(replies) == Stage::Synced,
        handled <= earlier.len() + 2,
        is_delivered(
            (earlier + commands(actions_taken(replies, inbox).take(4))).take(handled as int),
            inbox,
        ),
    ensures
        earlier.len() < handled,
{
    law_synced_probe_did_every_step(replies, inbox);
    let sent = (earlier + commands(actions_taken(replies, inbox).take(4))).take(handled as int);
    let (i, j) = choose|i: int, j: int|
        0 <= i < j < sent.len() && #[trigger] sent[i] == Command::Subscribe(inbox) && (
        #[trigger] sent[j] matches Command::Publish { subject: to, .. } && to == inbox);
    if handled <= earlier.len() {
        assert(sent[i] == earlier[i]);
        assert(is_about(earlier[i], inbox));
    }
}

/// The address of a server ends with the whole number of its port.
pub proof fn law_address_reads_back(port: u16)
    ensures
        exists|number: Seq<char>| #[trigger]
            is_numeral(number, port as int) && address(port) == "127.0.0.1:"@ + number,
{
    law_decimal_reads_back(port as nat);
    assert(is_numeral(decimal(port as nat), port as int));
}

/// A step that fails ends the probe with the failure of that step, and an ended probe
/// stays as it ended.
pub proof fn law_failed_step_ends_the_probe(reply: Reply)
    ensures
        next_stage(Stage::Subscribing, Reply::Failed) == Stage::Failed(Failure::Subscribe),
        next_stage(Stage::Publishing, Reply::Failed) == Stage::Failed(Failure::Publish),
        next_stage(Stage::Flushing, Reply::Failed) == Stage::Failed(Failure::Flush),
        next_stage(Stage::Waiting, Reply::Failed) == Stage::Failed(Failure::Closed),
        next_stage(Stage::Waiting, Reply::TimedOut) == Stage::Failed(Failure::TimedOut),
        next_stage(Stage::Synced, reply) == Stage::Synced,
        forall|failure: Failure| #[trigger]
            next_stage(Stage::Failed(failure), reply) == Stage::Failed(failure),
        stage_after(seq![Reply::Done, Reply::Done, Reply::Done, Reply::Done]) == Stage::Synced,
        forall|inbox: Seq<char>| #[trigger] action_at(Stage::Synced, inbox) is Done,
        forall|failure: Failure, inbox: Seq<char>| #[trigger]
            action_at(Stage::Failed(failure), inbox) == ActionView::Fail(failure),
{
    let all = seq![Reply::Done, Reply::Done, Reply::Done, Reply::Done];
    reveal_with_fuel(stage_after, 5);
    assert(all.drop_last().drop_last().drop_last().drop_last() =~= Seq::empty());
}

} // verus!
