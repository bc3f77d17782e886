//! Events as the tools read them: when they happened, which extractor saw them,
//! how they are shown, and for a peer-to-peer message between whom it went.
use vstd::prelude::*;

verus! {

/// One event.
#[derive(Debug, PartialEq, Eq)]
pub struct Event {
    /// When the event happened, in milliseconds since the Unix epoch.
    pub timestamp: u64,
    /// The event itself; nothing where its extractor is not known.
    pub peer_observer_event: Option<PeerObserverEvent>,
}

/// An event, by the extractor that saw it.
#[derive(Debug, PartialEq, Eq)]
pub enum PeerObserverEvent {
    EbpfExtractor(Ebpf),
    RpcExtractor(Rpc),
    P2pExtractor(P2p),
    LogExtractor(Log),
    IpcExtractor(Ipc),
}

/// What the eBPF extractor saw.
#[derive(Debug, PartialEq, Eq)]
pub struct Ebpf {
    pub ebpf_event: Option<EbpfEvent>,
}

/// An event that the eBPF extractor saw.
#[derive(Debug, PartialEq, Eq)]
pub enum EbpfEvent {
    /// A message between the node and one of its peers.
    Message(MessageEvent),
    /// Any other event, by the text that shows it.
    Other(String),
}

/// A message between the node and one of its peers.
#[derive(Debug, PartialEq, Eq)]
pub struct MessageEvent {
    pub meta: Metadata,
    /// The text that shows the message.
    pub text: String,
}

/// What is known of a message besides its content.
#[derive(Debug, PartialEq, Eq)]
pub struct Metadata {
    pub peer_id: u64,
    pub addr: String,
    pub conn_type: u32,
    pub command: String,
    /// Whether the message came from the peer.
    pub inbound: bool,
    pub size: u64,
}

/// What the RPC extractor saw, by the text that shows it.
#[derive(Debug, PartialEq, Eq)]
pub struct Rpc {
    pub rpc_event: Option<String>,
}

/// What the P2P extractor saw, by the text that shows it.
#[derive(Debug, PartialEq, Eq)]
pub struct P2p {
    pub p2p_event: Option<String>,
}

/// What the log extractor saw, by the text that shows it.
#[derive(Debug, PartialEq, Eq)]
pub struct Log {
    pub log_event: Option<String>,
}

/// What the IPC extractor saw, by the text that shows it.
#[derive(Debug, PartialEq, Eq)]
pub struct Ipc {
    pub ipc_event: Option<String>,
}

/// What there is to show of an event: the short name of its extractor and the
/// text, where there is one.
pub open spec fn shown(event: PeerObserverEvent) -> (Seq<char>, Option<Seq<char>>) {
    match event {
        PeerObserverEvent::EbpfExtractor(e) => (
            "ebpf"@,
            match e.ebpf_event {
                Some(EbpfEvent::Message(message)) => Some(message.text@),
                Some(EbpfEvent::Other(text)) => Some(text@),
                None => None,
            },
        ),
        PeerObserverEvent::RpcExtractor(r) => ("rpc"@, option_text(r.rpc_event)),
        PeerObserverEvent::P2pExtractor(p) => ("p2p"@, option_text(p.p2p_event)),
        PeerObserverEvent::LogExtractor(l) => ("log"@, option_text(l.log_event)),
        PeerObserverEvent::IpcExtractor(i) => ("ipc"@, option_text(i.ipc_event)),
    }
}

/// The text in `s`, where there is one.
pub open spec fn option_text(s: Option<String>) -> Option<Seq<char>> {
    match s {
        Some(text) => Some(text@),
        None => None,
    }
}

fn text_of(s: &Option<String>) -> (r: Option<&str>)
    ensures
        match option_text(*s) {
            Some(text) => r matches Some(t) && t@ == text,
            None => r is None,
        },
{
    match s {
        Some(text) => Some(text.as_str()),
        None => None,
    }
}

impl PeerObserverEvent {
    /// The short name of the extractor and the text that shows the event, where
    /// there is one.
    pub fn show(&self) -> (r: (&'static str, Option<&str>))
        ensures
            r.0@ == shown(*self).0,
            match shown(*self).1 {
                Some(text) => r.1 matches Some(t) && t@ == text,
                None => r.1 is None,
            },
    {
        match self {
            PeerObserverEvent::EbpfExtractor(e) => (
                "ebpf",
                match &e.ebpf_event {
                    Some(EbpfEvent::Message(message)) => Some(message.text.as_str()),
                    Some(EbpfEvent::Other(text)) => Some(text.as_str()),
                    None => None,
                },
            ),
            PeerObserverEvent::RpcExtractor(r) => ("rpc", text_of(&r.rpc_event)),
            PeerObserverEvent::P2pExtractor(p) => ("p2p", text_of(&p.p2p_event)),
            PeerObserverEvent::LogExtractor(l) => ("log", text_of(&l.log_event)),
            PeerObserverEvent::IpcExtractor(i) => ("ipc", text_of(&i.ipc_event)),
        }
    }
}

/// The message between the node and a peer that `event` is, if it is one.
pub open spec fn peer_message(event: Event) -> Option<Metadata> {
    match event.peer_observer_event {
        Some(PeerObserverEvent::EbpfExtractor(e)) => match e.ebpf_event {
            Some(EbpfEvent::Message(message)) => Some(message.meta),
            _ => None,
        },
        _ => None,
    }
}

/// The messages between the node and any peer, in order.
pub open spec fn messages_in(events: Seq<Event>) -> Seq<Event> {
    events.filter(|event: Event| peer_message(event) is Some)
}

/// One more event behind others.
pub proof fn lemma_messages_in_push(events: Seq<Event>, event: Event)
    ensures
        messages_in(events.push(event)) == if peer_message(event) is Some {
            messages_in(events).push(event)
        } else {
            messages_in(events)
        },
{
    reveal(Seq::filter);
    assert(events.push(event).drop_last() =~= events);
}

impl Event {
    /// What is known of the message between the node and a peer that the event
    /// is, if it is one.
    pub fn message(&self) -> (r: Option<&Metadata>)
        ensures
            match peer_message(*self) {
                Some(meta) => r == Some(&meta),
                None => r is None,
            },
    {
        match &self.peer_observer_event {
            Some(PeerObserverEvent::EbpfExtractor(e)) => match &e.ebpf_event {
                Some(EbpfEvent::Message(message)) => Some(&message.meta),
                _ => None,
            },
            _ => None,
        }
    }
}

/// The event that a message between the node and a peer is.
pub open spec fn message_event(timestamp: u64, meta: Metadata, text: String) -> Event {
    Event {
        timestamp,
        peer_observer_event: Some(
            PeerObserverEvent::EbpfExtractor(
                Ebpf { ebpf_event: Some(EbpfEvent::Message(MessageEvent { meta, text })) },
            ),
        ),
    }
}

/// Whether `event` is a message between the node and a peer.
pub open spec fn is_message_event(event: Event) -> bool {
    exists|meta: Metadata, text: String| event == #[trigger] message_event(
        event.timestamp,
        meta,
        text,
    )
}

/// Every message that the eBPF extractor saw is a message between the node and the
/// peer in its metadata, whatever else the metadata say; no other event is one.
pub proof fn law_messages_are_what_the_ebpf_extractor_saw(
    timestamp: u64,
    meta: Metadata,
    text: String,
    other: Event,
)
    ensures
        peer_message(message_event(timestamp, meta, text)) == Some(meta),
        !is_message_event(other) ==> peer_message(other) is None,
{
    if peer_message(other) is Some {
        if let Some(PeerObserverEvent::EbpfExtractor(ebpf)) = other.peer_observer_event {
            if let Some(EbpfEvent::Message(message)) = ebpf.ebpf_event {
                assert(other == message_event(other.timestamp, message.meta, message.text));
            }
        }
    }
}

/// The messages among events are found one after the other: each message is kept in
/// its place, and every other event is left out.
pub proof fn law_messages_are_kept_in_order(
    events: Seq<Event>,
    timestamp: u64,
    meta: Metadata,
    text: String,
    other: Event,
)
    ensures
        messages_in(Seq::empty()) == Seq::<Event>::empty(),
        messages_in(events.push(message_event(timestamp, meta, text))) == messages_in(events).push(
            message_event(timestamp, meta, text),
        ),
        !is_message_event(other) ==> messages_in(events.push(other)) == messages_in(events),
{
    reveal(Seq::filter);
    law_messages_are_what_the_ebpf_extractor_saw(timestamp, meta, text, other);
    lemma_messages_in_push(events, message_event(timestamp, meta, text));
    lemma_messages_in_push(events, other);
}

/// What is shown of an event is the text of its content, under the name of its
/// extractor; without content there is nothing to show.
pub proof fn law_content_is_shown(meta: Metadata, text: String)
    ensures
        shown(
            PeerObserverEvent::EbpfExtractor(
                Ebpf { ebpf_event: Some(EbpfEvent::Message(MessageEvent { meta, text })) },
            ),
        ) == ("ebpf"@, Some(text@)),
        shown(
            PeerObserverEvent::EbpfExtractor(Ebpf { ebpf_event: Some(EbpfEvent::Other(text)) }),
        ) == ("ebpf"@, Some(text@)),
        shown(PeerObserverEvent::RpcExtractor(Rpc { rpc_event: Some(text) })) == (
            "rpc"@,
            Some(text@),
        ),
        shown(PeerObserverEvent::P2pExtractor(P2p { p2p_event: Some(text) })) == (
            "p2p"@,
            Some(text@),
        ),
        shown(PeerObserverEvent::LogExtractor(Log { log_event: Some(text) })) == (
            "log"@,
            Some(text@),
        ),
        shown(PeerObserverEvent::IpcExtractor(Ipc { ipc_event: Some(text) })) == (
            "ipc"@,
            Some(text@),
        ),
        shown(PeerObserverEvent::EbpfExtractor(Ebpf { ebpf_event: None })) == (
            "ebpf"@,
            None::<Seq<char>>,
        ),
        shown(PeerObserverEvent::RpcExtractor(Rpc { rpc_event: None })) == (
            "rpc"@,
            None::<Seq<char>>,
        ),
        shown(PeerObserverEvent::P2pExtractor(P2p { p2p_event: None })) == (
            "p2p"@,
            None::<Seq<char>>,
        ),
        shown(PeerObserverEvent::LogExtractor(Log { log_event: None })) == (
            "log"@,
            None::<Seq<char>>,
        ),
        shown(PeerObserverEvent::IpcExtractor(Ipc { ipc_event: None })) == (
            "ipc"@,
            None::<Seq<char>>,
        ),
{
}

} // verus!
