//! The peers of an archive and how many messages went between them and the node.
use crate::event::{
    is_message_event, law_messages_are_what_the_ebpf_extractor_saw, message_event, messages_in,
    peer_message, EbpfEvent, Event, Metadata, PeerObserverEvent,
};
use crate::replayer::file::Archive;
use crate::text::{
    column, decimal, is_numeral, law_decimal_reads_back, push_column, push_decimal, texts,
};
use std::collections::HashMap;
use vstd::prelude::*;

verus! {

broadcast use vstd::std_specs::hash::group_hash_axioms;

/// A peer of the node.
#[derive(Debug, PartialEq, Eq)]
pub struct Peer {
    pub addr: String,
    pub messages: u64,
}

/// Whether `event` is a message between the node and the peer `peer_id`.
pub open spec fn is_message_of(event: Event, peer_id: u64) -> bool {
    peer_message(event) matches Some(meta) && meta.peer_id == peer_id
}

/// The messages between the node and the peer `peer_id`, in order.
pub open spec fn messages_of(events: Seq<Event>, peer_id: u64) -> Seq<Event> {
    events.filter(|event: Event| is_message_of(event, peer_id))
}

/// Whether `peers` are the peers in `events`: those with a message, each with the
/// number of its messages and the address in the first of them.
pub open spec fn peers_in(events: Seq<Event>, peers: Map<u64, Peer>) -> bool {
    forall|peer_id: u64|
        {
            let messages = #[trigger] messages_of(events, peer_id);
            &&& peers.contains_key(peer_id) <==> messages.len() > 0
            &&& peers.contains_key(peer_id) ==> {
                &&& peers[peer_id].messages == messages.len()
                &&& peer_message(messages[0]) matches Some(meta) && peers[peer_id].addr@
                    == meta.addr@
            }
        }
}

proof fn lemma_messages_push(events: Seq<Event>, event: Event, peer_id: u64)
    ensures
        messages_of(events.push(event), peer_id) == if is_message_of(event, peer_id) {
            messages_of(events, peer_id).push(event)
        } else {
            messages_of(events, peer_id)
        },
{
    reveal(Seq::filter);
    assert(events.push(event).drop_last() =~= events);
}

proof fn lemma_messages_count(events: Seq<Event>, peer_id: u64)
    ensures
        messages_of(events, peer_id).len() <= events.len(),
        forall|i: int|
            0 <= i < messages_of(events, peer_id).len() ==> is_message_of(
                #[trigger] messages_of(events, peer_id)[i],
                peer_id,
            ),
    decreases events.len(),
{
    reveal(Seq::filter);
    if events.len() > 0 {
        lemma_messages_count(events.drop_last(), peer_id);
        assert(events.drop_last().push(events.last()) =~= events);
        lemma_messages_push(events.drop_last(), events.last(), peer_id);
    }
}

/// The peers in an archive, by their number.
pub fn collect_peers(archive: &Archive) -> (r: HashMap<u64, Peer>)
    ensures
        peers_in(archive.events@, r@),
{
    let mut peers: HashMap<u64, Peer> = HashMap::new();
    let mut i: usize = 0;
    proof {
        assert forall|peer_id: u64| (#[trigger] messages_of(archive.events@.take(0), peer_id)).len()
            == 0 by {
            lemma_messages_count(archive.events@.take(0), peer_id);
        }
    }
    while i < archive.events.len()
        invariant
            i <= archive.events@.len(),
            peers_in(archive.events@.take(i as int), peers@),
        decreases archive.events@.len() - i,
    {
        let ghost before = archive.events@.take(i as int);
        let ghost event = archive.events@[i as int];
        let ghost known = peers@;
        proof {
            assert(archive.events@.take(i + 1) =~= before.push(event));
            assert forall|peer_id: u64| #[trigger]
                messages_of(before.push(event), peer_id) == if is_message_of(event, peer_id) {
                    messages_of(before, peer_id).push(event)
                } else {
                    messages_of(before, peer_id)
                } by {
                lemma_messages_push(before, event, peer_id);
            }
        }
        match archive.events[i].message() {
            Some(meta) => {
                proof {
                    lemma_messages_count(before, meta.peer_id);
                    assert(messages_of(before, meta.peer_id).len() <= i);
                }
                let peer = match peers.remove(&meta.peer_id) {
                    Some(peer) => Peer { addr: peer.addr, messages: peer.messages + 1 },
                    None => Peer { addr: meta.addr.clone(), messages: 1 },
                };
                peers.insert(meta.peer_id, peer);
            },
            None => {},
        }
        i = i + 1;
        assert(peers_in(before.push(event), peers@)) by {
            assert forall|peer_id: u64|
                {
                    let messages = #[trigger] messages_of(before.push(event), peer_id);
                    &&& peers@.contains_key(peer_id) <==> messages.len() > 0
                    &&& peers@.contains_key(peer_id) ==> {
                        &&& peers@[peer_id].messages == messages.len()
                        &&& peer_message(messages[0]) matches Some(meta) && peers@[peer_id].addr@
                            == meta.addr@
                    }
                } by {
                let earlier = messages_of(before, peer_id);
                assert(known.contains_key(peer_id) <==> earlier.len() > 0);
            }
        }
    }
    assert(archive.events@.take(i as int) =~= archive.events@);
    peers
}

/// Whether `rows` lists each of `peers` once, those with more messages first.
pub open spec fn is_ranking(peers: Map<u64, Peer>, rows: Seq<(u64, Peer)>) -> bool {
    &&& forall|i: int|
        0 <= i < rows.len() ==> peers.contains_key((#[trigger] rows[i]).0) && rows[i].1
            == peers[rows[i].0]
    &&& forall|i: int, j: int|
        0 <= i < j < rows.len() ==> (#[trigger] rows[i]).0 != (#[trigger] rows[j]).0
            && rows[i].1.messages >= rows[j].1.messages
    &&& forall|peer_id: u64|
        peers.contains_key(peer_id) ==> exists|i: int|
            0 <= i < rows.len() && (#[trigger] rows[i]).0 == peer_id
}

/// Rows of references as rows of values.
pub open spec fn rows_of(rows: Seq<(u64, &Peer)>) -> Seq<(u64, Peer)> {
    rows.map_values(|row: (u64, &Peer)| (row.0, *row.1))
}

/// The numbers of the peers, in whatever order they are found.
fn peer_ids(peers: &HashMap<u64, Peer>) -> (r: Vec<u64>)
    ensures
        r@.no_duplicates(),
        forall|peer_id: u64| peers@.contains_key(peer_id) <==> #[trigger] r@.contains(peer_id),
{
    let mut ids: Vec<u64> = Vec::new();
    for key in keys: peers.keys()
        invariant
            keys.seq().unref().to_set() == peers@.dom(),
            keys.seq().no_duplicates(),
            ids@.len() == keys.index(),
            forall|i: int| 0 <= i < ids@.len() ==> #[trigger] ids@[i] == *keys.seq()[i],
            ids@.no_duplicates(),
            keys.index() == keys.seq().len() ==> ids@.to_set() == peers@.dom(),
    {
        ids.push(*key);
        assert forall|i: int, j: int| 0 <= i < j < ids@.len() implies ids@[i] != ids@[j] by {
            assert(keys.seq()[i] != keys.seq()[j]);
        }
        assert(ids@.len() == keys.seq().len() ==> ids@ =~= keys.seq().unref());
    }
    assert forall|peer_id: u64|
        peers@.contains_key(peer_id) <==> #[trigger] ids@.contains(peer_id) by {
        assert(ids@.to_set().contains(peer_id) <==> ids@.contains(peer_id));
    }
    ids
}

/// The peers, those with more messages first; the order among peers with as many
/// messages is left open.
pub fn sort_peers(peers: &HashMap<u64, Peer>) -> (r: Vec<(u64, &Peer)>)
    ensures
        is_ranking(peers@, rows_of(r@)),
{
    let ids = peer_ids(peers);
    let mut rows: Vec<(u64, &Peer)> = Vec::new();
    let mut n: usize = 0;
    while n < ids.len()
        invariant
            n <= ids@.len(),
            ids@.no_duplicates(),
            forall|peer_id: u64|
                peers@.contains_key(peer_id) <==> #[trigger] ids@.contains(peer_id),
            forall|i: int|
                0 <= i < rows@.len() ==> peers@.contains_key((#[trigger] rows@[i]).0) && *rows@[i].1
                    == peers@[rows@[i].0],
            forall|i: int, j: int|
                0 <= i < j < rows@.len() ==> (#[trigger] rows@[i]).0 != (#[trigger] rows@[j]).0
                    && rows@[i].1.messages >= rows@[j].1.messages,
            forall|i: int|
                0 <= i < rows@.len() ==> ids@.take(n as int).contains((#[trigger] rows@[i]).0),
            forall|k: int|
                0 <= k < n ==> exists|i: int|
                    0 <= i < rows@.len() && (#[trigger] rows@[i]).0 == #[trigger] ids@[k],
        decreases ids@.len() - n,
    {
        let peer_id: u64 = ids[n];
        assert(ids@.contains(peer_id));
        if let Some(peer) = peers.get(&peer_id) {
            let mut at: usize = 0;
            while at < rows.len() && rows[at].1.messages >= peer.messages
                invariant
                    at <= rows@.len(),
                    forall|i: int|
                        0 <= i < at ==> (#[trigger] rows@[i]).1.messages >= peer.messages,
                decreases rows@.len() - at,
            {
                at = at + 1;
            }
            let ghost before = rows@;
            rows.insert(at, (peer_id, peer));
            proof {
                assert(rows@[at as int] == (peer_id, peer));
                assert forall|i: int| 0 <= i < before.len() implies (#[trigger] before[i]).0
                    != peer_id by {
                    let k = choose|k: int|
                        0 <= k < n && #[trigger] ids@.take(n as int)[k] == before[i].0;
                    assert(ids@[k] == before[i].0);
                }
                assert forall|i: int| 0 <= i < rows@.len() implies ids@.take(n + 1).contains(
                    (#[trigger] rows@[i]).0,
                ) by {
                    if i == at {
                        assert(ids@.take(n + 1)[n as int] == peer_id);
                    } else {
                        let b = if i < at { i } else { i - 1 };
                        assert(rows@[i] == before[b]);
                        let k = choose|k: int|
                            0 <= k < n && #[trigger] ids@.take(n as int)[k] == before[b].0;
                        assert(ids@.take(n + 1)[k] == before[b].0);
                    }
                }
                assert forall|k: int| 0 <= k < n + 1 implies exists|i: int|
                    0 <= i < rows@.len() && (#[trigger] rows@[i]).0 == #[trigger] ids@[k] by {
                    if k < n {
                        let b = choose|b: int|
                            0 <= b < before.len() && (#[trigger] before[b]).0 == ids@[k];
                        let i = if b < at { b } else { b + 1 };
                        assert(rows@[i] == before[b]);
                    }
                }
                assert forall|i: int, j: int| 0 <= i < j < rows@.len() implies (#[trigger]
                rows@[i]).0 != (#[trigger] rows@[j]).0 && rows@[i].1.messages
                    >= rows@[j].1.messages by {
                    if i != at {
                        assert(rows@[i] == before[if i < at { i } else { i - 1 }]);
                    }
                    if j != at {
                        assert(rows@[j] == before[if j < at { j } else { j - 1 }]);
                    }
                    if i == at && at < before.len() {
                        assert(before[at as int].1.messages < peer.messages);
                    }
                }
            }
        }
        n = n + 1;
    }
    proof {
        let listed = rows_of(rows@);
        assert forall|peer_id: u64| peers@.contains_key(peer_id) implies exists|i: int|
            0 <= i < listed.len() && (#[trigger] listed[i]).0 == peer_id by {
            assert(ids@.contains(peer_id));
            let k = choose|k: int| 0 <= k < ids@.len() && ids@[k] == peer_id;
            let i = choose|i: int| 0 <= i < rows@.len() && (#[trigger] rows@[i]).0 == ids@[k];
            assert(listed[i].0 == peer_id);
        }
        assert forall|i: int| 0 <= i < listed.len() implies peers@.contains_key(
            (#[trigger] listed[i]).0,
        ) && listed[i].1 == peers@[listed[i].0] by {
            assert(listed[i] == (rows@[i].0, *rows@[i].1));
        }
        assert forall|i: int, j: int| 0 <= i < j < listed.len() implies (#[trigger] listed[i]).0
            != (#[trigger] listed[j]).0 && listed[i].1.messages >= listed[j].1.messages by {
            assert(listed[i] == (rows@[i].0, *rows@[i].1));
            assert(listed[j] == (rows@[j].0, *rows@[j].1));
        }
    }
    rows
}

/// A line of the table of peers.
pub open spec fn table_line(
    peer_id: Seq<char>,
    addr: Seq<char>,
    messages: Seq<char>,
) -> Seq<char> {
    column(peer_id, 10) + " "@ + column(addr, 25) + " "@ + messages
}

/// The table of peers with the given rows.
pub open spec fn peer_table(rows: Seq<(u64, Peer)>) -> Seq<Seq<char>> {
    seq![table_line("Peer ID"@, "Address"@, "Messages"@)] + rows.map_values(
        |row: (u64, Peer)|
            table_line(decimal(row.0 as nat), row.1.addr@, decimal(row.1.messages as nat)),
    )
}

fn table_line_text(peer_id: &str, addr: &str, messages: &str) -> (r: String)
    ensures
        r@ == table_line(peer_id@, addr@, messages@),
{
    let mut line = String::new();
    push_column(&mut line, peer_id, 10);
    line.append(" ");
    push_column(&mut line, addr, 25);
    line.append(" ");
    line.append(messages);
    assert(line@ =~= table_line(peer_id@, addr@, messages@));
    line
}

/// The table of peers with the given rows.
pub fn format_peers(rows: &Vec<(u64, &Peer)>) -> (r: Vec<String>)
    ensures
        texts(r@) == peer_table(rows_of(rows@)),
{
    let mut lines: Vec<String> = Vec::new();
    lines.push(table_line_text("Peer ID", "Address", "Messages"));
    let mut i: usize = 0;
    while i < rows.len()
        invariant
            i <= rows@.len(),
            texts(lines@) =~= peer_table(rows_of(rows@)).take(i + 1),
        decreases rows@.len() - i,
    {
        let mut peer_id = String::new();
        push_decimal(&mut peer_id, rows[i].0);
        let mut messages = String::new();
        push_decimal(&mut messages, rows[i].1.messages);
        assert(peer_id@ =~= decimal(rows@[i as int].0 as nat));
        assert(messages@ =~= decimal(rows@[i as int].1.messages as nat));
        let line = table_line_text(
            peer_id.as_str(),
            rows[i].1.addr.as_str(),
            messages.as_str(),
        );
        proof {
            let row = rows_of(rows@)[i as int];
            assert(row == (rows@[i as int].0, *rows@[i as int].1));
            assert(peer_table(rows_of(rows@))[i + 1] == line@);
            assert(texts(lines@.push(line)) =~= texts(lines@).push(line@));
        }
        lines.push(line);
        i = i + 1;
    }
    lines
}

/// Whether no event in `events` is a message between the node and a peer.
pub open spec fn no_messages(events: Seq<Event>) -> bool {
    forall|i: int| 0 <= i < events.len() ==> peer_message(#[trigger] events[i]) is None
}

/// The table of the peers in an archive, those with more messages first, or the
/// remark that there are none.
pub fn print_peers(archive: &Archive) -> (r: Result<Vec<String>, String>)
    ensures
        r is Err <==> no_messages(archive.events@),
        r matches Err(text) ==> text@ == "no peers found in archive"@,
        r matches Ok(lines) ==> exists|peers: Map<u64, Peer>, rows: Seq<(u64, Peer)>|
            #[trigger] peers_in(archive.events@, peers) && #[trigger] is_ranking(peers, rows)
                && texts(lines@) == peer_table(rows),
{
    let peers = collect_peers(archive);
    if peers.is_empty() {
        proof {
            assert forall|i: int| 0 <= i < archive.events@.len() implies peer_message(
                #[trigger] archive.events@[i],
            ) is None by {
                if let Some(meta) = peer_message(archive.events@[i]) {
                    lemma_message_counts(archive.events@, i, meta.peer_id);
                    assert(peers@.contains_key(meta.peer_id));
                }
            }
        }
        let mut text = String::new();
        text.append("no peers found in archive");
        assert(text@ =~= "no peers found in archive"@);
        return Err(text);
    }
    proof {
        if no_messages(archive.events@) {
            assert forall|peer_id: u64| !peers@.contains_key(peer_id) by {
                lemma_no_messages(archive.events@, peer_id);
            }
            assert(peers@ =~= Map::empty());
        }
    }
    let rows = sort_peers(&peers);
    Ok(format_peers(&rows))
}

proof fn lemma_message_counts(events: Seq<Event>, i: int, peer_id: u64)
    requires
        0 <= i < events.len(),
        is_message_of(events[i], peer_id),
    ensures
        messages_of(events, peer_id).len() > 0,
    decreases events.len(),
{
    assert(events.drop_last().push(events.last()) =~= events);
    lemma_messages_push(events.drop_last(), events.last(), peer_id);
    if i < events.len() - 1 {
        lemma_message_counts(events.drop_last(), i, peer_id);
    }
}

proof fn lemma_no_messages(events: Seq<Event>, peer_id: u64)
    requires
        no_messages(events),
    ensures
        messages_of(events, peer_id).len() == 0,
    decreases events.len(),
{
    reveal(Seq::filter);
    if events.len() > 0 {
        assert(events.drop_last().push(events.last()) =~= events);
        lemma_messages_push(events.drop_last(), events.last(), peer_id);
        assert(peer_message(events[events.len() - 1]) is None);
        assert forall|i: int| 0 <= i < events.drop_last().len() implies peer_message(
            #[trigger] events.drop_last()[i],
        ) is None by {
            assert(events.drop_last()[i] == events[i]);
        }
        lemma_no_messages(events.drop_last(), peer_id);
    }
}

/// All messages that `rows` count.
pub open spec fn counted(rows: Seq<(u64, Peer)>) -> nat
    decreases rows.len(),
{
    if rows.len() == 0 {
        0
    } else {
        counted(rows.drop_last()) + rows.last().1.messages as nat
    }
}

/// The messages in `events` with the peers in `ids`.
spec fn messages_with(events: Seq<Event>, ids: Seq<u64>) -> nat
    decreases ids.len(),
{
    if ids.len() == 0 {
        0
    } else {
        messages_with(events, ids.drop_last()) + messages_of(events, ids.last()).len()
    }
}

proof fn lemma_counted_is_messages_with(events: Seq<Event>, rows: Seq<(u64, Peer)>, ids: Seq<u64>)
    requires
        ids.len() == rows.len(),
        forall|i: int| 0 <= i < rows.len() ==> ids[i] == (#[trigger] rows[i]).0,
        forall|i: int|
            0 <= i < rows.len() ==> (#[trigger] rows[i]).1.messages == messages_of(
                events,
                rows[i].0,
            ).len(),
    ensures
        counted(rows) == messages_with(events, ids),
    decreases rows.len(),
{
    if rows.len() > 0 {
        assert forall|i: int| 0 <= i < rows.drop_last().len() implies ids.drop_last()[i] == (
        #[trigger] rows.drop_last()[i]).0 && rows.drop_last()[i].1.messages == messages_of(
            events,
            rows.drop_last()[i].0,
        ).len() by {
            assert(rows.drop_last()[i] == rows[i]);
        }
        lemma_counted_is_messages_with(events, rows.drop_last(), ids.drop_last());
        assert(rows[rows.len() - 1] == rows.last());
    }
}

proof fn lemma_messages_with_push(events: Seq<Event>, event: Event, ids: Seq<u64>)
    requires
        ids.no_duplicates(),
    ensures
        messages_with(events.push(event), ids) == messages_with(events, ids) + if peer_message(
            event,
        ) matches Some(meta) && ids.contains(meta.peer_id) {
            1nat
        } else {
            0nat
        },
    decreases ids.len(),
{
    if ids.len() > 0 {
        let before = ids.drop_last();
        lemma_messages_push(events, event, ids.last());
        lemma_messages_with_push(events, event, before);
        assert(before.push(ids.last()) =~= ids);
        if let Some(meta) = peer_message(event) {
            if meta.peer_id == ids.last() {
                assert(ids[ids.len() - 1] == meta.peer_id);
                if before.contains(meta.peer_id) {
                    let k = choose|k: int| 0 <= k < before.len() && before[k] == meta.peer_id;
                    assert(ids[k] == ids[ids.len() - 1]);
                }
            } else {
                assert(ids.contains(meta.peer_id) ==> before.contains(meta.peer_id)) by {
                    if ids.contains(meta.peer_id) {
                        let k = choose|k: int| 0 <= k < ids.len() && ids[k] == meta.peer_id;
                        assert(before[k] == meta.peer_id);
                    }
                }
                assert(before.contains(meta.peer_id) ==> ids.contains(meta.peer_id)) by {
                    if before.contains(meta.peer_id) {
                        let k = choose|k: int| 0 <= k < before.len() && before[k] == meta.peer_id;
                        assert(ids[k] == meta.peer_id);
                    }
                }
            }
        }
    }
}

proof fn lemma_messages_with_all(events: Seq<Event>, ids: Seq<u64>)
    requires
        ids.no_duplicates(),
        forall|i: int|
            0 <= i < events.len() ==> (peer_message(#[trigger] events[i]) matches Some(meta)
                ==> ids.contains(meta.peer_id)),
    ensures
        messages_with(events, ids) == messages_in(events).len(),
    decreases events.len(), ids.len(),
{
    reveal(Seq::filter);
    if events.len() > 0 {
        let before = events.drop_last();
        assert forall|i: int| 0 <= i < before.len() implies (peer_message(
            #[trigger] before[i],
        ) matches Some(meta) ==> ids.contains(meta.peer_id)) by {
            assert(before[i] == events[i]);
        }
        lemma_messages_with_all(before, ids);
        lemma_messages_with_push(before, events.last(), ids);
        assert(before.push(events.last()) =~= events);
        assert(events[events.len() - 1] == events.last());
    } else if ids.len() > 0 {
        lemma_messages_count(events, ids.last());
        lemma_messages_with_all(events, ids.drop_last());
    }
}

/// No message is left out of the table and none is counted twice: the numbers in
/// it add up to the messages in the archive.
pub proof fn law_counts_add_up(events: Seq<Event>, peers: Map<u64, Peer>, rows: Seq<(u64, Peer)>)
    requires
        peers_in(events, peers),
        is_ranking(peers, rows),
    ensures
        counted(rows) == messages_in(events).len(),
{
    let ids = rows.map_values(|row: (u64, Peer)| row.0);
    assert forall|i: int| 0 <= i < rows.len() implies (#[trigger] rows[i]).1.messages
        == messages_of(events, rows[i].0).len() by {
        assert(peers.contains_key(rows[i].0));
    }
    lemma_counted_is_messages_with(events, rows, ids);
    assert forall|i: int| 0 <= i < events.len() implies (peer_message(
        #[trigger] events[i],
    ) matches Some(meta) ==> ids.contains(meta.peer_id)) by {
        if let Some(meta) = peer_message(events[i]) {
            lemma_message_counts(events, i, meta.peer_id);
            assert(peers.contains_key(meta.peer_id));
            let k = choose|k: int| 0 <= k < rows.len() && (#[trigger] rows[k]).0 == meta.peer_id;
            assert(ids[k] == meta.peer_id);
        }
    }
    assert forall|i: int, j: int| 0 <= i < j < ids.len() implies ids[i] != ids[j] by {
        assert(rows[i].0 != rows[j].0);
    }
    lemma_messages_with_all(events, ids);
}

/// What one more message changes: its peer has one message more, and is there, with
/// the address of the message, if it was not before. Nothing else changes any peer.
pub proof fn law_each_message_counts_for_its_peer(
    events: Seq<Event>,
    timestamp: u64,
    meta: Metadata,
    text: String,
    other: Event,
    before: Map<u64, Peer>,
    after: Map<u64, Peer>,
    unchanged: Map<u64, Peer>,
    none: Map<u64, Peer>,
)
    requires
        peers_in(Seq::empty(), none),
        peers_in(events, before),
        peers_in(events.push(message_event(timestamp, meta, text)), after),
        !is_message_event(other),
        peers_in(events.push(other), unchanged),
    ensures
        forall|peer_id: u64| !none.contains_key(peer_id),
        after.contains_key(meta.peer_id),
        before.contains_key(meta.peer_id) ==> after[meta.peer_id].messages
            == before[meta.peer_id].messages + 1 && after[meta.peer_id].addr@
            == before[meta.peer_id].addr@,
        !before.contains_key(meta.peer_id) ==> after[meta.peer_id].messages == 1
            && after[meta.peer_id].addr@ == meta.addr@,
        forall|peer_id: u64|
            peer_id != meta.peer_id ==> (after.contains_key(peer_id) <==> #[trigger]
            before.contains_key(peer_id)),
        forall|peer_id: u64|
            peer_id != meta.peer_id && #[trigger] before.contains_key(peer_id)
                ==> after[peer_id].messages == before[peer_id].messages && after[peer_id].addr@
                == before[peer_id].addr@,
        forall|peer_id: u64|
            unchanged.contains_key(peer_id) <==> #[trigger] before.contains_key(peer_id),
        forall|peer_id: u64| #[trigger]
            before.contains_key(peer_id) ==> unchanged[peer_id].messages
                == before[peer_id].messages && unchanged[peer_id].addr@ == before[peer_id].addr@,
{
    let message = message_event(timestamp, meta, text);
    law_messages_are_what_the_ebpf_extractor_saw(timestamp, meta, text, other);
    assert forall|peer_id: u64| #[trigger]
        messages_of(events.push(message), peer_id) == if peer_id == meta.peer_id {
            messages_of(events, peer_id).push(message)
        } else {
            messages_of(events, peer_id)
        } by {
        lemma_messages_push(events, message, peer_id);
    }
    assert forall|peer_id: u64| #[trigger]
        messages_of(events.push(other), peer_id) == messages_of(events, peer_id) by {
        lemma_messages_push(events, other, peer_id);
    }
    assert forall|peer_id: u64| !none.contains_key(peer_id) by {
        lemma_messages_count(Seq::empty(), peer_id);
        assert(messages_of(Seq::empty(), peer_id).len() == 0);
    }
    assert forall|peer_id: u64| true implies {
        &&& peer_id != meta.peer_id ==> (after.contains_key(peer_id) <==> #[trigger]
        before.contains_key(peer_id))
        &&& peer_id != meta.peer_id && before.contains_key(peer_id) ==> after[peer_id].messages
            == before[peer_id].messages && after[peer_id].addr@ == before[peer_id].addr@
        &&& unchanged.contains_key(peer_id) <==> before.contains_key(peer_id)
        &&& before.contains_key(peer_id) ==> unchanged[peer_id].messages
            == before[peer_id].messages && unchanged[peer_id].addr@ == before[peer_id].addr@
    } by {
        let earlier = messages_of(events, peer_id);
        assert(before.contains_key(peer_id) <==> earlier.len() > 0);
        assert(after.contains_key(peer_id) <==> messages_of(
            events.push(message),
            peer_id,
        ).len() > 0);
        assert(unchanged.contains_key(peer_id) <==> messages_of(
            events.push(other),
            peer_id,
        ).len() > 0);
    }
    let earlier = messages_of(events, meta.peer_id);
    assert(before.contains_key(meta.peer_id) <==> earlier.len() > 0);
    assert(after.contains_key(meta.peer_id) <==> messages_of(
        events.push(message),
        meta.peer_id,
    ).len() > 0);
    if earlier.len() > 0 {
        assert(earlier.push(message)[0] == earlier[0]);
    } else {
        assert(earlier.push(message)[0] == message);
    }
}

/// The table has one row for each peer, with its address and the number of its
/// messages, and no row has more messages than one above it.
pub proof fn law_table_ranks_every_peer(peers: Map<u64, Peer>, rows: Seq<(u64, Peer)>)
    requires
        is_ranking(peers, rows),
    ensures
        forall|i: int, j: int|
            0 <= i < j < rows.len() ==> (#[trigger] rows[i]).1.messages as int >= (
            #[trigger] rows[j]).1.messages as int,
        forall|i: int, j: int|
            0 <= i < j < rows.len() ==> (#[trigger] rows[i]).0 != (#[trigger] rows[j]).0,
        forall|peer_id: u64| #[trigger]
            peers.contains_key(peer_id) <==> exists|i: int|
                0 <= i < rows.len() && (#[trigger] rows[i]) == (peer_id, peers[peer_id]),
{
    assert forall|peer_id: u64| #[trigger]
        peers.contains_key(peer_id) <==> exists|i: int|
            0 <= i < rows.len() && (#[trigger] rows[i]) == (peer_id, peers[peer_id]) by {
        if peers.contains_key(peer_id) {
            let i = choose|i: int| 0 <= i < rows.len() && (#[trigger] rows[i]).0 == peer_id;
            assert(rows[i] == (peer_id, peers[peer_id]));
        }
    }
}

/// The line of a peer shows its number and its messages in full, and its address as it
/// is, in columns.
pub proof fn law_table_reads_back(rows: Seq<(u64, Peer)>, i: int)
    requires
        0 <= i < rows.len(),
    ensures
        peer_table(rows).len() == rows.len() + 1,
        peer_table(rows)[0] == column("Peer ID"@, 10) + " "@ + column("Address"@, 25)
            + " Messages"@,
        exists|peer_id: Seq<char>, messages: Seq<char>|
            #![trigger is_numeral(peer_id, rows[i].0 as int), is_numeral(messages, rows[i].1.messages as int)]
            is_numeral(peer_id, rows[i].0 as int) && is_numeral(
                messages,
                rows[i].1.messages as int,
            ) && peer_table(rows)[i + 1] == column(peer_id, 10) + " "@ + column(
                rows[i].1.addr@,
                25,
            ) + " "@ + messages,
{
    reveal_strlit(" ");
    reveal_strlit("Messages");
    reveal_strlit(" Messages");
    assert(" "@ + "Messages"@ =~= " Messages"@);
    assert(peer_table(rows)[0] =~= column("Peer ID"@, 10) + " "@ + column("Address"@, 25)
        + " Messages"@);
    law_decimal_reads_back(rows[i].0 as nat);
    law_decimal_reads_back(rows[i].1.messages as nat);
    assert(is_numeral(decimal(rows[i].0 as nat), rows[i].0 as int) && is_numeral(
        decimal(rows[i].1.messages as nat),
        rows[i].1.messages as int,
    ));
}

/// There are no peers exactly where no event is a message.
pub proof fn law_peers_are_missing_without_messages(events: Seq<Event>)
    ensures
        no_messages(events) <==> forall|i: int|
            0 <= i < events.len() ==> !is_message_event(#[trigger] events[i]),
{
    if no_messages(events) {
        assert forall|i: int| 0 <= i < events.len() implies !is_message_event(
            #[trigger] events[i],
        ) by {
            if is_message_event(events[i]) {
                let (meta, text) = choose|meta: Metadata, text: String|
                    events[i] == #[trigger] message_event(events[i].timestamp, meta, text);
                law_messages_are_what_the_ebpf_extractor_saw(
                    events[i].timestamp,
                    meta,
                    text,
                    events[i],
                );
            }
        }
    }
    if forall|i: int| 0 <= i < events.len() ==> !is_message_event(#[trigger] events[i]) {
        assert forall|i: int| 0 <= i < events.len() implies peer_message(
            #[trigger] events[i],
        ) is None by {
            if let Some(meta) = peer_message(events[i]) {
                assert(!is_message_event(events[i]));
                if let Some(PeerObserverEvent::EbpfExtractor(ebpf)) = events[i].peer_observer_event
                {
                    if let Some(EbpfEvent::Message(message)) = ebpf.ebpf_event {
                        assert(events[i] == message_event(
                            events[i].timestamp,
                            message.meta,
                            message.text,
                        ));
                    }
                }
            }
        }
    }
}

/// Rows of references are rows of what they refer to.
pub proof fn law_rows_refer_to_their_peers(rows: Seq<(u64, &Peer)>)
    ensures
        rows_of(rows).len() == rows.len(),
        forall|i: int| 0 <= i < rows.len() ==> #[trigger] rows_of(rows)[i] == (rows[i].0, *rows[i].1),
{
}

} // verus!
