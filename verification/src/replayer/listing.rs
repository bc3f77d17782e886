//! The events of an archive as lines.
use crate::archive::replayer::{display_event, display_line};
use crate::event::{shown, Event, PeerObserverEvent};
use crate::replayer::file::{Archive, ArchiveHeader, ArchiveView};
use crate::text::{
    decimal, hex, is_hex_of, is_numeral, law_decimal_reads_back, law_hex_reads_back, push_decimal,
    push_hex, texts,
};
use vstd::prelude::*;

verus! {

/// Whether there is something to show of `event`, or its extractor is not known.
pub open spec fn can_be_shown(event: Event) -> bool {
    event.peer_observer_event matches Some(observed) ==> shown(observed).1 is Some
}

/// Whether every event can be shown.
pub open spec fn can_be_listed(events: Seq<Event>) -> bool {
    forall|i: int| 0 <= i < events.len() ==> can_be_shown(#[trigger] events[i])
}

/// Whether every event of an archive can be shown.
pub fn is_listable(archive: &Archive) -> (r: bool)
    ensures
        r == can_be_listed(archive.events@),
{
    let mut i: usize = 0;
    while i < archive.events.len()
        invariant
            i <= archive.events@.len(),
            forall|k: int| 0 <= k < i ==> can_be_shown(#[trigger] archive.events@[k]),
        decreases archive.events@.len() - i,
    {
        if let Some(observed) = &archive.events[i].peer_observer_event {
            if observed.show().1.is_none() {
                assert(!can_be_shown(archive.events@[i as int]));
                return false;
            }
        }
        i = i + 1;
    }
    true
}

/// The line for the header of an archive.
pub open spec fn header_line(version: u8, git_hash: Seq<u8>) -> Seq<char> {
    "header: version="@ + decimal(version as nat) + " git="@ + hex(git_hash)
}

/// The line for the number of events.
pub open spec fn total_line(count: nat) -> Seq<char> {
    "total: "@ + decimal(count) + " events"@
}

/// The lines for the events, which are numbered from one.
pub open spec fn event_lines(events: Seq<Event>) -> Seq<Seq<char>> {
    Seq::new(events.len(), |i: int| display_line((i + 1) as nat, events[i])->Ok_0)
}

/// The lines for an archive: its header, its events, and how many there are.
pub open spec fn listing(archive: ArchiveView) -> Seq<Seq<char>> {
    seq![header_line(archive.version, archive.git_hash)] + event_lines(archive.events) + seq![
        total_line(archive.events.len()),
    ]
}

/// The line for the header of an archive.
pub fn header_text(header: &ArchiveHeader) -> (r: String)
    ensures
        r@ == header_line(header.version, header.git_hash@),
{
    let mut line = String::new();
    line.append("header: version=");
    push_decimal(&mut line, header.version as u64);
    line.append(" git=");
    push_hex(&mut line, header.git_hash.as_slice());
    assert(line@ =~= header_line(header.version, header.git_hash@));
    line
}

/// The lines for an archive.
pub fn print_events(archive: &Archive) -> (r: Vec<String>)
    requires
        can_be_listed(archive.events@),
    ensures
        texts(r@) == listing(archive@),
{
    let mut lines: Vec<String> = Vec::new();
    lines.push(header_text(&archive.header));
    let mut i: usize = 0;
    while i < archive.events.len()
        invariant
            i <= archive.events@.len(),
            can_be_listed(archive.events@),
            texts(lines@) =~= listing(archive@).take(i + 1),
        decreases archive.events@.len() - i,
    {
        assert(can_be_shown(archive.events@[i as int]));
        let ghost before = lines@;
        if let Ok(line) = display_event(i + 1, &archive.events[i]) {
            assert(listing(archive@)[i + 1] == line@);
            lines.push(line);
            assert(texts(lines@) =~= texts(before).push(line@));
        }
        i = i + 1;
    }
    let mut total = String::new();
    total.append("total: ");
    push_decimal(&mut total, archive.events.len() as u64);
    total.append(" events");
    assert(total@ =~= total_line(archive.events@.len()));
    assert(texts(lines@.push(total)) =~= texts(lines@).push(total@));
    lines.push(total);
    assert(texts(lines@) =~= listing(archive@));
    lines
}

/// The lines for an archive show the version and the number of events in full, the hash
/// byte by byte, and one line for each event, with its number and its time.
pub proof fn law_listing_shows_everything(archive: ArchiveView)
    requires
        can_be_listed(archive.events),
    ensures
        listing(archive).len() == archive.events.len() + 2,
        exists|version: Seq<char>, digits: Seq<char>|
            #![trigger is_numeral(version, archive.version as int), digits.len()]
            is_numeral(version, archive.version as int) && digits.len() == 2
                * archive.git_hash.len() && (forall|i: int|
                0 <= i < archive.git_hash.len() ==> #[trigger] is_hex_of(
                    digits,
                    i,
                    archive.git_hash[i],
                )) && listing(archive)[0] == "header: version="@ + version + " git="@ + digits,
        forall|i: int|
            0 <= i < archive.events.len() ==> (display_line((i + 1) as nat, archive.events[i])
                == Ok::<Seq<char>, Seq<char>>(#[trigger] listing(archive)[i + 1])),
        exists|count: Seq<char>| #[trigger]
            is_numeral(count, archive.events.len() as int) && listing(archive).last() == "total: "@
                + count + " events"@,
{
    law_decimal_reads_back(archive.version as nat);
    law_decimal_reads_back(archive.events.len());
    law_hex_reads_back(archive.git_hash);
    let digits = hex(archive.git_hash);
    assert(is_numeral(decimal(archive.version as nat), archive.version as int) && digits.len() == 2
        * archive.git_hash.len());
    assert(is_numeral(decimal(archive.events.len()), archive.events.len() as int));
    assert forall|i: int| 0 <= i < archive.events.len() implies (display_line(
        (i + 1) as nat,
        archive.events[i],
    ) == Ok::<Seq<char>, Seq<char>>(#[trigger] listing(archive)[i + 1])) by {
        assert(can_be_shown(archive.events[i]));
        assert(listing(archive)[i + 1] == event_lines(archive.events)[i]);
    }
}

/// An archive can be listed exactly if no event of it has an extractor and no content.
pub proof fn law_only_missing_content_cannot_be_listed(events: Seq<Event>)
    ensures
        can_be_listed(events) <==> !exists|i: int|
            0 <= i < events.len() && match (#[trigger] events[i]).peer_observer_event {
                Some(PeerObserverEvent::EbpfExtractor(e)) => e.ebpf_event is None,
                Some(PeerObserverEvent::RpcExtractor(r)) => r.rpc_event is None,
                Some(PeerObserverEvent::P2pExtractor(p)) => p.p2p_event is None,
                Some(PeerObserverEvent::LogExtractor(l)) => l.log_event is None,
                Some(PeerObserverEvent::IpcExtractor(i)) => i.ipc_event is None,
                None => false,
            },
{
    if !can_be_listed(events) {
        let i = choose|i: int| 0 <= i < events.len() && !can_be_shown(#[trigger] events[i]);
        assert(!can_be_shown(events[i]));
    }
}

} // verus!
