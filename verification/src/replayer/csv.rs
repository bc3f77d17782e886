//! The messages of an archive as comma-separated values.
use crate::event::{
    is_message_event, law_messages_are_kept_in_order, law_messages_are_what_the_ebpf_extractor_saw,
    lemma_messages_in_push, message_event, messages_in, peer_message, Event, Metadata,
};
use crate::replayer::file::Archive;
use crate::text::{decimal, is_numeral, law_decimal_reads_back, push_decimal, texts};
use vstd::prelude::*;

verus! {

/// The names of the columns.
pub open spec fn csv_head() -> Seq<char> {
    "timestamp,peer_id,addr,command,direction,size"@
}

/// The row for a message at the given time.
pub open spec fn csv_row(timestamp: u64, meta: Metadata) -> Seq<char> {
    decimal(timestamp as nat) + ","@ + decimal(meta.peer_id as nat) + ","@ + meta.addr@ + ","@
        + meta.command@ + (if meta.inbound {
        ",in,"@
    } else {
        ",out,"@
    }) + decimal(meta.size as nat)
}

/// The names of the columns and a row for each message, in order.
pub open spec fn csv(events: Seq<Event>) -> Seq<Seq<char>> {
    seq![csv_head()] + messages_in(events).map_values(
        |event: Event| csv_row(event.timestamp, peer_message(event)->0),
    )
}

fn row_text(timestamp: u64, meta: &Metadata) -> (r: String)
    ensures
        r@ == csv_row(timestamp, *meta),
{
    let mut row = String::new();
    push_decimal(&mut row, timestamp);
    row.append(",");
    push_decimal(&mut row, meta.peer_id);
    row.append(",");
    row.append(meta.addr.as_str());
    row.append(",");
    row.append(meta.command.as_str());
    row.append(if meta.inbound { ",in," } else { ",out," });
    push_decimal(&mut row, meta.size);
    assert(row@ =~= csv_row(timestamp, *meta));
    row
}

/// The messages of an archive as comma-separated values.
pub fn csv_lines(archive: &Archive) -> (r: Vec<String>)
    ensures
        texts(r@) == csv(archive.events@),
{
    let mut lines: Vec<String> = Vec::new();
    let mut head = String::new();
    head.append("timestamp,peer_id,addr,command,direction,size");
    assert(head@ =~= csv_head());
    lines.push(head);
    let mut i: usize = 0;
    proof {
        reveal(Seq::filter);
        assert(messages_in(archive.events@.take(0)) =~= Seq::empty());
        assert(texts(lines@) =~= csv(archive.events@.take(0)));
    }
    while i < archive.events.len()
        invariant
            i <= archive.events@.len(),
            texts(lines@) == csv(archive.events@.take(i as int)),
        decreases archive.events@.len() - i,
    {
        let ghost before = archive.events@.take(i as int);
        let ghost event = archive.events@[i as int];
        proof {
            lemma_messages_in_push(before, event);
            assert(archive.events@.take(i + 1) =~= before.push(event));
        }
        if let Some(meta) = archive.events[i].message() {
            let row = row_text(archive.events[i].timestamp, meta);
            assert(texts(lines@.push(row)) =~= texts(lines@).push(row@));
            lines.push(row);
            assert(texts(lines@) =~= csv(before.push(event)));
        }
        i = i + 1;
    }
    assert(archive.events@.take(i as int) =~= archive.events@);
    lines
}

/// A row shows the time, the peer and the size in full, and between them the address,
/// the type and the direction of the message as they are.
pub proof fn law_rows_read_back(timestamp: u64, meta: Metadata)
    ensures
        exists|time: Seq<char>, peer: Seq<char>, size: Seq<char>|
            #![trigger is_numeral(time, timestamp as int), is_numeral(peer, meta.peer_id as int), is_numeral(size, meta.size as int)]
            is_numeral(time, timestamp as int) && is_numeral(peer, meta.peer_id as int)
                && is_numeral(size, meta.size as int) && csv_row(timestamp, meta) == time + ","@
                + peer + ","@ + meta.addr@ + ","@ + meta.command@ + ","@ + (if meta.inbound {
                "in"@
            } else {
                "out"@
            }) + ","@ + size,
{
    reveal_strlit(",");
    reveal_strlit("in");
    reveal_strlit("out");
    reveal_strlit(",in,");
    reveal_strlit(",out,");
    law_decimal_reads_back(timestamp as nat);
    law_decimal_reads_back(meta.peer_id as nat);
    law_decimal_reads_back(meta.size as nat);
    let (time, peer, size) = (
        decimal(timestamp as nat),
        decimal(meta.peer_id as nat),
        decimal(meta.size as nat),
    );
    assert(is_numeral(time, timestamp as int) && is_numeral(peer, meta.peer_id as int)
        && is_numeral(size, meta.size as int));
    assert(","@ + "in"@ + ","@ =~= ",in,"@);
    assert(","@ + "out"@ + ","@ =~= ",out,"@);
    assert(csv_row(timestamp, meta) =~= time + ","@ + peer + ","@ + meta.addr@ + ","@
        + meta.command@ + ","@ + (if meta.inbound {
        "in"@
    } else {
        "out"@
    }) + ","@ + size);
}

/// The rows follow the names of the columns: one for each message, in order, with its
/// time, and none for any other event.
pub proof fn law_each_message_has_its_row(
    events: Seq<Event>,
    timestamp: u64,
    meta: Metadata,
    text: String,
    other: Event,
)
    ensures
        csv(Seq::empty()) == seq!["timestamp,peer_id,addr,command,direction,size"@],
        csv(events.push(message_event(timestamp, meta, text))) == csv(events).push(
            csv_row(timestamp, meta),
        ),
        !is_message_event(other) ==> csv(events.push(other)) == csv(events),
{
    law_messages_are_kept_in_order(events, timestamp, meta, text, other);
    law_messages_are_what_the_ebpf_extractor_saw(timestamp, meta, text, other);
    assert(csv(Seq::empty()) =~= seq!["timestamp,peer_id,addr,command,direction,size"@]);
    assert(csv(events.push(message_event(timestamp, meta, text))) =~= csv(events).push(
        csv_row(timestamp, meta),
    ));
}

} // verus!
