//! The messages of an archive as a Mermaid sequence diagram.
use crate::event::{
    is_message_event, law_messages_are_what_the_ebpf_extractor_saw, lemma_messages_in_push,
    message_event, messages_in, peer_message, Event, Metadata,
};
use crate::replayer::file::Archive;
use crate::text::{
    blanks, decimal, is_numeral, law_decimal_reads_back, law_different_numbers_look_different,
    law_text_of_lines_adds_up, push_decimal, push_lines, text_of_lines, texts,
};
use vstd::prelude::*;

verus! {

/// Whether messages of the peer `peer_id` are shown: it is one of `peers`, or
/// `peers` names none.
pub open spec fn is_chosen(peers: Seq<u64>, peer_id: u64) -> bool {
    peers.len() == 0 || peers.contains(peer_id)
}

/// The messages of the chosen peers, in order.
pub open spec fn chosen_messages(events: Seq<Event>, peers: Seq<u64>) -> Seq<Metadata> {
    messages_in(events).map_values(|event: Event| peer_message(event)->0).filter(
        |meta: Metadata| is_chosen(peers, meta.peer_id),
    )
}

/// The peers of `messages`, each once, in the order of their first messages.
pub open spec fn participants(messages: Seq<Metadata>) -> Seq<u64>
    decreases messages.len(),
{
    if messages.len() == 0 {
        Seq::empty()
    } else {
        let before = participants(messages.drop_last());
        if before.contains(messages.last().peer_id) {
            before
        } else {
            before.push(messages.last().peer_id)
        }
    }
}

/// The name of a peer in the diagram.
pub open spec fn peer_name(peer_id: u64) -> Seq<char> {
    "P"@ + decimal(peer_id as nat)
}

/// The line that declares a peer.
pub open spec fn participant_line(peer_id: u64) -> Seq<char> {
    "    participant "@ + peer_name(peer_id) + " as Peer "@ + decimal(peer_id as nat)
}

/// What is written on the arrow of a message: its type, and its size if it has one.
pub open spec fn label(meta: Metadata) -> Seq<char> {
    if meta.size > 0 {
        meta.command@ + " ("@ + decimal(meta.size as nat) + "B)"@
    } else {
        meta.command@
    }
}

/// The line for a message, an arrow from its sender to its receiver.
pub open spec fn arrow_line(meta: Metadata) -> Seq<char> {
    if meta.inbound {
        "    "@ + peer_name(meta.peer_id) + "->>Node: "@ + label(meta)
    } else {
        "    Node->>"@ + peer_name(meta.peer_id) + ": "@ + label(meta)
    }
}

/// The lines of the diagram: its head, the node, its peers, and the messages.
pub open spec fn diagram(messages: Seq<Metadata>) -> Seq<Seq<char>> {
    seq!["sequenceDiagram"@, "    participant Node as Our Node"@] + participants(
        messages,
    ).map_values(|peer_id: u64| participant_line(peer_id)) + messages.map_values(
        |meta: Metadata| arrow_line(meta),
    )
}

/// The messages behind references.
spec fn values_of(messages: Seq<&Metadata>) -> Seq<Metadata> {
    messages.map_values(|meta: &Metadata| *meta)
}

fn contains_id(ids: &Vec<u64>, id: u64) -> (r: bool)
    ensures
        r == ids@.contains(id),
{
    let mut i: usize = 0;
    while i < ids.len()
        invariant
            i <= ids@.len(),
            forall|k: int| 0 <= k < i ==> ids@[k] != id,
        decreases ids@.len() - i,
    {
        if ids[i] == id {
            return true;
        }
        i = i + 1;
    }
    false
}

proof fn lemma_chosen_push(events: Seq<Event>, event: Event, peers: Seq<u64>)
    ensures
        chosen_messages(events.push(event), peers) == match peer_message(event) {
            Some(meta) if is_chosen(peers, meta.peer_id) => chosen_messages(events, peers).push(
                meta,
            ),
            _ => chosen_messages(events, peers),
        },
{
    reveal(Seq::filter);
    lemma_messages_in_push(events, event);
    let metas = messages_in(events).map_values(|e: Event| peer_message(e)->0);
    if let Some(meta) = peer_message(event) {
        let longer = messages_in(events.push(event)).map_values(|e: Event| peer_message(e)->0);
        assert(longer =~= metas.push(meta));
        assert(longer.drop_last() =~= metas);
    }
}

fn choose_messages<'a>(archive: &'a Archive, peers: &Vec<u64>) -> (r: Vec<&'a Metadata>)
    ensures
        values_of(r@) == chosen_messages(archive.events@, peers@),
{
    let mut messages: Vec<&'a Metadata> = Vec::new();
    let mut i: usize = 0;
    proof {
        reveal(Seq::filter);
        assert(messages_in(archive.events@.take(0)) =~= Seq::empty());
        assert(values_of(messages@) =~= chosen_messages(archive.events@.take(0), peers@));
    }
    while i < archive.events.len()
        invariant
            i <= archive.events@.len(),
            values_of(messages@) == chosen_messages(archive.events@.take(i as int), peers@),
        decreases archive.events@.len() - i,
    {
        let ghost before = archive.events@.take(i as int);
        proof {
            lemma_chosen_push(before, archive.events@[i as int], peers@);
            assert(archive.events@.take(i + 1) =~= before.push(archive.events@[i as int]));
        }
        if let Some(meta) = archive.events[i].message() {
            if peers.len() == 0 || contains_id(peers, meta.peer_id) {
                assert(values_of(messages@.push(meta)) =~= values_of(messages@).push(*meta));
                messages.push(meta);
            }
        }
        i = i + 1;
    }
    assert(archive.events@.take(i as int) =~= archive.events@);
    messages
}

fn find_participants(messages: &Vec<&Metadata>) -> (r: Vec<u64>)
    ensures
        r@ == participants(values_of(messages@)),
{
    let mut ids: Vec<u64> = Vec::new();
    let mut i: usize = 0;
    while i < messages.len()
        invariant
            i <= messages@.len(),
            ids@ == participants(values_of(messages@).take(i as int)),
        decreases messages@.len() - i,
    {
        let id: u64 = messages[i].peer_id;
        proof {
            let longer = values_of(messages@).take(i + 1);
            assert(longer.drop_last() =~= values_of(messages@).take(i as int));
            assert(longer.last() == *messages@[i as int]);
        }
        if !contains_id(&ids, id) {
            ids.push(id);
        }
        i = i + 1;
    }
    assert(values_of(messages@).take(i as int) =~= values_of(messages@));
    ids
}

fn push_peer_name(out: &mut String, peer_id: u64)
    ensures
        final(out)@ == old(out)@ + peer_name(peer_id),
{
    out.append("P");
    push_decimal(out, peer_id);
    assert(out@ =~= old(out)@ + peer_name(peer_id));
}

fn participant_text(peer_id: u64) -> (r: String)
    ensures
        r@ == participant_line(peer_id),
{
    let mut line = String::new();
    line.append("    participant ");
    push_peer_name(&mut line, peer_id);
    line.append(" as Peer ");
    push_decimal(&mut line, peer_id);
    assert(line@ =~= participant_line(peer_id));
    line
}

fn push_label(out: &mut String, meta: &Metadata)
    ensures
        final(out)@ == old(out)@ + label(*meta),
{
    out.append(meta.command.as_str());
    if meta.size > 0 {
        out.append(" (");
        push_decimal(out, meta.size);
        out.append("B)");
    }
    assert(out@ =~= old(out)@ + label(*meta));
}

fn arrow_text(meta: &Metadata) -> (r: String)
    ensures
        r@ == arrow_line(*meta),
{
    let mut line = String::new();
    if meta.inbound {
        line.append("    ");
        push_peer_name(&mut line, meta.peer_id);
        line.append("->>Node: ");
    } else {
        line.append("    Node->>");
        push_peer_name(&mut line, meta.peer_id);
        line.append(": ");
    }
    push_label(&mut line, meta);
    assert(line@ =~= arrow_line(*meta));
    line
}

fn diagram_text(messages: &Vec<&Metadata>) -> (r: Vec<String>)
    ensures
        texts(r@) == diagram(values_of(messages@)),
{
    let mut lines: Vec<String> = Vec::new();
    let mut head = String::new();
    head.append("sequenceDiagram");
    assert(head@ =~= "sequenceDiagram"@);
    let mut node = String::new();
    node.append("    participant Node as Our Node");
    assert(node@ =~= "    participant Node as Our Node"@);
    lines.push(head);
    lines.push(node);
    let ids = find_participants(messages);
    let ghost whole = diagram(values_of(messages@));
    let mut i: usize = 0;
    assert(texts(lines@) =~= whole.take(2));
    while i < ids.len()
        invariant
            i <= ids@.len(),
            ids@ == participants(values_of(messages@)),
            whole == diagram(values_of(messages@)),
            texts(lines@) == whole.take(i + 2),
        decreases ids@.len() - i,
    {
        let line = participant_text(ids[i]);
        assert(whole[i + 2] == line@);
        assert(texts(lines@.push(line)) =~= texts(lines@).push(line@));
        lines.push(line);
        i = i + 1;
        assert(whole.take(i + 2) =~= whole.take(i + 1).push(whole[i + 1]));
    }
    let mut j: usize = 0;
    while j < messages.len()
        invariant
            j <= messages@.len(),
            ids@ == participants(values_of(messages@)),
            whole == diagram(values_of(messages@)),
            texts(lines@) == whole.take(ids@.len() + 2 + j),
        decreases messages@.len() - j,
    {
        let line = arrow_text(messages[j]);
        let ghost at = ids@.len() + 2 + j;
        assert(whole[at as int] == arrow_line(values_of(messages@)[j as int]));
        assert(texts(lines@.push(line)) =~= texts(lines@).push(line@));
        lines.push(line);
        j = j + 1;
        assert(whole.take(at + 1) =~= whole.take(at as int).push(whole[at as int]));
    }
    assert(whole.take(whole.len() as int) =~= whole);
    lines
}

/// The sequence diagram of the messages of the chosen peers, or the remark that
/// there are none.
pub fn sequence_diagram(archive: &Archive, peers: &Vec<u64>) -> (r: Result<Vec<String>, String>)
    ensures
        match r {
            Ok(lines) => chosen_messages(archive.events@, peers@).len() > 0 && texts(lines@)
                == diagram(chosen_messages(archive.events@, peers@)),
            Err(text) => chosen_messages(archive.events@, peers@).len() == 0 && text@
                == "no P2P messages found"@,
        },
{
    let messages = choose_messages(archive, peers);
    if messages.len() == 0 {
        let mut text = String::new();
        text.append("no P2P messages found");
        assert(text@ =~= "no P2P messages found"@);
        Err(text)
    } else {
        Ok(diagram_text(&messages))
    }
}

/// The page in front of the diagram.
pub const PAGE_HEAD: &'static str = "<!DOCTYPE html>\n\
<html>\n\
<head>\n\
<meta charset=\"utf-8\">\n\
<title>peer-observer</title>\n\
<style>\n\
table { border-collapse: collapse; table-layout: fixed; }\n\
th, td { min-width: 10em; padding: 0.3em 1em; }\n\
td.right { border-bottom: 1px solid; text-align: right; }\n\
td.left { border-bottom: 1px solid; text-align: left; }\n\
</style>\n\
</head>\n\
<body>\n\
<pre class=\"mermaid\">\n";

/// The page behind the diagram, with the script that draws it.
pub const PAGE_FOOT: &'static str = "</pre>\n\
<script>\n\
var source = document.querySelector('pre.mermaid');\n\
var table = document.createElement('table');\n\
var titles = table.insertRow();\n\
var names = [];\n\
function cell(row, kind, text, span, style) {\n\
var made = document.createElement(kind);\n\
made.textContent = text;\n\
made.colSpan = span;\n\
made.className = style;\n\
row.appendChild(made);\n\
}\n\
source.textContent.split('\\n').forEach(function (line) {\n\
var peer = /^ *participant ([^ ]+) as (.*)$/.exec(line);\n\
var arrow = /^ *([^ ]+?)->>([^ ]+?): (.*)$/.exec(line);\n\
if (peer) {\n\
names.push(peer[1]);\n\
cell(titles, 'th', peer[2], 1, '');\n\
} else if (arrow) {\n\
var from = names.indexOf(arrow[1]);\n\
var to = names.indexOf(arrow[2]);\n\
var low = Math.min(from, to);\n\
var high = Math.max(from, to);\n\
var row = table.insertRow();\n\
if (low > 0) {\n\
cell(row, 'td', '', low, '');\n\
}\n\
if (from < to) {\n\
cell(row, 'td', arrow[3] + ' \\u2192', high - low + 1, 'right');\n\
} else {\n\
cell(row, 'td', '\\u2190 ' + arrow[3], high - low + 1, 'left');\n\
}\n\
}\n\
});\n\
source.before(table);\n\
</script>\n\
</body>\n\
</html>\n";

/// `c` as it is written in a page.
pub open spec fn escaped_char(c: char) -> Seq<char> {
    if c == '&' {
        "&amp;"@
    } else if c == '<' {
        "&lt;"@
    } else {
        seq![c]
    }
}

/// `s` as it is written in a page, so that nothing in it is taken for markup.
pub open spec fn escaped(s: Seq<char>) -> Seq<char>
    decreases s.len(),
{
    if s.len() == 0 {
        Seq::empty()
    } else {
        escaped(s.drop_last()) + escaped_char(s.last())
    }
}

fn escaped_text(s: &str) -> (r: String)
    ensures
        r@ == escaped(s@),
{
    let length: usize = s.unicode_len();
    let mut out = String::new();
    let mut i: usize = 0;
    assert(out@ =~= escaped(s@.take(0)));
    while i < length
        invariant
            length == s@.len(),
            i <= length,
            out@ == escaped(s@.take(i as int)),
        decreases length - i,
    {
        let c = s.get_char(i);
        let piece: &str = if c == '&' {
            "&amp;"
        } else if c == '<' {
            "&lt;"
        } else {
            s.substring_char(i, i + 1)
        };
        assert(piece@ =~= escaped_char(c));
        out.append(piece);
        i = i + 1;
        assert(s@.take(i as int).drop_last() =~= s@.take(i - 1));
        assert(out@ =~= escaped(s@.take(i as int)));
    }
    assert(s@.take(i as int) =~= s@);
    out
}

/// A page that shows the diagram with the given lines: their text, and a script
/// that draws them above it.
pub open spec fn page(lines: Seq<Seq<char>>) -> Seq<char> {
    PAGE_HEAD@ + text_of_lines(lines.map_values(|line: Seq<char>| escaped(line))) + PAGE_FOOT@
}

/// A page that shows the diagram with the given lines. It is self-contained: the
/// script that draws the diagram stands in the page, and nothing else is loaded.
pub fn html_page(lines: &Vec<String>) -> (r: String)
    ensures
        r@ == page(texts(lines@)),
{
    let ghost wanted = texts(lines@).map_values(|line: Seq<char>| escaped(line));
    let mut safe: Vec<String> = Vec::new();
    let mut i: usize = 0;
    while i < lines.len()
        invariant
            i <= lines@.len(),
            wanted == texts(lines@).map_values(|line: Seq<char>| escaped(line)),
            texts(safe@) =~= wanted.take(i as int),
        decreases lines@.len() - i,
    {
        let line = escaped_text(lines[i].as_str());
        assert(wanted[i as int] == line@);
        assert(texts(safe@.push(line)) =~= texts(safe@).push(line@));
        safe.push(line);
        i = i + 1;
    }
    assert(wanted.take(i as int) =~= wanted);
    let mut out = String::new();
    out.append(PAGE_HEAD);
    push_lines(&mut out, &safe);
    out.append(PAGE_FOOT);
    assert(out@ =~= page(texts(lines@)));
    out
}

/// Nothing in a message brings markup into a page.
pub proof fn law_escaped_text_holds_no_markup(s: Seq<char>)
    ensures
        !escaped(s).contains('<'),
    decreases s.len(),
{
    reveal_strlit("&amp;");
    reveal_strlit("&lt;");
    if s.len() > 0 {
        law_escaped_text_holds_no_markup(s.drop_last());
        let front = escaped(s.drop_last());
        let back = escaped_char(s.last());
        assert forall|i: int| 0 <= i < escaped(s).len() implies escaped(s)[i] != '<' by {
            if i < front.len() {
                assert(front.contains(front[i]));
                assert(escaped(s)[i] == front[i]);
            } else {
                assert(escaped(s)[i] == back[i - front.len()]);
            }
        }
    }
}

/// Each peer with a message is declared once, and no other peer is.
pub proof fn law_participants_are_the_peers(messages: Seq<Metadata>)
    ensures
        participants(messages).no_duplicates(),
        forall|peer_id: u64| #[trigger]
            participants(messages).contains(peer_id) <==> exists|i: int|
                0 <= i < messages.len() && (#[trigger] messages[i]).peer_id == peer_id,
    decreases messages.len(),
{
    if messages.len() > 0 {
        let before = messages.drop_last();
        let known = participants(before);
        let all = participants(messages);
        law_participants_are_the_peers(before);
        assert forall|peer_id: u64| #[trigger] all.contains(peer_id) <==> exists|i: int|
            0 <= i < messages.len() && (#[trigger] messages[i]).peer_id == peer_id by {
            if all.contains(peer_id) {
                let k = choose|k: int| 0 <= k < all.len() && all[k] == peer_id;
                if k < known.len() {
                    assert(known[k] == peer_id);
                    assert(known.contains(peer_id));
                    let i = choose|i: int|
                        0 <= i < before.len() && (#[trigger] before[i]).peer_id == peer_id;
                    assert(messages[i].peer_id == peer_id);
                } else {
                    assert(messages[messages.len() - 1].peer_id == peer_id);
                }
            }
            if exists|i: int| 0 <= i < messages.len() && (#[trigger] messages[i]).peer_id == peer_id
            {
                let i = choose|i: int|
                    0 <= i < messages.len() && (#[trigger] messages[i]).peer_id == peer_id;
                if i < before.len() {
                    assert(before[i].peer_id == peer_id);
                    assert(known.contains(peer_id));
                    let k = choose|k: int| 0 <= k < known.len() && known[k] == peer_id;
                    assert(all[k] == peer_id);
                } else if !known.contains(peer_id) {
                    assert(all[all.len() - 1] == peer_id);
                } else {
                    assert(all == known);
                }
            }
        }
    }
}

/// The diagram shows no peer but the chosen ones.
pub proof fn law_only_chosen_peers_are_shown(events: Seq<Event>, peers: Seq<u64>, peer_id: u64)
    requires
        peers.len() > 0,
        participants(chosen_messages(events, peers)).contains(peer_id),
    ensures
        peers.contains(peer_id),
{
    let messages = chosen_messages(events, peers);
    law_participants_are_the_peers(messages);
    let i = choose|i: int| 0 <= i < messages.len() && (#[trigger] messages[i]).peer_id == peer_id;
    broadcast use vstd::seq_lib::group_filter_ensures;

    assert(is_chosen(peers, messages[i].peer_id));
}

/// Every line of the diagram but the first is indented by four blanks.
pub proof fn law_lines_are_indented(messages: Seq<Metadata>, i: int)
    requires
        1 <= i < diagram(messages).len(),
    ensures
        blanks(4).is_prefix_of(diagram(messages)[i]),
{
    reveal_strlit("    participant Node as Our Node");
    reveal_strlit("    participant ");
    reveal_strlit("    ");
    reveal_strlit("    Node->>");
    let line = diagram(messages)[i];
    let ids = participants(messages);
    if i == 1 {
        assert(line == "    participant Node as Our Node"@);
    } else if i < ids.len() + 2 {
        assert(line == participant_line(ids[i - 2]));
    } else {
        assert(line == arrow_line(messages[i - 2 - ids.len()]));
    }
    assert(line.len() >= 4);
    assert(line.take(4) =~= blanks(4));
    assert(line.subrange(0, 4) =~= blanks(4));
}

/// The name of a peer is the letter `P` and the whole number of the peer, so that no
/// two peers share one.
pub proof fn law_peers_have_names_of_their_own(a: u64, b: u64)
    ensures
        exists|number: Seq<char>| #[trigger]
            is_numeral(number, a as int) && peer_name(a) == "P"@ + number && participant_line(a)
                == "    participant P"@ + number + " as Peer "@ + number,
        peer_name(a) == peer_name(b) ==> a == b,
{
    reveal_strlit("P");
    reveal_strlit("    participant ");
    reveal_strlit("    participant P");
    law_decimal_reads_back(a as nat);
    let number = decimal(a as nat);
    assert(is_numeral(number, a as int));
    assert("    participant "@ + "P"@ =~= "    participant P"@);
    assert(participant_line(a) =~= "    participant P"@ + number + " as Peer "@ + number);
    if peer_name(a) == peer_name(b) {
        assert(peer_name(a).skip(1) =~= decimal(a as nat));
        assert(peer_name(b).skip(1) =~= decimal(b as nat));
        law_different_numbers_look_different(a as nat, b as nat);
    }
}

/// The line of a message shows from whom to whom it went, by the whole number of the
/// peer, its type, and its size in full if it has one.
pub proof fn law_arrows_read_back(meta: Metadata)
    ensures
        exists|number: Seq<char>, size: Seq<char>|
            #![trigger is_numeral(number, meta.peer_id as int), is_numeral(size, meta.size as int)]
            is_numeral(number, meta.peer_id as int) && is_numeral(size, meta.size as int)
                && arrow_line(meta) == (if meta.inbound {
                "    P"@ + number + "->>Node: "@
            } else {
                "    Node->>P"@ + number + ": "@
            }) + meta.command@ + (if meta.size > 0 {
                " ("@ + size + "B)"@
            } else {
                Seq::empty()
            }),
{
    reveal_strlit("P");
    reveal_strlit("    ");
    reveal_strlit("    P");
    reveal_strlit("    Node->>");
    reveal_strlit("    Node->>P");
    law_decimal_reads_back(meta.peer_id as nat);
    law_decimal_reads_back(meta.size as nat);
    let (number, size) = (decimal(meta.peer_id as nat), decimal(meta.size as nat));
    assert(is_numeral(number, meta.peer_id as int) && is_numeral(size, meta.size as int));
    assert("    "@ + "P"@ =~= "    P"@);
    assert("    Node->>"@ + "P"@ =~= "    Node->>P"@);
    assert(arrow_line(meta) =~= (if meta.inbound {
        "    P"@ + number + "->>Node: "@
    } else {
        "    Node->>P"@ + number + ": "@
    }) + meta.command@ + (if meta.size > 0 {
        " ("@ + size + "B)"@
    } else {
        Seq::empty()
    }));
}

/// The messages in the diagram are found one after the other: a message is shown in its
/// place exactly if no peers are chosen or its peer is one of them; nothing else is.
pub proof fn law_messages_of_chosen_peers_are_shown(
    events: Seq<Event>,
    peers: Seq<u64>,
    timestamp: u64,
    meta: Metadata,
    text: String,
    other: Event,
)
    ensures
        ({
            let shown = chosen_messages(events, peers);
            let more = chosen_messages(events.push(message_event(timestamp, meta, text)), peers);
            let wanted = peers.len() == 0 || exists|i: int|
                0 <= i < peers.len() && #[trigger] peers[i] == meta.peer_id;
            &&& chosen_messages(Seq::empty(), peers) == Seq::<Metadata>::empty()
            &&& wanted ==> more == shown.push(meta)
            &&& !wanted ==> more == shown
            &&& !is_message_event(other) ==> chosen_messages(events.push(other), peers) == shown
        }),
{
    reveal(Seq::filter);
    law_messages_are_what_the_ebpf_extractor_saw(timestamp, meta, text, other);
    lemma_chosen_push(events, message_event(timestamp, meta, text), peers);
    lemma_chosen_push(events, other, peers);
    assert(messages_in(Seq::<Event>::empty()) =~= Seq::empty());
    assert(chosen_messages(Seq::empty(), peers) =~= Seq::<Metadata>::empty());
    let wanted = peers.len() == 0 || exists|i: int|
        0 <= i < peers.len() && #[trigger] peers[i] == meta.peer_id;
    assert(wanted == is_chosen(peers, meta.peer_id));
}

/// Peers are declared in the order of their first messages.
pub proof fn law_peers_are_declared_as_they_appear(messages: Seq<Metadata>, meta: Metadata)
    ensures
        participants(Seq::empty()) == Seq::<u64>::empty(),
        (exists|i: int| 0 <= i < messages.len() && (#[trigger] messages[i]).peer_id == meta.peer_id)
            ==> participants(messages.push(meta)) == participants(messages),
        !(exists|i: int|
            0 <= i < messages.len() && (#[trigger] messages[i]).peer_id == meta.peer_id)
            ==> participants(messages.push(meta)) == participants(messages).push(meta.peer_id),
{
    assert(messages.push(meta).drop_last() =~= messages);
    law_participants_are_the_peers(messages);
    assert(participants(messages).contains(meta.peer_id) <==> exists|i: int|
        0 <= i < messages.len() && (#[trigger] messages[i]).peer_id == meta.peer_id);
}

/// The diagram begins with its head and the node, then declares the peers, and then has
/// one line for each message, in order.
pub proof fn law_diagram_is_laid_out(messages: Seq<Metadata>)
    ensures
        ({
            let peers = participants(messages);
            &&& diagram(messages).len() == 2 + peers.len() + messages.len()
            &&& diagram(messages)[0] == "sequenceDiagram"@
            &&& diagram(messages)[1] == "    participant Node as Our Node"@
            &&& forall|i: int| #![trigger peers[i]]
                0 <= i < peers.len() ==> diagram(messages)[2 + i] == participant_line(peers[i])
            &&& forall|i: int| #![trigger messages[i]]
                0 <= i < messages.len() ==> diagram(messages)[2 + peers.len() + i] == arrow_line(
                    messages[i],
                )
        }),
{
}

/// The character at the front of text in a page, and the characters that it takes.
pub open spec fn unescaped_front(s: Seq<char>) -> (char, nat) {
    if "&amp;"@.is_prefix_of(s) {
        ('&', 5)
    } else if "&lt;"@.is_prefix_of(s) {
        ('<', 4)
    } else {
        (s[0], 1)
    }
}

/// Text in a page reads back character by character as it was.
pub proof fn law_escaped_text_reads_back(s: Seq<char>, c: char, rest: Seq<char>)
    ensures
        escaped(Seq::empty()) == Seq::<char>::empty(),
        escaped(s.push(c)) == escaped(s) + escaped(seq![c]),
        escaped(seq![c]).len() > 0,
        unescaped_front(escaped(seq![c]) + rest) == (c, escaped(seq![c]).len()),
{
    reveal_strlit("&amp;");
    reveal_strlit("&lt;");
    assert(s.push(c).drop_last() =~= s);
    assert(seq![c].drop_last() =~= Seq::<char>::empty());
    assert(escaped(Seq::<char>::empty()) =~= Seq::<char>::empty());
    assert(seq![c].last() == c);
    assert(escaped(seq![c]) =~= escaped(seq![c].drop_last()) + escaped_char(c));
    assert(escaped(seq![c]) =~= escaped_char(c));
    let text = escaped_char(c) + rest;
    if c == '&' {
        assert(text.subrange(0, 5) =~= "&amp;"@);
    } else if c == '<' {
        assert(text[1] == 'l');
        assert(!"&amp;"@.is_prefix_of(text)) by {
            if "&amp;"@.is_prefix_of(text) {
                assert(text.subrange(0, 5)[1] == 'a');
            }
        }
        assert(text.subrange(0, 4) =~= "&lt;"@);
    } else {
        assert(text[0] == c);
        assert(!"&amp;"@.is_prefix_of(text)) by {
            if "&amp;"@.is_prefix_of(text) {
                assert(text.subrange(0, 5)[0] == '&');
            }
        }
        assert(!"&lt;"@.is_prefix_of(text)) by {
            if "&lt;"@.is_prefix_of(text) {
                assert(text.subrange(0, 4)[0] == '&');
            }
        }
    }
}

/// A page is the same around every diagram, and holds each of its lines, as text, with
/// a line break behind it.
pub proof fn law_page_holds_the_diagram(lines: Seq<Seq<char>>, line: Seq<char>)
    ensures
        page(lines.push(line)).len() == page(lines).len() + escaped(line).len() + 1,
        ({
            let head = page(Seq::empty()).len() - PAGE_FOOT@.len();
            let at = page(lines).len() - PAGE_FOOT@.len();
            let longer = page(lines.push(line));
            &&& longer.take(at) == page(lines).take(at)
            &&& longer.subrange(at, at + escaped(line).len() as int) == escaped(line)
            &&& longer[at + escaped(line).len() as int] == '\n'
            &&& longer.skip(at + escaped(line).len() as int + 1) == page(lines).skip(at)
            &&& page(lines).skip(at) == PAGE_FOOT@
            &&& page(Seq::empty()).take(head) == PAGE_HEAD@
        }),
{
    let f = |l: Seq<char>| escaped(l);
    assert(lines.push(line).map_values(f) =~= lines.map_values(f).push(escaped(line)));
    law_text_of_lines_adds_up(lines.map_values(f), escaped(line));
    assert(Seq::<Seq<char>>::empty().map_values(f) =~= Seq::empty());
    let body = text_of_lines(lines.map_values(f));
    let at = page(lines).len() - PAGE_FOOT@.len();
    let longer = page(lines.push(line));
    assert(longer =~= PAGE_HEAD@ + body + escaped(line) + seq!['\n'] + PAGE_FOOT@);
    assert(page(lines) =~= PAGE_HEAD@ + body + PAGE_FOOT@);
    assert(longer.take(at) =~= page(lines).take(at));
    assert(longer.subrange(at, at + escaped(line).len() as int) =~= escaped(line));
    assert(longer.skip(at + escaped(line).len() as int + 1) =~= PAGE_FOOT@);
    assert(page(lines).skip(at) =~= PAGE_FOOT@);
    let head = page(Seq::empty()).len() - PAGE_FOOT@.len();
    assert(page(Seq::empty()).take(head) =~= PAGE_HEAD@);
}

} // verus!
