//! Filters on the events of an archive: by time and by the type of a message.
use crate::event::{
    is_message_event, law_messages_are_what_the_ebpf_extractor_saw, message_event, peer_message,
    Event, Metadata,
};
use crate::replayer::file::Archive;
use crate::text::texts;
use vstd::prelude::*;

verus! {

/// Whether `event` happened neither before `from` nor after `to`, where these are
/// given.
pub open spec fn within(from: Option<u64>, to: Option<u64>, event: Event) -> bool {
    &&& from matches Some(first) ==> first <= event.timestamp
    &&& to matches Some(last) ==> event.timestamp <= last
}

/// Whether `event` is a message whose type is one of `types`; with no types, every
/// event is.
pub open spec fn of_types(types: Seq<Seq<char>>, event: Event) -> bool {
    types.len() == 0 || (peer_message(event) matches Some(meta) && types.contains(meta.command@))
}

/// Which events are looked at.
#[derive(Debug, PartialEq, Eq)]
pub struct Filter {
    /// The first time in milliseconds, if there is one.
    pub from: Option<u64>,
    /// The last time in milliseconds, if there is one.
    pub to: Option<u64>,
    /// The types of the messages; none for every event.
    pub msg_types: Vec<String>,
}

/// Whether `filter` lets `event` through.
pub open spec fn passes(filter: Filter, event: Event) -> bool {
    within(filter.from, filter.to, event) && of_types(texts(filter.msg_types@), event)
}

/// Those of `events` that `filter` lets through, in the same order.
pub open spec fn filtered(filter: Filter, events: Seq<Event>) -> Seq<Event> {
    events.filter(|event: Event| passes(filter, event))
}

impl Filter {
    /// Whether `event` happened in the time that is looked at.
    fn is_within(&self, event: &Event) -> (r: bool)
        ensures
            r == within(self.from, self.to, *event),
    {
        let late_enough = match self.from {
            Some(first) => first <= event.timestamp,
            None => true,
        };
        let early_enough = match self.to {
            Some(last) => event.timestamp <= last,
            None => true,
        };
        late_enough && early_enough
    }

    /// Whether `event` is of the types that are looked at.
    fn is_of_types(&self, event: &Event) -> (r: bool)
        ensures
            r == of_types(texts(self.msg_types@), *event),
    {
        if self.msg_types.len() == 0 {
            return true;
        }
        let meta = match event.message() {
            Some(meta) => meta,
            None => {
                return false;
            },
        };
        let mut i: usize = 0;
        while i < self.msg_types.len()
            invariant
                i <= self.msg_types@.len(),
                peer_message(*event) == Some(*meta),
                forall|k: int|
                    0 <= k < i ==> #[trigger] texts(self.msg_types@)[k] != meta.command@,
            decreases self.msg_types@.len() - i,
        {
            assert(texts(self.msg_types@)[i as int] == self.msg_types@[i as int]@);
            if self.msg_types[i] == meta.command {
                return true;
            }
            i = i + 1;
        }
        false
    }

    /// Whether the filter lets `event` through.
    pub fn lets_through(&self, event: &Event) -> (r: bool)
        ensures
            r == passes(*self, *event),
    {
        self.is_within(event) && self.is_of_types(event)
    }
}

/// The archive with the events that `filter` lets through.
pub fn filter_archive(archive: Archive, filter: &Filter) -> (r: Archive)
    ensures
        r.header == archive.header,
        r.events@ == filtered(*filter, archive.events@),
{
    let header = archive.header;
    let all = archive.events;
    let ghost events = all@;
    let mut kept: Vec<Event> = Vec::new();
    proof {
        reveal(Seq::filter);
        assert(filtered(*filter, events.take(0)) =~= Seq::empty());
    }
    for event in it: all
        invariant
            it.seq() == events,
            kept@ == filtered(*filter, events.take(it.index() as int)),
    {
        proof {
            reveal(Seq::filter);
            assert(events.take(it.index() + 1).drop_last() =~= events.take(it.index() as int));
        }
        if filter.lets_through(&event) {
            kept.push(event);
        }
    }
    assert(events.take(events.len() as int) =~= events);
    Archive { header, events: kept }
}

/// Whether `pieces` is `text` split at its commas: no piece holds a comma, and with
/// commas between them the pieces are `text`.
pub open spec fn is_split(text: Seq<char>, pieces: Seq<Seq<char>>) -> bool {
    &&& pieces.len() > 0
    &&& text == joined(pieces)
    &&& forall|i: int| 0 <= i < pieces.len() ==> !(#[trigger] pieces[i]).contains(',')
}

/// `pieces` with commas between them.
pub open spec fn joined(pieces: Seq<Seq<char>>) -> Seq<char>
    decreases pieces.len(),
{
    if pieces.len() == 0 {
        Seq::empty()
    } else if pieces.len() == 1 {
        pieces[0]
    } else {
        joined(pieces.drop_last()).push(',') + pieces.last()
    }
}

/// The types in a list that has commas between them.
pub fn split_types(list: &str) -> (r: Vec<String>)
    ensures
        is_split(list@, texts(r@)),
{
    let mut pieces: Vec<String> = Vec::new();
    let length: usize = list.unicode_len();
    let mut start: usize = 0;
    let mut i: usize = 0;
    while i < length
        invariant
            length == list@.len(),
            start <= i <= length,
            start == 0 <==> pieces@.len() == 0,
            start > 0 ==> list@.take(start as int) == joined(texts(pieces@)).push(','),
            forall|k: int| start <= k < i ==> list@[k] != ',',
            forall|k: int|
                0 <= k < pieces@.len() ==> !(#[trigger] texts(pieces@)[k]).contains(','),
        decreases length - i,
    {
        if list.get_char(i) == ',' {
            let piece = list.substring_char(start, i).to_owned();
            proof {
                lemma_split_step(list@, texts(pieces@), start as int, i as int);
                assert(texts(pieces@.push(piece)) =~= texts(pieces@).push(piece@));
                assert(list@.take(i + 1) =~= list@.take(i as int).push(','));
            }
            pieces.push(piece);
            start = i + 1;
        }
        i = i + 1;
    }
    let piece = list.substring_char(start, length).to_owned();
    proof {
        lemma_split_step(list@, texts(pieces@), start as int, length as int);
        assert(texts(pieces@.push(piece)) =~= texts(pieces@).push(piece@));
        assert(list@.take(length as int) =~= list@);
    }
    pieces.push(piece);
    pieces
}

proof fn lemma_split_step(list: Seq<char>, pieces: Seq<Seq<char>>, start: int, end: int)
    requires
        0 <= start <= end <= list.len(),
        start == 0 <==> pieces.len() == 0,
        start > 0 ==> list.take(start) == joined(pieces).push(','),
        forall|k: int| start <= k < end ==> list[k] != ',',
        forall|k: int| 0 <= k < pieces.len() ==> !(#[trigger] pieces[k]).contains(','),
    ensures
        list.take(end) == joined(pieces.push(list.subrange(start, end))),
        forall|k: int|
            0 <= k < pieces.len() + 1 ==> !(#[trigger] pieces.push(
                list.subrange(start, end),
            )[k]).contains(','),
{
    let piece = list.subrange(start, end);
    assert(pieces.push(piece).drop_last() =~= pieces);
    assert(list.take(end) =~= list.take(start) + piece);
    if pieces.len() == 0 {
        assert(list.take(end) =~= piece);
    }
}

/// There is one way to split a list at its commas.
pub proof fn law_split_is_unique(text: Seq<char>, a: Seq<Seq<char>>, b: Seq<Seq<char>>)
    requires
        is_split(text, a),
        is_split(text, b),
    ensures
        a == b,
    decreases a.len(),
{
    let front_a = joined(a.drop_last());
    let front_b = joined(b.drop_last());
    assert(!a[a.len() - 1].contains(','));
    assert(!b[b.len() - 1].contains(','));
    if a.len() == 1 && b.len() == 1 {
        assert(a =~= b);
    } else if a.len() == 1 {
        assert(text[front_b.len() as int] == ',');
        assert(a[0][front_b.len() as int] == ',');
    } else if b.len() == 1 {
        assert(text[front_a.len() as int] == ',');
        assert(b[0][front_a.len() as int] == ',');
    } else {
        let (m, n) = (front_a.len() as int, front_b.len() as int);
        assert(text == front_a.push(',') + a.last());
        assert(text == front_b.push(',') + b.last());
        assert(text[m] == ',');
        assert(text[n] == ',');
        if m < n {
            assert(text[n] == a.last()[n - m - 1]);
            assert(a.last().contains(text[n]));
        }
        if n < m {
            assert(text[m] == b.last()[m - n - 1]);
            assert(b.last().contains(text[m]));
        }
        assert(front_a =~= text.take(m));
        assert(front_b =~= text.take(n));
        assert(a.last() =~= text.skip(m + 1));
        assert(b.last() =~= text.skip(n + 1));
        assert forall|i: int| 0 <= i < a.drop_last().len() implies !(
        #[trigger] a.drop_last()[i]).contains(',') by {
            assert(a.drop_last()[i] == a[i]);
        }
        assert forall|i: int| 0 <= i < b.drop_last().len() implies !(
        #[trigger] b.drop_last()[i]).contains(',') by {
            assert(b.drop_last()[i] == b[i]);
        }
        law_split_is_unique(front_a, a.drop_last(), b.drop_last());
        assert(a =~= a.drop_last().push(a.last()));
        assert(b =~= b.drop_last().push(b.last()));
    }
}

proof fn lemma_filtered_push(filter: Filter, events: Seq<Event>, event: Event)
    ensures
        filtered(filter, events.push(event)) == if passes(filter, event) {
            filtered(filter, events).push(event)
        } else {
            filtered(filter, events)
        },
{
    reveal(Seq::filter);
    assert(events.push(event).drop_last() =~= events);
}

/// Filtering by time and by type is filtering by the one and then by the other: the
/// options may be given together.
pub proof fn law_filters_add_up(filter: Filter, time: Filter, types: Filter, events: Seq<Event>)
    requires
        time.from == filter.from,
        time.to == filter.to,
        time.msg_types@.len() == 0,
        types.from is None,
        types.to is None,
        types.msg_types@ == filter.msg_types@,
    ensures
        filtered(filter, events) == filtered(types, filtered(time, events)),
    decreases events.len(),
{
    reveal(Seq::filter);
    if events.len() > 0 {
        let before = events.drop_last();
        law_filters_add_up(filter, time, types, before);
        lemma_filtered_push(filter, before, events.last());
        lemma_filtered_push(time, before, events.last());
        lemma_filtered_push(types, filtered(time, before), events.last());
        assert(before.push(events.last()) =~= events);
    }
}

/// Filtering once more changes nothing.
pub proof fn law_filter_is_idempotent(filter: Filter, events: Seq<Event>)
    ensures
        filtered(filter, filtered(filter, events)) == filtered(filter, events),
    decreases events.len(),
{
    reveal(Seq::filter);
    if events.len() > 0 {
        let before = events.drop_last();
        law_filter_is_idempotent(filter, before);
        lemma_filtered_push(filter, before, events.last());
        lemma_filtered_push(filter, filtered(filter, before), events.last());
        assert(before.push(events.last()) =~= events);
    }
}

/// An archive is looked at whole where no filter is given.
pub proof fn law_no_filter_keeps_all(filter: Filter, events: Seq<Event>)
    requires
        filter.from is None,
        filter.to is None,
        filter.msg_types@.len() == 0,
    ensures
        filtered(filter, events) == events,
    decreases events.len(),
{
    reveal(Seq::filter);
    if events.len() > 0 {
        let before = events.drop_last();
        law_no_filter_keeps_all(filter, before);
        lemma_filtered_push(filter, before, events.last());
        assert(before.push(events.last()) =~= events);
    }
}

/// Without types, the events that are looked at are those whose time, as a whole
/// number, is neither before the first nor after the last one that is given.
pub proof fn law_times_are_compared_whole(a: u64, b: u64, no_types: Vec<String>, events: Seq<Event>)
    requires
        no_types@.len() == 0,
    ensures
        filtered(Filter { from: Some(a), to: Some(b), msg_types: no_types }, events)
            == events.filter(|e: Event| a as int <= e.timestamp as int <= b as int),
        filtered(Filter { from: Some(a), to: None, msg_types: no_types }, events) == events.filter(
            |e: Event| a as int <= e.timestamp as int,
        ),
        filtered(Filter { from: None, to: Some(b), msg_types: no_types }, events) == events.filter(
            |e: Event| e.timestamp as int <= b as int,
        ),
    decreases events.len(),
{
    reveal(Seq::filter);
    if events.len() > 0 {
        law_times_are_compared_whole(a, b, no_types, events.drop_last());
    }
}

/// With types, and without times, a message is looked at exactly if its type is one of
/// them, and nothing else is.
pub proof fn law_types_are_those_of_messages(
    types: Vec<String>,
    events: Seq<Event>,
    timestamp: u64,
    meta: Metadata,
    text: String,
    other: Event,
)
    requires
        types@.len() > 0,
    ensures
        ({
            let filter = Filter { from: None, to: None, msg_types: types };
            let message = message_event(timestamp, meta, text);
            let wanted = exists|i: int| 0 <= i < types@.len() && (#[trigger] types@[i])@ == meta.command@;
            &&& filtered(filter, Seq::empty()) == Seq::<Event>::empty()
            &&& wanted ==> filtered(filter, events.push(message)) == filtered(filter, events).push(
                message,
            )
            &&& !wanted ==> filtered(filter, events.push(message)) == filtered(filter, events)
            &&& !is_message_event(other) ==> filtered(filter, events.push(other)) == filtered(
                filter,
                events,
            )
        }),
{
    reveal(Seq::filter);
    let filter = Filter { from: None, to: None, msg_types: types };
    let message = message_event(timestamp, meta, text);
    law_messages_are_what_the_ebpf_extractor_saw(timestamp, meta, text, other);
    lemma_filtered_push(filter, events, message);
    lemma_filtered_push(filter, events, other);
    let wanted = exists|i: int| 0 <= i < types@.len() && (#[trigger] types@[i])@ == meta.command@;
    assert(wanted == texts(types@).contains(meta.command@)) by {
        if wanted {
            let i = choose|i: int|
                0 <= i < types@.len() && (#[trigger] types@[i])@ == meta.command@;
            assert(texts(types@)[i] == meta.command@);
        }
        if texts(types@).contains(meta.command@) {
            let i = choose|i: int| 0 <= i < texts(types@).len() && texts(types@)[i] == meta.command@;
            assert(types@[i]@ == meta.command@);
        }
    }
}

/// An event that is kept with a later first time is kept with an earlier one, and an
/// event that is kept with an earlier last time is kept with a later one.
pub proof fn law_wider_times_keep_more(narrow: Filter, wide: Filter, event: Event)
    requires
        passes(narrow, event),
        wide.msg_types == narrow.msg_types,
        wide.from matches Some(w) ==> (narrow.from matches Some(n) && w as int <= n as int),
        wide.to matches Some(w) ==> (narrow.to matches Some(n) && n as int <= w as int),
    ensures
        passes(wide, event),
{
}

/// Pieces are put together with one comma between them, and nothing else.
pub proof fn law_pieces_are_put_together(pieces: Seq<Seq<char>>, piece: Seq<char>)
    ensures
        joined(seq![piece]) == piece,
        pieces.len() > 0 ==> joined(pieces.push(piece)) == joined(pieces) + seq![','] + piece,
{
    assert(pieces.push(piece).drop_last() =~= pieces);
    if pieces.len() > 0 {
        assert(joined(pieces.push(piece)) =~= joined(pieces) + seq![','] + piece);
    }
}

/// The pieces of a list hold no comma, and put together they are the list.
pub proof fn law_pieces_hold_no_comma(text: Seq<char>, pieces: Seq<Seq<char>>, i: int, k: int)
    requires
        is_split(text, pieces),
        0 <= i < pieces.len(),
        0 <= k < pieces[i].len(),
    ensures
        pieces[i][k] != ',',
        joined(pieces) == text,
{
    assert(!pieces[i].contains(','));
}

} // verus!
