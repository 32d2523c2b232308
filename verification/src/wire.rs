//! The wire format: every event travels as one JSON object in one text
//! message.
//!
//! ```text
//! {"type":"heartbeat","timestamp":1700000000000}
//! {"type":"split","split_index":2,"split_name":"Boss","timestamp":1700000000000}
//! ```
//!
//! The object holds the discriminator `type` first and `timestamp` last, no
//! white space, numbers in decimal without leading zeros. [`frame`] says what
//! the text of an event is, [`encode`] writes it and [`decode`] reads it back.

use crate::event::{Event, EventKind, EventModel};
use crate::text::{
    characters, decimal, escape, expect, lemma_number_read, lemma_number_written,
    lemma_occurs_concat, lemma_occurs_index, lemma_text_read, lemma_text_written, number_at,
    occurs_at, parse_number, parse_text, push_decimal, push_escaped, text_at,
};
use vstd::prelude::*;

verus! {

/// The value of `type` for each kind of event.
pub open spec fn tag(kind: EventKind) -> Seq<char> {
    match kind {
        EventKind::Heartbeat => "heartbeat"@,
        EventKind::Started => "start"@,
        EventKind::Split => "split"@,
        EventKind::Reset => "reset"@,
        EventKind::Paused => "pause"@,
        EventKind::Resumed => "resume"@,
        EventKind::SplitUndone => "undo_split"@,
        EventKind::SplitSkipped => "skip_split"@,
    }
}

/// The fields between `type` and `timestamp`: the index and the name of the
/// split for a `Split`, nothing for the other kinds.
pub open spec fn payload(event: EventModel) -> Seq<char> {
    match event {
        EventModel::Split { index, name, .. } => ",\"split_index\":"@ + decimal(index as nat)
            + ",\"split_name\":\""@ + escape(name) + "\""@,
        _ => Seq::empty(),
    }
}

/// The text of an event on the wire.
pub open spec fn frame(event: EventModel) -> Seq<char> {
    "{\"type\":\""@ + tag(event.kind()) + "\""@ + payload(event) + ",\"timestamp\":"@ + decimal(
        event.timestamp() as nat,
    ) + "}"@
}

/// What reading `text` has to give: the event whose frame it is, or nothing
/// where it is the frame of no event.
pub open spec fn decodes_to(text: Seq<char>, event: Option<EventModel>) -> bool {
    match event {
        Some(e) => text == frame(e),
        None => forall|e: EventModel| text != #[trigger] frame(e),
    }
}

/// The value of `type` for a kind of event.
pub fn kind_tag(kind: EventKind) -> (name: &'static str)
    ensures
        name@ == tag(kind),
{
    match kind {
        EventKind::Heartbeat => "heartbeat",
        EventKind::Started => "start",
        EventKind::Split => "split",
        EventKind::Reset => "reset",
        EventKind::Paused => "pause",
        EventKind::Resumed => "resume",
        EventKind::SplitUndone => "undo_split",
        EventKind::SplitSkipped => "skip_split",
    }
}

/// Writes an event as the text of one message.
pub fn encode(event: &Event) -> (text: String)
    ensures
        text@ == frame(event@),
{
    let mut out = String::new();
    out.append("{\"type\":\"");
    out.append(kind_tag(event.kind()));
    out.append("\"");
    match event {
        Event::Split { index, name, .. } => {
            out.append(",\"split_index\":");
            push_decimal(&mut out, *index as u64);
            out.append(",\"split_name\":\"");
            push_escaped(&mut out, name.as_str());
            out.append("\"");
            assert(out@ =~= "{\"type\":\""@ + tag(event@.kind()) + "\""@ + payload(event@));
        },
        _ => {
            assert(out@ =~= "{\"type\":\""@ + tag(event@.kind()) + "\""@ + payload(event@));
        },
    }
    out.append(",\"timestamp\":");
    push_decimal(&mut out, event.timestamp());
    out.append("}");
    out
}


/// The event of a kind other than `Split` with the given timestamp.
spec fn plain(kind: EventKind, timestamp: u64) -> EventModel {
    match kind {
        EventKind::Started => EventModel::Started { timestamp },
        EventKind::Reset => EventModel::Reset { timestamp },
        EventKind::Paused => EventModel::Paused { timestamp },
        EventKind::Resumed => EventModel::Resumed { timestamp },
        EventKind::SplitUndone => EventModel::SplitUndone { timestamp },
        EventKind::SplitSkipped => EventModel::SplitSkipped { timestamp },
        _ => EventModel::Heartbeat { timestamp },
    }
}

fn plain_event(kind: EventKind, timestamp: u64) -> (event: Event)
    ensures
        event@ == plain(kind, timestamp),
{
    match kind {
        EventKind::Started => Event::Started { timestamp },
        EventKind::Reset => Event::Reset { timestamp },
        EventKind::Paused => Event::Paused { timestamp },
        EventKind::Resumed => Event::Resumed { timestamp },
        EventKind::SplitUndone => Event::SplitUndone { timestamp },
        EventKind::SplitSkipped => Event::SplitSkipped { timestamp },
        _ => Event::Heartbeat { timestamp },
    }
}

/// The tag of `kind` stands at `i`, closed by a quote.
spec fn tagged_at(s: Seq<char>, i: int, kind: EventKind) -> bool {
    occurs_at(s, i, tag(kind) + "\""@)
}

/// The kind whose tag stands at `i`.
spec fn kind_at(s: Seq<char>, i: int) -> Option<EventKind> {
    if tagged_at(s, i, EventKind::Heartbeat) {
        Some(EventKind::Heartbeat)
    } else if tagged_at(s, i, EventKind::Started) {
        Some(EventKind::Started)
    } else if tagged_at(s, i, EventKind::Split) {
        Some(EventKind::Split)
    } else if tagged_at(s, i, EventKind::Reset) {
        Some(EventKind::Reset)
    } else if tagged_at(s, i, EventKind::Paused) {
        Some(EventKind::Paused)
    } else if tagged_at(s, i, EventKind::Resumed) {
        Some(EventKind::Resumed)
    } else if tagged_at(s, i, EventKind::SplitUndone) {
        Some(EventKind::SplitUndone)
    } else if tagged_at(s, i, EventKind::SplitSkipped) {
        Some(EventKind::SplitSkipped)
    } else {
        None
    }
}

/// The timestamp that closes the object at `i`, where nothing follows the
/// object.
spec fn tail_at(s: Seq<char>, i: int) -> Option<u64> {
    let key = ",\"timestamp\":"@;
    if !occurs_at(s, i, key) {
        None
    } else {
        match number_at(s, i + key.len(), u64::MAX as nat) {
            None => None,
            Some((n, end)) => if occurs_at(s, end, "}"@) && end + "}"@.len() == s.len() {
                Some(n as u64)
            } else {
                None
            },
        }
    }
}

/// The `Split` whose fields stand at `i`.
spec fn split_at(s: Seq<char>, i: int) -> Option<EventModel> {
    let index_key = ",\"split_index\":"@;
    let name_key = ",\"split_name\":\""@;
    if !occurs_at(s, i, index_key) {
        None
    } else {
        match number_at(s, i + index_key.len(), u32::MAX as nat) {
            None => None,
            Some((index, after_index)) => if !occurs_at(s, after_index, name_key) {
                None
            } else {
                match text_at(s, after_index + name_key.len(), Seq::empty()) {
                    None => None,
                    Some((name, after_name)) => match tail_at(s, after_name) {
                        None => None,
                        Some(timestamp) => Some(
                            EventModel::Split { index: index as u32, name, timestamp },
                        ),
                    },
                }
            },
        }
    }
}

/// The event that `s` is read as.
spec fn scan(s: Seq<char>) -> Option<EventModel> {
    let head = "{\"type\":\""@;
    if !occurs_at(s, 0, head) {
        None
    } else {
        match kind_at(s, head.len() as int) {
            None => None,
            Some(kind) => {
                let i = (head.len() + tag(kind).len() + "\""@.len()) as int;
                if kind == EventKind::Split {
                    split_at(s, i)
                } else {
                    match tail_at(s, i) {
                        None => None,
                        Some(timestamp) => Some(plain(kind, timestamp)),
                    }
                }
            },
        }
    }
}

/// No two kinds share the first characters of their tags.
#[verifier::rlimit(40)]
proof fn lemma_kind_unique(s: Seq<char>, i: int, a: EventKind, b: EventKind)
    requires
        tagged_at(s, i, a),
        tagged_at(s, i, b),
    ensures
        a == b,
{
    reveal_strlit("heartbeat");
    reveal_strlit("start");
    reveal_strlit("split");
    reveal_strlit("reset");
    reveal_strlit("pause");
    reveal_strlit("resume");
    reveal_strlit("undo_split");
    reveal_strlit("skip_split");
    let ta = tag(a) + "\""@;
    let tb = tag(b) + "\""@;
    lemma_occurs_index(s, i, ta);
    lemma_occurs_index(s, i, tb);
    assert(s[i + 0] == ta[0] && s[i + 0] == tb[0]);
    assert(s[i + 1] == ta[1] && s[i + 1] == tb[1]);
    assert(s[i + 3] == ta[3] && s[i + 3] == tb[3]);
    assert(ta[0] == tag(a)[0] && ta[1] == tag(a)[1] && ta[3] == tag(a)[3]);
    assert(tb[0] == tag(b)[0] && tb[1] == tag(b)[1] && tb[3] == tag(b)[3]);
}

proof fn lemma_kind_written(s: Seq<char>, i: int, kind: EventKind)
    requires
        tagged_at(s, i, kind),
    ensures
        kind_at(s, i) == Some(kind),
{
    assert forall|other: EventKind| tagged_at(s, i, other) implies other == kind by {
        lemma_kind_unique(s, i, other, kind);
    }
}

/// `whole` fills `s` from its first character to its last.
spec fn fills(s: Seq<char>, whole: Seq<char>) -> bool {
    occurs_at(s, 0, whole) && whole.len() == s.len()
}

proof fn lemma_tail_written(s: Seq<char>, i: int, timestamp: u64)
    requires
        occurs_at(s, i, ",\"timestamp\":"@ + decimal(timestamp as nat) + "}"@),
        i + (",\"timestamp\":"@ + decimal(timestamp as nat) + "}"@).len() == s.len(),
    ensures
        tail_at(s, i) == Some(timestamp),
{
    let key = ",\"timestamp\":"@;
    let digits = decimal(timestamp as nat);
    let close = "}"@;
    reveal_strlit("}");
    lemma_occurs_concat(s, i, key + digits, close);
    lemma_occurs_concat(s, i, key, digits);
    lemma_occurs_index(s, i + key.len() + digits.len(), close);
    assert(s[i + key.len() + digits.len() + 0] == close[0]);
    lemma_number_written(s, i + key.len(), timestamp as nat, u64::MAX as nat);
}

proof fn lemma_tail_read(s: Seq<char>, i: int)
    requires
        0 <= i <= s.len(),
        tail_at(s, i) is Some,
    ensures
        ({
            let timestamp = tail_at(s, i)->0;
            let tail = ",\"timestamp\":"@ + decimal(timestamp as nat) + "}"@;
            occurs_at(s, i, tail) && i + tail.len() == s.len()
        }),
{
    let key = ",\"timestamp\":"@;
    let close = "}"@;
    lemma_number_read(s, i + key.len(), u64::MAX as nat);
    let (n, end) = number_at(s, i + key.len(), u64::MAX as nat)->0;
    lemma_occurs_concat(s, i, key, decimal(n));
    lemma_occurs_concat(s, i, key + decimal(n), close);
}

#[verifier::rlimit(40)]
proof fn lemma_split_written(s: Seq<char>, i: int, index: u32, name: Seq<char>, timestamp: u64)
    requires
        occurs_at(
            s,
            i,
            payload(EventModel::Split { index, name, timestamp }) + (",\"timestamp\":"@ + decimal(
                timestamp as nat,
            ) + "}"@),
        ),
        i + payload(EventModel::Split { index, name, timestamp }).len() + (",\"timestamp\":"@
            + decimal(timestamp as nat) + "}"@).len() == s.len(),
    ensures
        split_at(s, i) == Some(EventModel::Split { index, name, timestamp }),
{
    let index_key = ",\"split_index\":"@;
    let name_key = ",\"split_name\":\""@;
    let quote = "\""@;
    let digits = decimal(index as nat);
    let written = escape(name);
    let fields = payload(EventModel::Split { index, name, timestamp });
    let tail = ",\"timestamp\":"@ + decimal(timestamp as nat) + "}"@;
    reveal_strlit("\"");
    reveal_strlit(",\"split_name\":\"");
    lemma_occurs_concat(s, i, fields, tail);
    lemma_occurs_concat(s, i, index_key + digits + name_key + written, quote);
    lemma_occurs_concat(s, i, index_key + digits + name_key, written);
    lemma_occurs_concat(s, i, index_key + digits, name_key);
    lemma_occurs_concat(s, i, index_key, digits);
    let after_index = i + index_key.len() + digits.len();
    lemma_occurs_index(s, after_index, name_key);
    assert(s[after_index + 0] == name_key[0]);
    lemma_number_written(s, i + index_key.len(), index as nat, u32::MAX as nat);
    let at_name = after_index + name_key.len();
    assert(quote =~= seq!['"']);
    lemma_occurs_concat(s, at_name, written, seq!['"']);
    lemma_text_written(s, at_name, Seq::empty(), name);
    assert(Seq::<char>::empty() + name =~= name);
    lemma_tail_written(s, i + fields.len(), timestamp);
}

#[verifier::rlimit(40)]
proof fn lemma_split_read(s: Seq<char>, i: int)
    requires
        0 <= i <= s.len(),
        split_at(s, i) is Some,
    ensures
        ({
            let event = split_at(s, i)->0;
            let rest = payload(event) + (",\"timestamp\":"@ + decimal(event.timestamp() as nat)
                + "}"@);
            &&& event is Split
            &&& occurs_at(s, i, rest)
            &&& i + rest.len() == s.len()
        }),
{
    let index_key = ",\"split_index\":"@;
    let name_key = ",\"split_name\":\""@;
    let quote = "\""@;
    reveal_strlit("\"");
    lemma_number_read(s, i + index_key.len(), u32::MAX as nat);
    let (index, after_index) = number_at(s, i + index_key.len(), u32::MAX as nat)->0;
    let at_name = after_index + name_key.len();
    lemma_text_read(s, at_name, Seq::empty());
    let (name, after_name) = text_at(s, at_name, Seq::empty())->0;
    assert(name.skip(0) =~= name);
    lemma_tail_read(s, after_name);
    let event = split_at(s, i)->0;
    let tail = ",\"timestamp\":"@ + decimal(event.timestamp() as nat) + "}"@;
    let digits = decimal(index);
    let written = escape(name);
    assert(quote =~= seq!['"']);
    lemma_occurs_concat(s, at_name, written, seq!['"']);
    lemma_occurs_concat(s, i, index_key, digits);
    lemma_occurs_concat(s, i, index_key + digits, name_key);
    lemma_occurs_concat(s, i, index_key + digits + name_key, written);
    lemma_occurs_concat(s, i, index_key + digits + name_key + written, quote);
    lemma_occurs_concat(s, i, payload(event), tail);
}

/// The parts of a frame: the head, the tag in quotes, and what follows.
proof fn lemma_frame_parts(event: EventModel)
    ensures
        frame(event) == "{\"type\":\""@ + (tag(event.kind()) + "\""@) + (payload(event) + (
            ",\"timestamp\":"@ + decimal(event.timestamp() as nat) + "}"@)),
{
    let whole = "{\"type\":\""@ + (tag(event.kind()) + "\""@) + (payload(event) + (
        ",\"timestamp\":"@ + decimal(event.timestamp() as nat) + "}"@));
    assert(frame(event) =~= whole);
}

/// Where a text is made of the head, a tag in quotes and a rest, the head
/// and the tag are read, and the rest stands behind them.
#[verifier::rlimit(40)]
proof fn lemma_head_written(s: Seq<char>, kind: EventKind, rest: Seq<char>)
    requires
        s == "{\"type\":\""@ + (tag(kind) + "\""@) + rest,
    ensures
        occurs_at(s, 0, "{\"type\":\""@),
        kind_at(s, "{\"type\":\""@.len() as int) == Some(kind),
        occurs_at(s, ("{\"type\":\""@.len() + tag(kind).len() + "\""@.len()) as int, rest),
        "{\"type\":\""@.len() + tag(kind).len() + "\""@.len() + rest.len() == s.len(),
{
    let head = "{\"type\":\""@;
    let name = tag(kind) + "\""@;
    assert(s.subrange(0, s.len() as int) =~= s);
    lemma_occurs_concat(s, 0, head + name, rest);
    lemma_occurs_concat(s, 0, head, name);
    lemma_kind_written(s, head.len() as int, kind);
}

/// Reading the frame of a `Split` gives it back.
#[verifier::rlimit(40)]
proof fn lemma_scan_written_split(index: u32, name: Seq<char>, timestamp: u64)
    ensures
        scan(frame(EventModel::Split { index, name, timestamp })) == Some(
            EventModel::Split { index, name, timestamp },
        ),
{
    let event = EventModel::Split { index, name, timestamp };
    let s = frame(event);
    let head = "{\"type\":\""@;
    let tail = ",\"timestamp\":"@ + decimal(timestamp as nat) + "}"@;
    let rest = payload(event) + tail;
    lemma_frame_parts(event);
    lemma_head_written(s, EventKind::Split, rest);
    let i = (head.len() + tag(EventKind::Split).len() + "\""@.len()) as int;
    lemma_split_written(s, i, index, name, timestamp);
    assert(kind_at(s, head.len() as int) == Some(EventKind::Split));
    assert(scan(s) == split_at(s, i));
}

/// Reading the frame of an event of another kind gives it back.
#[verifier::rlimit(40)]
proof fn lemma_scan_written_plain(kind: EventKind, timestamp: u64)
    requires
        kind != EventKind::Split,
    ensures
        scan(frame(plain(kind, timestamp))) == Some(
            plain(kind, timestamp),
        ),
{
    let event = plain(kind, timestamp);
    let s = frame(event);
    let head = "{\"type\":\""@;
    let tail = ",\"timestamp\":"@ + decimal(timestamp as nat) + "}"@;
    let rest = payload(event) + tail;
    assert(event.kind() == kind);
    assert(event.timestamp() == timestamp);
    assert(payload(event) =~= Seq::<char>::empty());
    assert(rest =~= tail);
    lemma_frame_parts(event);
    lemma_head_written(s, kind, rest);
    let i = (head.len() + tag(kind).len() + "\""@.len()) as int;
    lemma_tail_written(s, i, timestamp);
    assert(kind_at(s, head.len() as int) == Some(kind));
    assert(tail_at(s, i) == Some(timestamp));
    assert(scan(s) == Some(plain(kind, timestamp)));
}

/// Reading the frame of an event gives the event.
proof fn lemma_scan_written(event: EventModel)
    ensures
        scan(frame(event)) == Some(event),
{
    match event {
        EventModel::Split { index, name, timestamp } => {
            lemma_scan_written_split(index, name, timestamp);
        },
        _ => {
            assert(event == plain(event.kind(), event.timestamp()));
            lemma_scan_written_plain(event.kind(), event.timestamp());
        },
    }
}

/// What is read as an event is the frame of that event.
#[verifier::rlimit(40)]
proof fn lemma_scan_read(s: Seq<char>)
    requires
        scan(s) is Some,
    ensures
        s == frame(scan(s)->0),
{
    let event = scan(s)->0;
    let head = "{\"type\":\""@;
    let kind = kind_at(s, head.len() as int)->0;
    let name = tag(kind);
    let quote = "\""@;
    assert(tagged_at(s, head.len() as int, kind));
    let i = (head.len() + name.len() + quote.len()) as int;
    let fields = payload(event);
    let tail = ",\"timestamp\":"@ + decimal(event.timestamp() as nat) + "}"@;
    if kind == EventKind::Split {
        lemma_split_read(s, i);
    } else {
        lemma_tail_read(s, i);
        assert(fields + tail =~= tail);
    }
    assert(event.kind() == kind);
    lemma_occurs_concat(s, 0, head, name + quote);
    lemma_occurs_concat(s, 0, head + (name + quote), fields + tail);
    let whole = head + (name + quote) + (fields + tail);
    assert(frame(event) =~= whole);
    assert(s.subrange(0, s.len() as int) =~= s);
}

/// Two events with the same frame are the same event.
pub proof fn lemma_frame_injective(a: EventModel, b: EventModel)
    requires
        frame(a) == frame(b),
    ensures
        a == b,
{
    lemma_scan_written(a);
    lemma_scan_written(b);
}

/// Writing an event and reading the text back gives the event, field for
/// field: whatever reads the frame of `event` as [`decode`] does, gets
/// `event`.
pub proof fn lemma_round_trip(event: EventModel, read: Option<EventModel>)
    requires
        decodes_to(frame(event), read),
    ensures
        read == Some(event),
{
    match read {
        Some(other) => {
            lemma_frame_injective(event, other);
        },
        None => {
            assert(frame(event) != frame(event));
        },
    }
}


fn try_kind(s: &Vec<char>, i: usize, kind: EventKind) -> (end: Option<usize>)
    requires
        i <= s.len(),
    ensures
        match end {
            Some(j) => tagged_at(s@, i as int, kind) && j == i + tag(kind).len() + "\""@.len(),
            None => !tagged_at(s@, i as int, kind),
        },
{
    proof {
        lemma_occurs_concat(s@, i as int, tag(kind), "\""@);
    }
    match expect(s, i, kind_tag(kind)) {
        Some(j) => expect(s, j, "\""),
        None => None,
    }
}

fn parse_kind(s: &Vec<char>, i: usize) -> (found: Option<(EventKind, usize)>)
    requires
        i <= s.len(),
    ensures
        match found {
            Some((kind, end)) => {
                &&& kind_at(s@, i as int) == Some(kind)
                &&& end == i + tag(kind).len() + "\""@.len()
                &&& end <= s.len()
            },
            None => kind_at(s@, i as int) is None,
        },
{
    if let Some(end) = try_kind(s, i, EventKind::Heartbeat) {
        Some((EventKind::Heartbeat, end))
    } else if let Some(end) = try_kind(s, i, EventKind::Started) {
        Some((EventKind::Started, end))
    } else if let Some(end) = try_kind(s, i, EventKind::Split) {
        Some((EventKind::Split, end))
    } else if let Some(end) = try_kind(s, i, EventKind::Reset) {
        Some((EventKind::Reset, end))
    } else if let Some(end) = try_kind(s, i, EventKind::Paused) {
        Some((EventKind::Paused, end))
    } else if let Some(end) = try_kind(s, i, EventKind::Resumed) {
        Some((EventKind::Resumed, end))
    } else if let Some(end) = try_kind(s, i, EventKind::SplitUndone) {
        Some((EventKind::SplitUndone, end))
    } else if let Some(end) = try_kind(s, i, EventKind::SplitSkipped) {
        Some((EventKind::SplitSkipped, end))
    } else {
        None
    }
}

fn parse_tail(s: &Vec<char>, i: usize) -> (timestamp: Option<u64>)
    requires
        i <= s.len(),
    ensures
        timestamp == tail_at(s@, i as int),
{
    let at_number = match expect(s, i, ",\"timestamp\":") {
        Some(j) => j,
        None => {
            return None;
        },
    };
    let (timestamp, end) = match parse_number(s, at_number, u64::MAX) {
        Some(found) => found,
        None => {
            return None;
        },
    };
    match expect(s, end, "}") {
        Some(after) => if after == s.len() {
            Some(timestamp)
        } else {
            None
        },
        None => None,
    }
}

fn parse_split(s: &Vec<char>, i: usize) -> (event: Option<Event>)
    requires
        i <= s.len(),
    ensures
        match event {
            Some(e) => split_at(s@, i as int) == Some(e@),
            None => split_at(s@, i as int) is None,
        },
{
    let at_index = match expect(s, i, ",\"split_index\":") {
        Some(j) => j,
        None => {
            return None;
        },
    };
    let (index, after_index) = match parse_number(s, at_index, u32::MAX as u64) {
        Some(found) => found,
        None => {
            return None;
        },
    };
    let at_name = match expect(s, after_index, ",\"split_name\":\"") {
        Some(j) => j,
        None => {
            return None;
        },
    };
    let (name, after_name) = match parse_text(s, at_name) {
        Some(found) => found,
        None => {
            return None;
        },
    };
    match parse_tail(s, after_name) {
        Some(timestamp) => Some(Event::Split { index: index as u32, name, timestamp }),
        None => None,
    }
}

fn parse_frame(s: &Vec<char>) -> (event: Option<Event>)
    ensures
        match event {
            Some(e) => scan(s@) == Some(e@),
            None => scan(s@) is None,
        },
{
    let at_kind = match expect(s, 0, "{\"type\":\"") {
        Some(j) => j,
        None => {
            return None;
        },
    };
    let (kind, after_kind) = match parse_kind(s, at_kind) {
        Some(found) => found,
        None => {
            return None;
        },
    };
    match kind {
        EventKind::Split => parse_split(s, after_kind),
        _ => match parse_tail(s, after_kind) {
            Some(timestamp) => Some(plain_event(kind, timestamp)),
            None => None,
        },
    }
}

/// Reads the text of one message back into the event that it is the frame
/// of. A text that is the frame of no event is refused.
pub fn decode(text: &str) -> (event: Option<Event>)
    ensures
        decodes_to(
            text@,
            match event {
                Some(e) => Some(e@),
                None => None,
            },
        ),
{
    let chars = characters(text);
    let event = parse_frame(&chars);
    proof {
        if event is Some {
            lemma_scan_read(text@);
        } else {
            assert forall|e: EventModel| text@ != #[trigger] frame(e) by {
                lemma_scan_written(e);
            }
        }
    }
    event
}

} // verus!
