//! Server-sent events: the ones that are sent, and the ones that are read out of a byte stream.

use crate::text;
use vstd::prelude::*;

verus! {

/// What an event holds.
pub struct EventView {
    pub name: Option<Seq<char>>,
    pub data: Seq<char>,
}

/// An event to send: its data, and its name if it has one.
#[derive(Debug)]
pub struct SseEvent {
    pub name: Option<String>,
    pub data: String,
}

impl View for SseEvent {
    type V = EventView;

    open spec fn view(&self) -> EventView {
        EventView {
            name: match self.name {
                Some(n) => Some(n@),
                None => None,
            },
            data: self.data@,
        }
    }
}

/// The event with this name and data.
pub open spec fn named(name: Seq<char>, data: Seq<char>) -> EventView {
    EventView { name: Some(name), data }
}

/// The event that ends a stream of named events.
pub open spec fn done_event() -> EventView {
    named("done"@, "[DONE]"@)
}

/// What each event of a list holds.
pub open spec fn event_views(v: Seq<SseEvent>) -> Seq<EventView> {
    Seq::new(v.len(), |i: int| v[i]@)
}

/// Adding an event to a list adds its view.
pub proof fn lemma_event_views_push(v: Seq<SseEvent>, e: SseEvent)
    ensures
        event_views(v.push(e)) == event_views(v).push(e@),
{
    assert(event_views(v.push(e)) =~= event_views(v).push(e@));
}

impl SseEvent {
    /// An event with a name.
    pub fn new(name: &str, data: String) -> (r: Self)
        ensures
            r@ == named(name@, data@),
    {
        SseEvent { name: Some(name.to_string()), data }
    }

    /// An event without a name.
    pub fn unnamed(data: String) -> (r: Self)
        ensures
            r@ == (EventView { name: None, data: data@ }),
    {
        SseEvent { name: None, data }
    }

    /// The event that ends a stream of named events.
    pub fn done() -> (r: Self)
        ensures
            r@ == done_event(),
    {
        SseEvent::new("done", "[DONE]".to_string())
    }
}

// ------------------------------------------------------------------ reading

/// What ends a frame.
pub open spec fn frame_end() -> Seq<char> {
    seq!['\n', '\n']
}

/// The data that a line of a frame carries.
pub open spec fn line_data(line: Seq<char>) -> Seq<char> {
    if text::starts_with(line, "data:"@) {
        text::trim_start(line.skip("data:"@.len() as int))
    } else {
        seq![]
    }
}

/// The data that each line carries.
pub open spec fn lines_data(lines: Seq<Seq<char>>) -> Seq<Seq<char>> {
    lines.map_values(|line: Seq<char>| line_data(line))
}

/// The data that a frame carries: what its data lines hold, joined.
pub open spec fn frame_data(frame: Seq<char>) -> Seq<char> {
    text::concat(lines_data(text::lines(frame)))
}

/// The data of the frames that stand whole in `buffer`. Frames without data are passed over.
pub open spec fn complete_data(buffer: Seq<char>) -> Seq<Seq<char>>
    decreases buffer.len(),
{
    match text::find(buffer, frame_end()) {
        Some(p) => {
            proof {
                text::lemma_find(buffer, frame_end());
            }
            let data = frame_data(buffer.take(p as int));
            let more = complete_data(buffer.skip(p as int + 2));
            if data.len() == 0 {
                more
            } else {
                seq![data] + more
            }
        },
        None => seq![],
    }
}

/// What is left of `buffer` behind the last frame that stands whole in it.
pub open spec fn remainder(buffer: Seq<char>) -> Seq<char>
    decreases buffer.len(),
{
    match text::find(buffer, frame_end()) {
        Some(p) => {
            proof {
                text::lemma_find(buffer, frame_end());
            }
            remainder(buffer.skip(p as int + 2))
        },
        None => buffer,
    }
}

/// The data that a frame carries.
fn data_of_frame(frame: &Vec<char>) -> (r: String)
    ensures
        r@ == frame_data(frame@),
{
    let lines = text::lines_of(frame);
    let ghost all = lines_data(text::lines(frame@));
    let mut data = String::new();
    let mut i: usize = 0;
    assert(all.take(0) =~= seq![]);
    while i < lines.len()
        invariant
            i <= lines@.len(),
            text::texts(lines@) == text::lines(frame@),
            all == lines_data(text::lines(frame@)),
            data@ == text::concat(all.take(i as int)),
        decreases lines@.len() - i,
    {
        let ghost before = data@;
        assert(text::lines(frame@)[i as int] == lines@[i as int]@);
        assert(all[i as int] == line_data(lines@[i as int]@));
        match text::after_prefix(lines[i].as_str(), "data:") {
            Some(value) => {
                let trimmed = text::trimmed_start(value.as_str());
                data.append(trimmed.as_str());
            },
            None => {
                assert(before + all[i as int] =~= before);
            },
        }
        assert(all.take(i + 1).drop_last() =~= all.take(i as int));
        i = i + 1;
    }
    assert(all.take(all.len() as int) =~= all);
    data
}

/// Takes the frames that stand whole in `buffer` out of it and gives their data, in order. Frames
/// without data are passed over.
pub fn drain_sse_data(buffer: &mut String) -> (r: Vec<String>)
    ensures
        text::texts(r@) == complete_data(old(buffer)@),
        final(buffer)@ == remainder(old(buffer)@),
{
    let chars = text::to_chars(buffer.as_str());
    let ghost whole = buffer@;
    let mut end: Vec<char> = Vec::new();
    end.push('\n');
    end.push('\n');
    assert(end@ =~= frame_end());
    let mut events: Vec<String> = Vec::new();
    let mut start: usize = 0;
    assert(chars@.skip(0) =~= whole);
    assert(text::texts(events@) + complete_data(whole) =~= complete_data(whole));
    let mut next: Option<usize> = text::find_from(&chars, 0, &end);
    while next.is_some()
        invariant
            start <= chars.len(),
            chars@ == whole,
            end@ == frame_end(),
            match next {
                Some(pos) => start <= pos && text::find(chars@.skip(start as int), frame_end())
                    == Some((pos - start) as nat),
                None => text::find(chars@.skip(start as int), frame_end()) is None,
            },
            text::texts(events@) + complete_data(chars@.skip(start as int)) == complete_data(whole),
            remainder(chars@.skip(start as int)) == remainder(whole),
        decreases chars@.len() - start,
    {
        let pos: usize = next.unwrap();
        let ghost rest = chars@.skip(start as int);
        proof {
            text::lemma_find(rest, frame_end());
        }
        let frame = text::sub_chars(&chars, start, pos);
        let data = data_of_frame(&frame);
        proof {
            assert(frame@ =~= rest.take(pos - start));
            assert(rest.skip(pos - start + 2) =~= chars@.skip(pos + 2));
            let more = complete_data(chars@.skip(pos + 2));
            text::lemma_texts_push(events@, data);
            assert(text::texts(events@) + (seq![data@] + more) =~= text::texts(events@.push(data))
                + more);
        }
        if !data.as_str().is_empty() {
            events.push(data);
        }
        start = pos + 2;
        next = text::find_from(&chars, start, &end);
    }
    *buffer = text::from_chars(&chars, start, chars.len());
    assert(buffer@ =~= chars@.skip(start as int));
    assert(text::texts(events@) + complete_data(chars@.skip(start as int)) =~= text::texts(
        events@,
    ));
    events
}

// --------------------------------------------------------------------- laws

/// A pattern found in a text is found at the same place when more text follows.
proof fn lemma_find_in_longer(a: Seq<char>, b: Seq<char>, pattern: Seq<char>)
    requires
        text::find(a, pattern) is Some,
    ensures
        text::find(a + b, pattern) == text::find(a, pattern),
    decreases a.len(),
{
    if text::starts_with(a, pattern) {
        assert((a + b).take(pattern.len() as int) =~= a.take(pattern.len() as int));
    } else {
        let t = a.drop_first();
        lemma_find_in_longer(t, b, pattern);
        assert((a + b).drop_first() =~= t + b);
        text::lemma_find(a, pattern);
        assert((a + b).take(pattern.len() as int) =~= a.take(pattern.len() as int));
    }
}

/// How a stream is cut into pieces does not matter: draining after each piece gives the data that
/// draining the whole gives, and leaves the same remainder.
pub proof fn law_draining_is_incremental(a: Seq<char>, b: Seq<char>)
    ensures
        complete_data(a + b) == complete_data(a) + complete_data(remainder(a) + b),
        remainder(a + b) == remainder(remainder(a) + b),
    decreases a.len(),
{
    match text::find(a, frame_end()) {
        Some(p) => {
            text::lemma_find(a, frame_end());
            lemma_find_in_longer(a, b, frame_end());
            let t = a.skip(p as int + 2);
            assert((a + b).take(p as int) =~= a.take(p as int));
            assert((a + b).skip(p as int + 2) =~= t + b);
            law_draining_is_incremental(t, b);
            assert(complete_data(a + b) =~= complete_data(a) + complete_data(remainder(a) + b));
        },
        None => {
            assert(complete_data(a) + complete_data(a + b) =~= complete_data(a + b));
        },
    }
}

/// After draining, no whole frame is left, so draining again gives nothing and changes nothing.
pub proof fn law_drained_buffer_has_no_frame(buffer: Seq<char>)
    ensures
        !text::contains(remainder(buffer), frame_end()),
        complete_data(remainder(buffer)) == Seq::<Seq<char>>::empty(),
        remainder(remainder(buffer)) == remainder(buffer),
    decreases buffer.len(),
{
    text::lemma_find(buffer, frame_end());
    if let Some(p) = text::find(buffer, frame_end()) {
        law_drained_buffer_has_no_frame(buffer.skip(p as int + 2));
    }
}

/// Every piece of data that comes out is non-empty.
pub proof fn law_data_is_not_empty(buffer: Seq<char>)
    ensures
        forall|i: int|
            0 <= i < complete_data(buffer).len() ==> (#[trigger] complete_data(buffer)[i]).len()
                > 0,
    decreases buffer.len(),
{
    text::lemma_find(buffer, frame_end());
    if let Some(p) = text::find(buffer, frame_end()) {
        let more = complete_data(buffer.skip(p as int + 2));
        law_data_is_not_empty(buffer.skip(p as int + 2));
        assert forall|i: int| 0 <= i < complete_data(buffer).len() implies (
        #[trigger] complete_data(buffer)[i]).len() > 0 by {
            let data = frame_data(buffer.take(p as int));
            if data.len() > 0 && i > 0 {
                assert(complete_data(buffer)[i] == more[i - 1]);
            } else if data.len() == 0 {
                assert(complete_data(buffer)[i] == more[i]);
            }
        }
    }
}

/// An event with a name and one line of data, as it is written.
pub open spec fn frame(name: Seq<char>, data: Seq<char>) -> Seq<char> {
    "event: "@ + name + "\ndata: "@ + data + frame_end()
}

/// Events with one name and one line of data each, as they are written one after the other.
pub open spec fn frames(name: Seq<char>, data: Seq<Seq<char>>) -> Seq<char>
    decreases data.len(),
{
    if data.len() == 0 {
        seq![]
    } else {
        frame(name, data[0]) + frames(name, data.drop_first())
    }
}

/// Whether data is read back as it was written: one line, not empty, and nothing that reading
/// trims away in front.
pub open spec fn is_plain_data(data: Seq<char>) -> bool {
    data.len() > 0 && !data.contains('\n') && !text::is_space(data[0])
}

/// A text has the lines that it is made of.
proof fn lemma_two_lines(first: Seq<char>, second: Seq<char>)
    requires
        !first.contains('\n'),
        !second.contains('\n'),
        second.len() > 0,
    ensures
        text::lines(first.push('\n') + second) == seq![text::strip_return(first), second],
{
    let s = first.push('\n') + second;
    let n = first.len() as int;
    text::lemma_position(s, '\n');
    text::lemma_position(second, '\n');
    assert(s[n] == '\n');
    assert forall|i: int| 0 <= i < n implies s[i] != '\n' by {
        assert(first.contains(first[i]));
    }
    assert(text::position(s, '\n') == n);
    assert(s.take(n) =~= first);
    assert(s.skip(n + 1) =~= second);
    assert(text::lines(second) =~= seq![second]);
    assert(text::lines(s) =~= seq![text::strip_return(first), second]);
}

/// Where a frame ends, two line feeds stand.
proof fn lemma_frame_end_at(s: Seq<char>, k: int)
    requires
        0 <= k <= s.len(),
    ensures
        text::starts_with(s.skip(k), frame_end()) <==> k + 2 <= s.len() && s[k] == '\n' && s[k + 1]
            == '\n',
{
    let t = s.skip(k);
    if k + 2 <= s.len() {
        assert(t.take(2)[0] == s[k]);
        assert(t.take(2)[1] == s[k + 1]);
        if s[k] == '\n' && s[k + 1] == '\n' {
            assert(t.take(2) =~= frame_end());
        }
    }
}

/// A frame of two lines ends behind them.
proof fn lemma_frame_ends(first: Seq<char>, second: Seq<char>, rest: Seq<char>)
    requires
        !first.contains('\n'),
        !second.contains('\n'),
        second.len() > 0,
    ensures
        text::find(first.push('\n') + second + frame_end() + rest, frame_end()) == Some(
            first.len() + 1 + second.len(),
        ),
{
    let s = first.push('\n') + second + frame_end() + rest;
    let m = first.len() as int;
    let n = m + 1 + second.len();
    assert forall|k: int| 0 <= k < n implies !text::starts_with(
        #[trigger] s.skip(k),
        frame_end(),
    ) by {
        lemma_frame_end_at(s, k);
        if k < m {
            assert(s[k] == first[k]);
            assert(first.contains(first[k]));
        } else if k > m {
            assert(s[k] == second[k - m - 1]);
            assert(second.contains(second[k - m - 1]));
        } else {
            assert(s[k + 1] == second[0]);
            assert(second.contains(second[0]));
        }
    }
    lemma_frame_end_at(s, n);
    text::lemma_find_at(s, frame_end(), n);
}

/// The line that names an event carries no data.
proof fn lemma_name_line(name: Seq<char>)
    requires
        !name.contains('\n'),
    ensures
        !("event: "@ + name).contains('\n'),
        line_data(text::strip_return("event: "@ + name)) == Seq::<char>::empty(),
{
    reveal_strlit("event: ");
    reveal_strlit("data:");
    let line = "event: "@ + name;
    if line.contains('\n') {
        let i = choose|i: int| 0 <= i < line.len() && line[i] == '\n';
        assert(name.contains(name[i - 7]));
    }
    let stripped = text::strip_return(line);
    if text::starts_with(stripped, "data:"@) {
        assert(stripped.take(5)[0] == 'd');
        assert(stripped[0] == 'e');
    }
}

/// The line that carries data carries it whole.
proof fn lemma_data_line(data: Seq<char>)
    requires
        is_plain_data(data),
    ensures
        !("data: "@ + data).contains('\n'),
        line_data("data: "@ + data) == data,
{
    reveal_strlit("data: ");
    reveal_strlit("data:");
    let line = "data: "@ + data;
    if line.contains('\n') {
        let i = choose|i: int| 0 <= i < line.len() && line[i] == '\n';
        assert(data.contains(data[i - 6]));
    }
    let value = line.skip(5);
    assert(line.take(5) =~= "data:"@);
    assert(value.drop_first() =~= data);
    assert(value[0] == ' ');
    assert(text::trim_start(value) == text::trim_start(data));
}

/// The first frame of a text that begins with one is read back.
proof fn lemma_frame_reads_back(name: Seq<char>, data: Seq<char>, rest: Seq<char>)
    requires
        !name.contains('\n'),
        is_plain_data(data),
    ensures
        complete_data(frame(name, data) + rest) == seq![data] + complete_data(rest),
        remainder(frame(name, data) + rest) == remainder(rest),
{
    let first = "event: "@ + name;
    let second = "data: "@ + data;
    let head = first.push('\n') + second;
    let s = frame(name, data) + rest;
    let n = head.len() as int;
    assert(s =~= head + frame_end() + rest) by {
        reveal_strlit("\ndata: ");
        reveal_strlit("data: ");
        assert("\ndata: "@ =~= seq!['\n'] + "data: "@);
    }
    lemma_name_line(name);
    lemma_data_line(data);
    lemma_frame_ends(first, second, rest);
    lemma_two_lines(first, second);
    assert(s.take(n) =~= head);
    assert(s.skip(n + 2) =~= rest);
    let pieces = lines_data(text::lines(head));
    let none = Seq::<char>::empty();
    assert(pieces =~= seq![none] + seq![data]);
    text::lemma_concat_add(seq![none], seq![data]);
    text::lemma_concat_one(none);
    text::lemma_concat_one(data);
    assert(none + data =~= data);
}

/// What is written as events, one line of data each, is read back: all of it, in order, and nothing
/// is left over.
pub proof fn law_written_events_are_read_back(name: Seq<char>, data: Seq<Seq<char>>)
    requires
        !name.contains('\n'),
        forall|i: int| 0 <= i < data.len() ==> is_plain_data(#[trigger] data[i]),
    ensures
        complete_data(frames(name, data)) == data,
        remainder(frames(name, data)) == Seq::<char>::empty(),
    decreases data.len(),
{
    if data.len() == 0 {
        text::lemma_find(frames(name, data), frame_end());
        assert(complete_data(frames(name, data)) =~= data);
    } else {
        let rest = data.drop_first();
        assert forall|i: int| 0 <= i < rest.len() implies is_plain_data(#[trigger] rest[i]) by {
            assert(rest[i] == data[i + 1]);
        }
        law_written_events_are_read_back(name, rest);
        lemma_frame_reads_back(name, data[0], frames(name, rest));
        assert(seq![data[0]] + rest =~= data);
    }
}

/// An event holds its name and its data as they were given, and a list of events one after the
/// other.
pub proof fn law_events_hold_what_they_are_given(
    name: Seq<char>,
    data: Seq<char>,
    event: SseEvent,
    events: Seq<SseEvent>,
    i: int,
)
    requires
        0 <= i < events.len(),
    ensures
        named(name, data).name == Some(name),
        named(name, data).data == data,
        done_event().name == Some("done"@),
        done_event().data == "[DONE]"@,
        event@.data == event.data@,
        event.name is None <==> event@.name is None,
        event.name matches Some(n) ==> event@.name == Some(n@),
        event_views(events).len() == events.len(),
        event_views(events)[i] == events[i]@,
{
}

/// A blank line ends a frame. What stands before it is read as one frame, and what stands behind it
/// by itself.
pub proof fn law_frame_by_frame(frame: Seq<char>, rest: Seq<char>)
    requires
        forall|i: int|
            0 <= i < frame.len() && #[trigger] frame[i] == '\n' ==> i + 1 < frame.len() && frame[i
                + 1] != '\n',
    ensures
        complete_data(frame + seq!['\n', '\n'] + rest) == (if frame_data(frame).len() > 0 {
            seq![frame_data(frame)]
        } else {
            seq![]
        }) + complete_data(rest),
        remainder(frame + seq!['\n', '\n'] + rest) == remainder(rest),
{
    let s = frame + seq!['\n', '\n'] + rest;
    let n = frame.len() as int;
    assert forall|k: int| 0 <= k < n implies !text::starts_with(
        #[trigger] s.skip(k),
        frame_end(),
    ) by {
        lemma_frame_end_at(s, k);
        assert(s[k] == frame[k]);
        if frame[k] == '\n' {
            assert(s[k + 1] == frame[k + 1]);
        }
    }
    lemma_frame_end_at(s, n);
    text::lemma_find_at(s, frame_end(), n);
    assert(s.take(n) =~= frame);
    assert(s.skip(n + 2) =~= rest);
    assert(Seq::<Seq<char>>::empty() + complete_data(rest) =~= complete_data(rest));
}

/// Without a blank line nothing is read yet, and everything is left.
pub proof fn law_unfinished_frame_waits(buffer: Seq<char>)
    requires
        forall|i: int|
            0 <= i < buffer.len() - 1 && #[trigger] buffer[i] == '\n' ==> buffer[i + 1] != '\n',
    ensures
        complete_data(buffer) == Seq::<Seq<char>>::empty(),
        remainder(buffer) == buffer,
{
    text::lemma_find(buffer, frame_end());
    if text::contains(buffer, frame_end()) {
        let k = choose|k: int|
            0 <= k <= buffer.len() && #[trigger] text::starts_with(buffer.skip(k), frame_end());
        lemma_frame_end_at(buffer, k);
        assert(buffer[k] == '\n');
    }
}

/// A frame carries what its lines carry, one after the other: every line counts.
pub proof fn law_every_line_counts(line: Seq<char>, rest: Seq<char>)
    requires
        forall|i: int| 0 <= i < line.len() ==> #[trigger] line[i] != '\n',
    ensures
        frame_data(seq![]) == Seq::<char>::empty(),
        (line.len() == 0 || line.last() != '\r') ==> frame_data(line.push('\n') + rest)
            == frame_data(line) + frame_data(rest),
        frame_data(line.push('\r').push('\n') + rest) == frame_data(line) + frame_data(rest),
{
    text::law_lines(line, rest);
    let none = Seq::<Seq<char>>::empty();
    assert(lines_data(none) =~= none);
    let one = seq![line];
    let more = text::lines(rest);
    assert(lines_data(one + more) =~= lines_data(one) + lines_data(more));
    text::lemma_concat_add(lines_data(one), lines_data(more));
    assert(lines_data(one) =~= seq![line_data(line)]);
    text::lemma_concat_one(line_data(line));
    if line.len() == 0 {
        reveal_strlit("data:");
        assert(line_data(line) =~= seq![]);
        assert(line =~= seq![]);
        assert(frame_data(line) =~= seq![]);
    }
}

/// A data line carries what stands behind `data:` and the whitespace there, whole; every other line
/// carries nothing.
pub proof fn law_data_lines_carry_their_value(
    space: Seq<char>,
    value: Seq<char>,
    other: Seq<char>,
)
    requires
        forall|i: int|
            0 <= i < space.len() ==> text::is_space(#[trigger] space[i]) && space[i] != '\n',
        forall|i: int| 0 <= i < value.len() ==> #[trigger] value[i] != '\n',
        value.len() > 0 ==> !text::is_space(value[0]),
        forall|i: int| 0 <= i < other.len() ==> #[trigger] other[i] != '\n',
        other.len() < 5 || other.take(5) != seq!['d', 'a', 't', 'a', ':'],
    ensures
        frame_data(seq!['d', 'a', 't', 'a', ':'] + (space + value)) == value,
        frame_data(other) == Seq::<char>::empty(),
{
    reveal_strlit("data:");
    let mark = seq!['d', 'a', 't', 'a', ':'];
    assert("data:"@ =~= mark);
    let line = mark + (space + value);
    assert forall|i: int| 0 <= i < line.len() implies #[trigger] line[i] != '\n' by {
        if i < 5 {
            assert(line[i] == mark[i]);
        } else if i < 5 + space.len() {
            assert(line[i] == space[i - 5]);
        } else {
            assert(line[i] == value[i - 5 - space.len()]);
        }
    }
    lemma_frame_of_one_line(line);
    assert(line.take(5) =~= mark);
    assert(line.skip(5) =~= space + value);
    text::law_trim_start(space, value);
    lemma_frame_of_one_line(other);
}

/// A frame of one line carries what the line carries.
proof fn lemma_frame_of_one_line(line: Seq<char>)
    requires
        forall|i: int| 0 <= i < line.len() ==> #[trigger] line[i] != '\n',
    ensures
        frame_data(line) == line_data(line),
{
    text::law_lines(line, seq![]);
    if line.len() == 0 {
        reveal_strlit("data:");
        assert(line =~= seq![]);
        assert(lines_data(text::lines(line)) =~= seq![]);
        assert(line_data(line) =~= seq![]);
    } else {
        assert(lines_data(seq![line]) =~= seq![line_data(line)]);
        text::lemma_concat_one(line_data(line));
    }
}

/// Data lines as they are written, one for each piece.
pub open spec fn data_lines(data: Seq<Seq<char>>) -> Seq<char>
    decreases data.len(),
{
    if data.len() == 0 {
        seq![]
    } else {
        "\ndata: "@ + data[0] + data_lines(data.drop_first())
    }
}

/// Data lines read as what they carry, and no blank line stands among them.
proof fn lemma_data_lines(data: Seq<Seq<char>>)
    requires
        data.len() > 0,
        forall|i: int|
            0 <= i < data.len() ==> is_plain_data(#[trigger] data[i]) && !data[i].contains('\r'),
    ensures
        data_lines(data).len() > 1,
        data_lines(data)[0] == '\n',
        frame_data(data_lines(data).drop_first()) == text::concat(data),
        forall|i: int|
            0 <= i < data_lines(data).len() && #[trigger] data_lines(data)[i] == '\n' ==> i + 1
                < data_lines(data).len() && data_lines(data)[i + 1] != '\n',
    decreases data.len(),
{
    reveal_strlit("\ndata: ");
    reveal_strlit("data: ");
    let d = data[0];
    let rest = data.drop_first();
    let all = data_lines(data);
    let more = data_lines(rest);
    let line = "data: "@ + d;
    assert(is_plain_data(data[0]));
    assert forall|i: int| 0 <= i < line.len() implies #[trigger] line[i] != '\n' && line[i]
        != '\r' by {
        if i >= 6 {
            assert(line[i] == d[i - 6]);
            assert(d.contains(d[i - 6]));
        }
    }
    assert(all =~= seq!['\n'] + line + more);
    assert(frame_data(line) == d) by {
        lemma_frame_of_one_line(line);
        lemma_data_line(d);
    }
    assert(data =~= seq![d] + rest);
    text::law_concat(d, rest);
    if rest.len() == 0 {
        assert(more =~= seq![]);
        assert(all.drop_first() =~= line);
        assert(rest =~= seq![]);
        assert(d + text::concat(rest) =~= d);
        assert forall|i: int| 0 <= i < all.len() && #[trigger] all[i] == '\n' implies i + 1
            < all.len() && all[i + 1] != '\n' by {
            if i > 0 {
                assert(all[i] == line[i - 1]);
            } else {
                assert(all[1] == line[0]);
            }
        }
    } else {
        assert forall|i: int| 0 <= i < rest.len() implies is_plain_data(#[trigger] rest[i])
            && !rest[i].contains('\r') by {
            assert(rest[i] == data[i + 1]);
        }
        lemma_data_lines(rest);
        assert(all.drop_first() =~= line.push('\n') + more.drop_first());
        law_every_line_counts(line, more.drop_first());
        let n = line.len() as int + 1;
        assert forall|i: int| 0 <= i < all.len() && #[trigger] all[i] == '\n' implies i + 1
            < all.len() && all[i + 1] != '\n' by {
            if i >= n {
                assert(all[i] == more[i - n]);
                assert(all[i + 1] == more[i - n + 1]);
            } else if i > 0 {
                assert(all[i] == line[i - 1]);
            } else {
                assert(all[1] == line[0]);
            }
        }
    }
}

/// An event with a name and any number of data lines is read back as all of those lines, joined in
/// order.
pub proof fn law_event_of_many_lines_is_read_back(
    name: Seq<char>,
    data: Seq<Seq<char>>,
    rest: Seq<char>,
)
    requires
        data.len() > 0,
        !name.contains('\n'),
        forall|i: int|
            0 <= i < data.len() ==> is_plain_data(#[trigger] data[i]) && !data[i].contains('\r'),
    ensures
        complete_data("event: "@ + name + data_lines(data) + seq!['\n', '\n'] + rest) == seq![
            text::concat(data),
        ] + complete_data(rest),
        remainder("event: "@ + name + data_lines(data) + seq!['\n', '\n'] + rest) == remainder(
            rest,
        ),
{
    let line = "event: "@ + name;
    let lines = data_lines(data);
    let body = line + lines;
    let tail = lines.drop_first();
    lemma_data_lines(data);
    lemma_name_line(name);
    assert forall|i: int| 0 <= i < line.len() implies #[trigger] line[i] != '\n' by {
        assert(line.contains(line[i]));
    }
    assert(body =~= line.push('\n') + tail);
    assert(frame_data(body) == text::concat(data)) by {
        text::lemma_line(line, tail);
        let head = seq![text::strip_return(line)];
        let more = text::lines(tail);
        assert(lines_data(head + more) =~= lines_data(head) + lines_data(more));
        text::lemma_concat_add(lines_data(head), lines_data(more));
        assert(lines_data(head) =~= seq![Seq::<char>::empty()]);
        text::lemma_concat_one(Seq::<char>::empty());
        assert(Seq::<char>::empty() + frame_data(tail) =~= frame_data(tail));
    }
    assert(text::concat(data).len() > 0) by {
        text::law_concat(data[0], data.drop_first());
        assert(seq![data[0]] + data.drop_first() =~= data);
        assert(is_plain_data(data[0]));
    }
    assert forall|i: int| 0 <= i < body.len() && #[trigger] body[i] == '\n' implies i + 1
        < body.len() && body[i + 1] != '\n' by {
        let n = line.len() as int;
        if i < n {
            assert(body[i] == line[i]);
        } else {
            assert(body[i] == lines[i - n]);
            assert(body[i + 1] == lines[i - n + 1]);
        }
    }
    law_frame_by_frame(body, rest);
}

} // verus!
