//! Relaying the chunks of a text to the worker, one after the other, and what the worker answers
//! back to the client.

use crate::number;
use crate::sse;
use crate::sse::SseEvent;
use crate::text;
use axum::http::StatusCode;
use vstd::prelude::*;
use vstd::utf8::*;

verus! {

// ----------------------------------------------------- outside conversions

/// What bytes read as where sequences that are not UTF-8 give way to replacement characters.
pub uninterp spec fn utf8_lossy(bytes: Seq<u8>) -> Seq<char>;

/// `String::from_utf8_lossy` reads bytes as text. Valid UTF-8 reads as the text that it encodes;
/// in other bytes the invalid sequences give way to replacement characters.
#[verifier::external_body]
fn lossy_text(bytes: &[u8]) -> (r: String)
    ensures
        r@ == utf8_lossy(bytes@),
        valid_utf8(bytes@) ==> encode_utf8(r@) == bytes@,
{
    String::from_utf8_lossy(bytes).into_owned()
}

/// A status code and its reason phrase.
pub uninterp spec fn status_text(code: u16) -> Seq<char>;

/// The text of an `axum::http::StatusCode`: the code in decimal, a space, and the reason phrase.
#[verifier::external_body]
fn status_line(code: u16) -> (r: String)
    requires
        100 <= code <= 999,
    ensures
        r@ == status_text(code),
        text::starts_with(r@, number::decimal(code as nat).push(' ')),
{
    StatusCode::from_u16(code).map(|status| status.to_string()).unwrap_or_default()
}

/// Whether a status code tells of success.
pub open spec fn is_success(code: u16) -> bool {
    200 <= code < 300
}

/// Whether a status code tells of success.
pub fn succeeded(code: u16) -> (r: bool)
    ensures
        r == is_success(code),
{
    200 <= code && code < 300
}

/// What is said of a worker that answers with a status code other than success.
pub open spec fn status_failure(line: Seq<char>) -> Seq<char> {
    "worker status "@ + line
}

/// What is said of a worker that answers with a status code other than success.
pub fn status_message(line: &str) -> (r: String)
    ensures
        r@ == status_failure(line@),
{
    let mut message = String::new();
    message.append("worker status ");
    message.append(line);
    assert(message@ =~= status_failure(line@));
    message
}

/// What is said of a worker that answers with this status code.
pub fn worker_status(code: u16) -> (r: String)
    requires
        100 <= code <= 999,
    ensures
        r@ == status_failure(status_text(code)),
        text::starts_with(status_text(code), number::decimal(code as nat).push(' ')),
{
    status_message(status_line(code).as_str())
}

// ---------------------------------------------------------------- the relay

/// Something that happened outside.
pub enum RelayEvent {
    /// The relay begins.
    Started,
    /// The request to the worker failed.
    RequestFailed,
    /// The worker answered with this status code.
    Responded(u16),
    /// The worker sent these bytes.
    Received(Vec<u8>),
    /// Reading from the worker failed.
    StreamFailed,
    /// The worker has sent everything.
    StreamEnded,
}

/// What a [`RelayEvent`] holds.
pub enum HappenedView {
    Started,
    RequestFailed,
    Responded(u16),
    Received(Seq<u8>),
    StreamFailed,
    StreamEnded,
}

impl View for RelayEvent {
    type V = HappenedView;

    open spec fn view(&self) -> HappenedView {
        match *self {
            RelayEvent::Started => HappenedView::Started,
            RelayEvent::RequestFailed => HappenedView::RequestFailed,
            RelayEvent::Responded(code) => HappenedView::Responded(code),
            RelayEvent::Received(bytes) => HappenedView::Received(bytes@),
            RelayEvent::StreamFailed => HappenedView::StreamFailed,
            RelayEvent::StreamEnded => HappenedView::StreamEnded,
        }
    }
}

/// What is to be done next.
pub enum RelayAction {
    /// Post a chunk to the worker, with its index and the number of chunks in decimal.
    Post { index: String, total: String, body: Vec<u8> },
    /// Send these events to the client, then read on. A client that is gone ends the relay.
    Forward(Vec<SseEvent>),
    /// Send this event to the client; the relay is over.
    Fail(SseEvent),
    /// Keep the text under the key, then send this event to the client; the relay is over.
    Finish { key: String, value: String, event: SseEvent },
}

/// What a [`RelayAction`] holds.
pub enum ActionView {
    Post { index: Seq<char>, total: Seq<char>, body: Seq<u8> },
    Forward(Seq<sse::EventView>),
    Fail(sse::EventView),
    Finish { key: Seq<char>, value: Seq<char>, event: sse::EventView },
}

impl View for RelayAction {
    type V = ActionView;

    open spec fn view(&self) -> ActionView {
        match *self {
            RelayAction::Post { index, total, body } => ActionView::Post {
                index: index@,
                total: total@,
                body: body@,
            },
            RelayAction::Forward(events) => ActionView::Forward(sse::event_views(events@)),
            RelayAction::Fail(event) => ActionView::Fail(event@),
            RelayAction::Finish { key, value, event } => ActionView::Finish {
                key: key@,
                value: value@,
                event: event@,
            },
        }
    }
}

/// How far a relay has come: the chunks, the one that is under way, the text received so far, and
/// the bytes of the current answer that do not make up a whole frame yet.
pub struct Relay {
    key: String,
    chunks: Vec<Vec<u8>>,
    index: usize,
    compressed: String,
    buffer: String,
}

/// What a [`Relay`] holds.
pub struct RelayView {
    pub key: Seq<char>,
    pub chunks: Seq<Seq<u8>>,
    pub index: nat,
    pub compressed: Seq<char>,
    pub buffer: Seq<char>,
}

impl View for Relay {
    type V = RelayView;

    closed spec fn view(&self) -> RelayView {
        RelayView {
            key: self.key@,
            chunks: Seq::new(self.chunks@.len(), |i: int| self.chunks@[i]@),
            index: self.index as nat,
            compressed: self.compressed@,
            buffer: self.buffer@,
        }
    }
}

/// A relay that has not begun.
pub open spec fn fresh(key: Seq<char>, chunks: Seq<Seq<u8>>) -> RelayView {
    RelayView { key, chunks, index: 0, compressed: seq![], buffer: seq![] }
}

/// The pieces of data that are passed on: all but the worker's end marks.
pub open spec fn passed_on(data: Seq<Seq<char>>) -> Seq<Seq<char>> {
    data.filter(|d: Seq<char>| d != "[DONE]"@)
}

/// The events that pass pieces of data on.
pub open spec fn delta_events(data: Seq<Seq<char>>) -> Seq<sse::EventView> {
    data.map_values(|d: Seq<char>| sse::named("delta"@, d))
}

/// What the worker sent as `received` adds to the relay.
pub open spec fn with_text(v: RelayView, received: Seq<char>) -> RelayView {
    let buffer = v.buffer + received;
    RelayView {
        compressed: v.compressed + text::concat(passed_on(sse::complete_data(buffer))),
        buffer: sse::remainder(buffer),
        ..v
    }
}

/// The events that what the worker sent as `received` gives.
pub open spec fn deltas(v: RelayView, received: Seq<char>) -> Seq<sse::EventView> {
    delta_events(passed_on(sse::complete_data(v.buffer + received)))
}

/// The index of the chunk behind the one that is under way.
pub open spec fn next_index(v: RelayView) -> nat {
    if v.index < v.chunks.len() {
        v.index + 1
    } else {
        v.index
    }
}

/// What is to be done once `index` chunks have been relayed: post the next one, or finish.
pub open spec fn proceed(v: RelayView, index: nat) -> ActionView {
    if index < v.chunks.len() {
        ActionView::Post {
            index: number::decimal(index),
            total: number::decimal(v.chunks.len()),
            body: v.chunks[index as int],
        }
    } else {
        ActionView::Finish { key: v.key, value: v.compressed, event: sse::done_event() }
    }
}

/// The relay after something happened.
pub open spec fn after(v: RelayView, e: HappenedView) -> RelayView {
    match e {
        HappenedView::Responded(code) => if is_success(code) {
            RelayView { buffer: seq![], ..v }
        } else {
            v
        },
        HappenedView::Received(bytes) => with_text(v, utf8_lossy(bytes)),
        HappenedView::StreamEnded => RelayView { index: next_index(v), ..v },
        _ => v,
    }
}

/// What is to be done after something happened.
pub open spec fn action(v: RelayView, e: HappenedView) -> ActionView {
    match e {
        HappenedView::Started => proceed(v, v.index),
        HappenedView::RequestFailed => ActionView::Fail(
            sse::named("error"@, "worker request failed"@),
        ),
        HappenedView::Responded(code) => if is_success(code) {
            ActionView::Forward(seq![])
        } else {
            ActionView::Fail(sse::named("error"@, status_failure(status_text(code))))
        },
        HappenedView::Received(bytes) => ActionView::Forward(deltas(v, utf8_lossy(bytes))),
        HappenedView::StreamFailed => ActionView::Fail(
            sse::named("error"@, "worker stream failed"@),
        ),
        HappenedView::StreamEnded => proceed(v, next_index(v)),
    }
}

impl Relay {
    /// A relay of `chunks` that has not begun. What comes back is to be kept under `key`.
    pub fn new(key: String, chunks: Vec<Vec<u8>>) -> (r: Self)
        ensures
            r@ == fresh(key@, Seq::new(chunks@.len(), |i: int| chunks@[i]@)),
    {
        Relay { key, chunks, index: 0, compressed: String::new(), buffer: String::new() }
    }

    /// Takes in text that the worker sent, and gives the events that pass it on.
    pub fn absorb(&mut self, received: &str) -> (r: Vec<SseEvent>)
        ensures
            final(self)@ == with_text(old(self)@, received@),
            sse::event_views(r@) == deltas(old(self)@, received@),
    {
        let ghost before = self@;
        self.buffer.append(received);
        let drained = sse::drain_sse_data(&mut self.buffer);
        let ghost data = sse::complete_data(before.buffer + received@);
        let ghost wanted = |d: Seq<char>| d != "[DONE]"@;
        let mut events: Vec<SseEvent> = Vec::new();
        let mut i: usize = 0;
        proof {
            reveal(Seq::filter);
            assert(data.take(0) =~= seq![]);
            assert(sse::event_views(events@) =~= delta_events(data.take(0).filter(wanted)));
            assert(before.compressed + text::concat(data.take(0).filter(wanted))
                =~= before.compressed);
        }
        while i < drained.len()
            invariant
                i <= drained@.len(),
                data == text::texts(drained@),
                wanted == (|d: Seq<char>| d != "[DONE]"@),
                sse::event_views(events@) == delta_events(data.take(i as int).filter(wanted)),
                self.compressed@ == before.compressed + text::concat(
                    data.take(i as int).filter(wanted),
                ),
                self.key@ == before.key,
                self@.chunks == before.chunks,
                self.index == before.index,
                self.buffer@ == sse::remainder(before.buffer + received@),
            decreases drained@.len() - i,
        {
            let piece: &str = drained[i].as_str();
            let ghost kept = data.take(i as int).filter(wanted);
            proof {
                reveal(Seq::filter);
                assert(data.take(i + 1).drop_last() =~= data.take(i as int));
                assert(data.take(i + 1).last() == piece@);
            }
            if !text::same_text(piece, "[DONE]") {
                self.compressed.append(piece);
                let event = SseEvent::new("delta", piece.to_string());
                proof {
                    sse::lemma_event_views_push(events@, event);
                    assert(delta_events(kept.push(piece@)) =~= delta_events(kept).push(event@));
                    assert(kept.push(piece@).drop_last() =~= kept);
                    assert(before.compressed + (text::concat(kept) + piece@) =~= (before.compressed
                        + text::concat(kept)) + piece@);
                }
                events.push(event);
            }
            i = i + 1;
        }
        proof {
            assert(data.take(data.len() as int) =~= data);
            assert(passed_on(data) == data.filter(wanted));
        }
        events
    }

    /// What is to be done now that as many chunks have been relayed as `index` says.
    fn proceed_now(&self) -> (r: RelayAction)
        ensures
            r@ == proceed(self@, self@.index),
    {
        if self.index < self.chunks.len() {
            RelayAction::Post {
                index: number::decimal_text(self.index as u64),
                total: number::decimal_text(self.chunks.len() as u64),
                body: self.chunks[self.index].clone(),
            }
        } else {
            RelayAction::Finish {
                key: self.key.clone(),
                value: self.compressed.clone(),
                event: SseEvent::done(),
            }
        }
    }

    /// What is to be done after something happened.
    pub fn step(&mut self, event: RelayEvent) -> (r: RelayAction)
        requires
            event matches RelayEvent::Responded(code) ==> 100 <= code <= 999,
        ensures
            final(self)@ == after(old(self)@, event@),
            r@ == action(old(self)@, event@),
            event matches RelayEvent::Received(bytes) ==> (valid_utf8(bytes@) ==> encode_utf8(
                utf8_lossy(bytes@),
            ) == bytes@),
            event matches RelayEvent::Responded(code) ==> (!is_success(code) ==> text::starts_with(
                status_text(code),
                number::decimal(code as nat).push(' '),
            )),
    {
        match event {
            RelayEvent::Started => self.proceed_now(),
            RelayEvent::RequestFailed => RelayAction::Fail(
                SseEvent::new("error", "worker request failed".to_string()),
            ),
            RelayEvent::Responded(code) => if succeeded(code) {
                self.buffer = String::new();
                let events: Vec<SseEvent> = Vec::new();
                assert(sse::event_views(events@) =~= seq![]);
                RelayAction::Forward(events)
            } else {
                RelayAction::Fail(SseEvent::new("error", worker_status(code)))
            },
            RelayEvent::Received(bytes) => {
                let received = lossy_text(bytes.as_slice());
                RelayAction::Forward(self.absorb(received.as_str()))
            },
            RelayEvent::StreamFailed => RelayAction::Fail(
                SseEvent::new("error", "worker stream failed".to_string()),
            ),
            RelayEvent::StreamEnded => {
                if self.index < self.chunks.len() {
                    self.index = self.index + 1;
                }
                self.proceed_now()
            },
        }
    }
}

// --------------------------------------------------------------------- laws

/// The relay after all of `events` happened, one after the other.
pub open spec fn run(v: RelayView, events: Seq<HappenedView>) -> RelayView
    decreases events.len(),
{
    if events.len() == 0 {
        v
    } else {
        after(run(v, events.drop_last()), events.last())
    }
}

/// Everything that is passed on to the client while `events` happen.
pub open spec fn sent(v: RelayView, events: Seq<HappenedView>) -> Seq<sse::EventView>
    decreases events.len(),
{
    if events.len() == 0 {
        seq![]
    } else {
        let front = events.drop_last();
        match action(run(v, front), events.last()) {
            ActionView::Forward(more) => sent(v, front) + more,
            _ => sent(v, front),
        }
    }
}

/// The data of each event.
pub open spec fn data_of(events: Seq<sse::EventView>) -> Seq<Seq<char>> {
    events.map_values(|e: sse::EventView| e.data)
}

/// How many answers came to their end.
pub open spec fn ended(events: Seq<HappenedView>) -> nat
    decreases events.len(),
{
    if events.len() == 0 {
        0
    } else if events.last() is StreamEnded {
        ended(events.drop_last()) + 1
    } else {
        ended(events.drop_last())
    }
}

/// What a relay has received is what it has passed on, and its key and its chunks stay the same.
proof fn lemma_run(key: Seq<char>, chunks: Seq<Seq<u8>>, events: Seq<HappenedView>)
    ensures
        run(fresh(key, chunks), events).compressed == text::concat(
            data_of(sent(fresh(key, chunks), events)),
        ),
        run(fresh(key, chunks), events).key == key,
        run(fresh(key, chunks), events).chunks == chunks,
        run(fresh(key, chunks), events).index == if ended(events) < chunks.len() {
            ended(events)
        } else {
            chunks.len()
        },
    decreases events.len(),
{
    let start = fresh(key, chunks);
    if events.len() == 0 {
        assert(data_of(sent(start, events)) =~= seq![]);
    } else {
        let front = events.drop_last();
        let v = run(start, front);
        lemma_run(key, chunks, front);
        match events.last() {
            HappenedView::Received(bytes) => {
                let data = passed_on(sse::complete_data(v.buffer + utf8_lossy(bytes)));
                let more = deltas(v, utf8_lossy(bytes));
                assert(data_of(sent(start, front) + more) =~= data_of(sent(start, front)) + data);
                text::lemma_concat_add(data_of(sent(start, front)), data);
            },
            HappenedView::Responded(code) => {
                assert(sent(start, front) + Seq::<sse::EventView>::empty() =~= sent(start, front));
            },
            _ => {},
        }
    }
}

/// What is kept at the end of a relay is what was passed on to the client, joined.
pub proof fn law_kept_text_is_what_was_sent(
    key: Seq<char>,
    chunks: Seq<Seq<u8>>,
    events: Seq<HappenedView>,
    last: HappenedView,
)
    ensures
        action(run(fresh(key, chunks), events), last) matches ActionView::Finish {
            key: k,
            value,
            ..
        } ==> k == key && value == text::concat(data_of(sent(fresh(key, chunks), events))),
{
    lemma_run(key, chunks, events);
}

/// The chunks are posted in order, each with its index, and the relay finishes when the answer to
/// the last one has ended and not before.
pub proof fn law_chunks_are_posted_in_order(
    key: Seq<char>,
    chunks: Seq<Seq<u8>>,
    events: Seq<HappenedView>,
    last: HappenedView,
)
    ensures
        ({
            let count = ended(events.push(last));
            match action(run(fresh(key, chunks), events), last) {
                ActionView::Post { index, total, body } => {
                    &&& count < chunks.len()
                    &&& index == number::decimal(count)
                    &&& total == number::decimal(chunks.len())
                    &&& body == chunks[count as int]
                },
                ActionView::Finish { .. } => count >= chunks.len(),
                _ => true,
            }
        }),
{
    lemma_run(key, chunks, events);
    assert(events.push(last).drop_last() =~= events);
}

/// How the worker's answer is cut into pieces on its way does not matter.
pub proof fn law_answer_may_come_in_pieces(v: RelayView, a: Seq<char>, b: Seq<char>)
    ensures
        with_text(with_text(v, a), b) == with_text(v, a + b),
        deltas(v, a) + deltas(with_text(v, a), b) == deltas(v, a + b),
{
    let wanted = |d: Seq<char>| d != "[DONE]"@;
    let first = sse::complete_data(v.buffer + a);
    let second = sse::complete_data(sse::remainder(v.buffer + a) + b);
    sse::law_draining_is_incremental(v.buffer + a, b);
    assert(v.buffer + a + b =~= v.buffer + (a + b));
    Seq::filter_distributes_over_add(first, second, wanted);
    assert(passed_on(first + second) =~= passed_on(first) + passed_on(second));
    text::lemma_concat_add(passed_on(first), passed_on(second));
    assert(with_text(with_text(v, a), b).compressed =~= with_text(v, a + b).compressed);
    assert(deltas(v, a) + deltas(with_text(v, a), b) =~= deltas(v, a + b));
}

/// Filtering keeps a list of which nothing is left out.
proof fn lemma_passed_on_all(data: Seq<Seq<char>>)
    requires
        forall|i: int| 0 <= i < data.len() ==> #[trigger] data[i] != "[DONE]"@,
    ensures
        passed_on(data) == data,
    decreases data.len(),
{
    reveal(Seq::filter);
    if data.len() > 0 {
        lemma_passed_on_all(data.drop_last());
        assert(data.drop_last().push(data.last()) =~= data);
    }
}

/// What the worker writes as delta events, one line of data each, reaches the client as the same
/// events and is kept, joined.
pub proof fn law_written_deltas_pass_through(v: RelayView, data: Seq<Seq<char>>)
    requires
        v.buffer.len() == 0,
        forall|i: int|
            0 <= i < data.len() ==> sse::is_plain_data(#[trigger] data[i]) && data[i]
                != "[DONE]"@,
    ensures
        deltas(v, sse::frames("delta"@, data)) == delta_events(data),
        with_text(v, sse::frames("delta"@, data)) == (RelayView {
            compressed: v.compressed + text::concat(data),
            ..v
        }),
{
    reveal_strlit("delta");
    assert(!"delta"@.contains('\n'));
    sse::law_written_events_are_read_back("delta"@, data);
    lemma_passed_on_all(data);
    assert(v.buffer + sse::frames("delta"@, data) =~= sse::frames("delta"@, data));
    assert(v.buffer =~= Seq::<char>::empty());
}

/// All data but the end mark is passed on, in order, each piece as an event of its own with the
/// piece as its data.
pub proof fn law_data_is_passed_on(data: Seq<Seq<char>>, piece: Seq<char>, i: int)
    ensures
        passed_on(seq![]) == Seq::<Seq<char>>::empty(),
        piece != "[DONE]"@ ==> passed_on(data.push(piece)) == passed_on(data).push(piece),
        piece == "[DONE]"@ ==> passed_on(data.push(piece)) == passed_on(data),
        delta_events(data).len() == data.len(),
        0 <= i < data.len() ==> delta_events(data)[i].name == Some("delta"@),
        0 <= i < data.len() ==> delta_events(data)[i].data == data[i],
{
    reveal(Seq::filter);
    assert(data.push(piece).drop_last() =~= data);
}

/// What comes from the worker is passed on as it is read, and added to what is kept; the rest waits.
pub proof fn law_received_text_is_kept_and_passed_on(v: RelayView, received: Seq<char>)
    ensures
        data_of(deltas(v, received)) == passed_on(sse::complete_data(v.buffer + received)),
        with_text(v, received).compressed == v.compressed + text::concat(
            data_of(deltas(v, received)),
        ),
        with_text(v, received).buffer == sse::remainder(v.buffer + received),
        with_text(v, received).key == v.key,
        with_text(v, received).chunks == v.chunks,
        with_text(v, received).index == v.index,
{
    let data = passed_on(sse::complete_data(v.buffer + received));
    assert(data_of(delta_events(data)) =~= data);
}

/// Each thing that happens changes what it is about and nothing else: bytes add text, an answer
/// begins with nothing read, the end of an answer brings the next chunk.
pub proof fn law_what_happens_changes_only_its_own(
    v: RelayView,
    bytes: Seq<u8>,
    code: u16,
    happened: HappenedView,
)
    ensures
        after(v, happened).key == v.key,
        after(v, happened).chunks == v.chunks,
        after(v, HappenedView::Received(bytes)) == with_text(v, utf8_lossy(bytes)),
        !(happened is Received) ==> after(v, happened).compressed == v.compressed,
        !(happened is StreamEnded) ==> after(v, happened).index == v.index,
        v.index < v.chunks.len() ==> after(v, HappenedView::StreamEnded).index == v.index + 1,
        200 <= code <= 299 ==> after(v, HappenedView::Responded(code)).buffer.len() == 0,
        after(v, HappenedView::StreamEnded).buffer == v.buffer,
{
}

/// Each thing that happens is answered in its own way: a chunk is posted whole with its place and
/// their number, data is forwarded, a failure is told as an error and ends the relay.
pub proof fn law_what_happens_is_answered(v: RelayView, bytes: Seq<u8>, code: u16)
    ensures
        is_success(code) <==> 200 <= code <= 299,
        v.index < v.chunks.len() ==> action(v, HappenedView::Started) == (ActionView::Post {
            index: number::decimal(v.index),
            total: number::decimal(v.chunks.len()),
            body: v.chunks[v.index as int],
        }),
        v.index + 1 < v.chunks.len() ==> action(v, HappenedView::StreamEnded) == (
        ActionView::Post {
            index: number::decimal(v.index + 1),
            total: number::decimal(v.chunks.len()),
            body: v.chunks[v.index as int + 1],
        }),
        v.index >= v.chunks.len() ==> action(v, HappenedView::Started) == (ActionView::Finish {
            key: v.key,
            value: v.compressed,
            event: sse::done_event(),
        }),
        v.index + 1 == v.chunks.len() ==> action(v, HappenedView::StreamEnded) == (
        ActionView::Finish { key: v.key, value: v.compressed, event: sse::done_event() }),
        action(v, HappenedView::Received(bytes)) == ActionView::Forward(
            deltas(v, utf8_lossy(bytes)),
        ),
        200 <= code <= 299 ==> action(v, HappenedView::Responded(code)) == ActionView::Forward(
            seq![],
        ),
        !(200 <= code <= 299) ==> action(v, HappenedView::Responded(code)) == ActionView::Fail(
            sse::EventView { name: Some("error"@), data: "worker status "@ + status_text(code) },
        ),
        action(v, HappenedView::RequestFailed) == ActionView::Fail(
            sse::EventView { name: Some("error"@), data: "worker request failed"@ },
        ),
        action(v, HappenedView::StreamFailed) == ActionView::Fail(
            sse::EventView { name: Some("error"@), data: "worker stream failed"@ },
        ),
{
}

/// A relay that has not begun has its key and its chunks, and nothing else.
pub proof fn law_fresh_relay(key: Seq<char>, chunks: Seq<Seq<u8>>)
    ensures
        fresh(key, chunks).key == key,
        fresh(key, chunks).chunks == chunks,
        fresh(key, chunks).index == 0,
        fresh(key, chunks).compressed.len() == 0,
        fresh(key, chunks).buffer.len() == 0,
{
}

/// Events and actions hold what they are made of.
pub proof fn law_events_and_actions_hold_what_they_are_made_of(
    code: u16,
    bytes: Vec<u8>,
    a: String,
    b: String,
    event: SseEvent,
    events: Vec<SseEvent>,
)
    ensures
        RelayEvent::Started@ == HappenedView::Started,
        RelayEvent::RequestFailed@ == HappenedView::RequestFailed,
        RelayEvent::Responded(code)@ == HappenedView::Responded(code),
        RelayEvent::Received(bytes)@ == HappenedView::Received(bytes@),
        RelayEvent::StreamFailed@ == HappenedView::StreamFailed,
        RelayEvent::StreamEnded@ == HappenedView::StreamEnded,
        (RelayAction::Post { index: a, total: b, body: bytes })@ == (ActionView::Post {
            index: a@,
            total: b@,
            body: bytes@,
        }),
        RelayAction::Forward(events)@ == ActionView::Forward(sse::event_views(events@)),
        RelayAction::Fail(event)@ == ActionView::Fail(event@),
        (RelayAction::Finish { key: a, value: b, event })@ == (ActionView::Finish {
            key: a@,
            value: b@,
            event: event@,
        }),
{
}

/// What the worker writes as one event of many data lines reaches the client as one event with all
/// of the lines, joined, and is kept.
pub proof fn law_written_lines_pass_through(v: RelayView, data: Seq<Seq<char>>)
    requires
        v.buffer.len() == 0,
        data.len() > 0,
        forall|i: int|
            0 <= i < data.len() ==> sse::is_plain_data(#[trigger] data[i]) && !data[i].contains(
                '\r',
            ),
        text::concat(data) != "[DONE]"@,
    ensures
        deltas(v, "event: delta"@ + sse::data_lines(data) + seq!['\n', '\n']) == seq![
            sse::EventView { name: Some("delta"@), data: text::concat(data) },
        ],
        with_text(
            v,
            "event: delta"@ + sse::data_lines(data) + seq!['\n', '\n'],
        ).compressed == v.compressed + text::concat(data),
{
    reveal_strlit("event: delta");
    reveal_strlit("event: ");
    reveal_strlit("delta");
    let whole = "event: delta"@ + sse::data_lines(data) + seq!['\n', '\n'];
    let none = Seq::<char>::empty();
    assert("event: "@ + "delta"@ =~= "event: delta"@);
    assert(!"delta"@.contains('\n'));
    sse::law_event_of_many_lines_is_read_back("delta"@, data, none);
    assert(whole + none =~= whole);
    sse::law_unfinished_frame_waits(none);
    assert(v.buffer + whole =~= whole);
    let one = seq![text::concat(data)];
    assert(sse::complete_data(whole) =~= one);
    lemma_passed_on_all(one);
    text::lemma_concat_one(text::concat(data));
    assert(delta_events(one) =~= seq![
        sse::EventView { name: Some("delta"@), data: text::concat(data) },
    ]);
}

} // verus!
