//! How the model's answer is streamed.

use crate::json;
use crate::sse;
use crate::sse::SseEvent;
use crate::text;
use vstd::prelude::*;

verus! {

/// What is sent next, and whether that is the end.
pub struct StreamStep {
    pub events: Vec<SseEvent>,
    pub ends: bool,
}

/// What a [`StreamStep`] holds.
pub struct StepView {
    pub events: Seq<sse::EventView>,
    pub ends: bool,
}

impl View for StreamStep {
    type V = StepView;

    open spec fn view(&self) -> StepView {
        StepView { events: sse::event_views(self.events@), ends: self.ends }
    }
}

/// A step that sends one event.
fn one_event(event: SseEvent, ends: bool) -> (r: StreamStep)
    ensures
        r@ == (StepView { events: seq![event@], ends }),
{
    let mut events: Vec<SseEvent> = Vec::new();
    events.push(event);
    let step = StreamStep { events, ends };
    assert(step@.events =~= seq![event@]);
    step
}

// ----------------------------------------------------------------------- chat

/// Something that came of a chat.
pub enum ChatEvent {
    /// A chunk came, written as JSON.
    Chunk(String),
    /// A chunk came that could not be written as JSON.
    Unwritable,
    /// The chat failed.
    Failed(String),
    /// The chat is over.
    Ended,
}

/// An event without a name.
pub open spec fn plain(data: Seq<char>) -> sse::EventView {
    sse::EventView { name: None, data }
}

/// An event that tells of an error as JSON.
pub open spec fn plain_error(message: Seq<char>) -> sse::EventView {
    plain(json::object_text(json::error_fields(message)))
}

/// What is sent where something came of a chat.
pub open spec fn chat_step(happened: ChatEvent) -> StepView {
    match happened {
        ChatEvent::Chunk(data) => StepView { events: seq![plain(data@)], ends: false },
        ChatEvent::Unwritable => StepView {
            events: seq![plain_error("serialize stream chunk failed"@)],
            ends: true,
        },
        ChatEvent::Failed(detail) => StepView { events: seq![plain_error(detail@)], ends: true },
        ChatEvent::Ended => StepView { events: seq![plain("[DONE]"@)], ends: true },
    }
}

/// What is sent where something came of a chat: the chunks as they come, and an error or the end
/// mark last.
pub fn stream_openai_chunks(happened: ChatEvent) -> (r: StreamStep)
    ensures
        r@ == chat_step(happened),
{
    match happened {
        ChatEvent::Chunk(data) => one_event(SseEvent::unnamed(data), false),
        ChatEvent::Unwritable => one_event(
            SseEvent::unnamed(json::error_json("serialize stream chunk failed".to_string())),
            true,
        ),
        ChatEvent::Failed(detail) => one_event(SseEvent::unnamed(json::error_json(detail)), true),
        ChatEvent::Ended => one_event(SseEvent::unnamed("[DONE]".to_string()), true),
    }
}

// ---------------------------------------------------------------- compression

/// Something that came of a compression.
pub enum DeltaEvent {
    /// A chunk came: what each of its choices adds, where it adds something.
    Choices(Vec<Option<String>>),
    /// The compression failed.
    Failed(String),
    /// The compression is over.
    Ended,
}

/// What the choices of a chunk add, without the ones that add nothing.
pub open spec fn additions(choices: Seq<Option<String>>) -> Seq<Seq<char>>
    decreases choices.len(),
{
    if choices.len() == 0 {
        seq![]
    } else {
        let front = additions(choices.drop_last());
        match choices.last() {
            Some(content) => if content@.len() > 0 {
                front.push(content@)
            } else {
                front
            },
            None => front,
        }
    }
}

/// The events that pass additions on.
pub open spec fn delta_events(additions: Seq<Seq<char>>) -> Seq<sse::EventView> {
    additions.map_values(|content: Seq<char>| sse::named("delta"@, content))
}

/// What is sent where something came of a compression.
pub open spec fn delta_step(happened: DeltaEvent) -> StepView {
    match happened {
        DeltaEvent::Choices(choices) => StepView {
            events: delta_events(additions(choices@)),
            ends: false,
        },
        DeltaEvent::Failed(detail) => StepView {
            events: seq![sse::named("error"@, detail@)],
            ends: true,
        },
        DeltaEvent::Ended => StepView { events: seq![sse::done_event()], ends: true },
    }
}

/// The events that pass on what the choices of a chunk add.
fn deltas(choices: &Vec<Option<String>>) -> (r: Vec<SseEvent>)
    ensures
        sse::event_views(r@) == delta_events(additions(choices@)),
{
    let mut events: Vec<SseEvent> = Vec::new();
    let mut i: usize = 0;
    assert(choices@.take(0) =~= seq![]);
    assert(sse::event_views(events@) =~= delta_events(additions(choices@.take(0))));
    while i < choices.len()
        invariant
            i <= choices@.len(),
            sse::event_views(events@) == delta_events(additions(choices@.take(i as int))),
        decreases choices@.len() - i,
    {
        let ghost before = additions(choices@.take(i as int));
        proof {
            assert(choices@.take(i + 1).drop_last() =~= choices@.take(i as int));
            assert(choices@.take(i + 1).last() == choices@[i as int]);
        }
        if let Some(content) = &choices[i] {
            if !content.as_str().is_empty() {
                let event = SseEvent::new("delta", content.clone());
                proof {
                    sse::lemma_event_views_push(events@, event);
                    assert(delta_events(before.push(content@)) =~= delta_events(before).push(
                        event@,
                    ));
                }
                events.push(event);
            }
        }
        i = i + 1;
    }
    assert(choices@.take(choices@.len() as int) =~= choices@);
    events
}

/// What is sent where something came of a compression: what each chunk adds, and an error or the
/// end mark last.
pub fn stream_text_deltas(happened: DeltaEvent) -> (r: StreamStep)
    ensures
        r@ == delta_step(happened),
{
    match happened {
        DeltaEvent::Choices(choices) => StreamStep { events: deltas(&choices), ends: false },
        DeltaEvent::Failed(detail) => one_event(SseEvent::new("error", detail), true),
        DeltaEvent::Ended => one_event(SseEvent::done(), true),
    }
}

// --------------------------------------------------------------------- laws

/// What each choice adds, nothing for those that add nothing.
pub open spec fn contents(choices: Seq<Option<String>>) -> Seq<Seq<char>> {
    Seq::new(
        choices.len(),
        |i: int|
            match choices[i] {
                Some(content) => content@,
                None => seq![],
            },
    )
}

/// Leaving out what adds nothing loses no text: what is passed on is all that the choices add.
pub proof fn law_nothing_is_lost_on_the_way(choices: Seq<Option<String>>)
    ensures
        text::concat(additions(choices)) == text::concat(contents(choices)),
    decreases choices.len(),
{
    if choices.len() > 0 {
        let front = choices.drop_last();
        law_nothing_is_lost_on_the_way(front);
        assert(contents(choices).drop_last() =~= contents(front));
        let last = contents(choices).last();
        if last.len() > 0 {
            assert(additions(front).push(last).drop_last() =~= additions(front));
        } else {
            assert(text::concat(contents(front)) + last =~= text::concat(contents(front)));
        }
    } else {
        assert(additions(choices) =~= contents(choices));
    }
}

/// A stream ends with an error or an end mark, and with nothing else.
pub proof fn law_streams_end_with_one_event(chat: ChatEvent, delta: DeltaEvent)
    ensures
        chat_step(chat).ends <==> !(chat is Chunk),
        chat_step(chat).events.len() == 1,
        delta_step(delta).ends <==> !(delta is Choices),
        delta_step(delta).ends ==> delta_step(delta).events.len() == 1,
{
}

/// A chunk of a chat is sent as one event without a name whose data is the chunk's text, character
/// for character; an error is told as JSON with its words, and the end by the end mark.
pub proof fn law_chat_chunks_are_sent_as_they_come(data: String, detail: String)
    ensures
        chat_step(ChatEvent::Chunk(data)).events == seq![
            sse::EventView { name: None, data: data@ },
        ],
        chat_step(ChatEvent::Failed(detail)).events == seq![
            sse::EventView {
                name: None,
                data: json::object_text(map!["error"@ => json::FieldView::Text(detail@)]),
            },
        ],
        chat_step(ChatEvent::Unwritable).events == seq![
            sse::EventView {
                name: None,
                data: json::object_text(
                    map!["error"@ => json::FieldView::Text("serialize stream chunk failed"@)],
                ),
            },
        ],
        chat_step(ChatEvent::Ended).events == seq![
            sse::EventView { name: None, data: "[DONE]"@ },
        ],
{
    assert(json::error_fields(detail@) =~= map!["error"@ => json::FieldView::Text(detail@)]);
    assert(json::error_fields("serialize stream chunk failed"@) =~= map!["error"@ =>
        json::FieldView::Text("serialize stream chunk failed"@)]);
}

/// Everything that is sent while chunks of a chat come.
pub open spec fn chat_sent(chunks: Seq<String>) -> Seq<sse::EventView>
    decreases chunks.len(),
{
    if chunks.len() == 0 {
        seq![]
    } else {
        chat_sent(chunks.drop_last()) + chat_step(ChatEvent::Chunk(chunks.last())).events
    }
}

/// The data of the events of a whole chat are its chunks, in order and unchanged.
pub proof fn law_whole_chat_is_sent(chunks: Seq<String>)
    ensures
        chat_sent(chunks).len() == chunks.len(),
        forall|i: int|
            0 <= i < chunks.len() ==> #[trigger] chat_sent(chunks)[i] == (sse::EventView {
                name: None,
                data: chunks[i]@,
            }),
    decreases chunks.len(),
{
    if chunks.len() > 0 {
        let front = chunks.drop_last();
        law_whole_chat_is_sent(front);
        law_chat_chunks_are_sent_as_they_come(chunks.last(), chunks.last());
        assert forall|i: int| 0 <= i < chunks.len() implies #[trigger] chat_sent(chunks)[i] == (
        sse::EventView { name: None, data: chunks[i]@ }) by {
            if i < front.len() {
                assert(chat_sent(front)[i] == (sse::EventView { name: None, data: front[i]@ }));
                assert(front[i] == chunks[i]);
            }
        }
    }
}

/// One more choice adds its text, whole, where it has any; what came before stays as it is.
pub proof fn law_choices_add_their_text(choices: Seq<Option<String>>, content: String)
    ensures
        additions(seq![]) == Seq::<Seq<char>>::empty(),
        additions(choices.push(None)) == additions(choices),
        content@.len() == 0 ==> additions(choices.push(Some(content))) == additions(choices),
        content@.len() > 0 ==> additions(choices.push(Some(content))) == additions(choices).push(
            content@,
        ),
{
    assert(choices.push(None).drop_last() =~= choices);
    assert(choices.push(Some(content)).drop_last() =~= choices);
}

/// What the choices of a chunk add is sent in order, each as a delta with all of its text; a failure
/// is told as an error with its words, and the end by the end mark.
pub proof fn law_additions_are_sent_as_they_come(choices: Vec<Option<String>>, detail: String)
    ensures
        delta_step(DeltaEvent::Choices(choices)).events.len() == additions(choices@).len(),
        forall|i: int|
            0 <= i < additions(choices@).len() ==> #[trigger] delta_step(
                DeltaEvent::Choices(choices),
            ).events[i] == (sse::EventView {
                name: Some("delta"@),
                data: additions(choices@)[i],
            }),
        delta_step(DeltaEvent::Failed(detail)).events == seq![
            sse::EventView { name: Some("error"@), data: detail@ },
        ],
        delta_step(DeltaEvent::Ended).events == seq![
            sse::EventView { name: Some("done"@), data: "[DONE]"@ },
        ],
{
}

/// A step holds the events that it is made of, and whether it is the last.
pub proof fn law_steps_hold_what_they_are_made_of(step: StreamStep)
    ensures
        step@.events == sse::event_views(step.events@),
        step@.ends == step.ends,
{
}

} // verus!
