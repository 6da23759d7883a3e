//! Requests to the model, and what becomes of those that fail.

use crate::error::{ErrorReply, WorkerError};
use crate::gateway::chunking;
use crate::json;
use crate::json::JsonField;
use crate::number;
use crate::offsets;
use crate::text;
use vstd::prelude::*;
use vstd::utf8::*;

verus! {

/// The most bytes that the body of a request may have.
pub const MAX_CHUNK_BYTES: usize = 262_144;

// ----------------------------------------------------------------------- ids

/// Hands out the ids of requests.
#[derive(Debug)]
pub struct RequestCounter {
    next: u64,
}

impl View for RequestCounter {
    type V = u64;

    closed spec fn view(&self) -> u64 {
        self.next
    }
}

/// The id with this number.
pub open spec fn request_id(n: u64) -> Seq<char> {
    "worker-"@ + number::decimal(n as nat)
}

/// The number behind `n`. The largest one is followed by zero.
pub open spec fn following(n: u64) -> u64 {
    if n == u64::MAX {
        0
    } else {
        (n + 1) as u64
    }
}

impl RequestCounter {
    /// A counter whose first id has the number one.
    pub fn new() -> (r: Self)
        ensures
            r@ == 1,
    {
        RequestCounter { next: 1 }
    }
}

/// The next id.
pub fn next_request_id(counter: &mut RequestCounter) -> (r: String)
    ensures
        r@ == request_id(old(counter)@),
        final(counter)@ == following(old(counter)@),
{
    let n: u64 = counter.next;
    counter.next = if n == u64::MAX {
        0
    } else {
        n + 1
    };
    let mut id = String::new();
    id.append("worker-");
    id.append(number::decimal_text(n).as_str());
    assert(id@ =~= request_id(n));
    id
}

// ---------------------------------------------------------------- compression

/// Why a body cannot be compressed; none if it can.
pub open spec fn payload_refusal(body: Seq<u8>) -> Option<Seq<char>> {
    if body.len() == 0 {
        Some("payload is empty"@)
    } else if !valid_utf8(body) {
        Some("payload must be valid UTF-8 text"@)
    } else {
        None
    }
}

/// The text to compress. An empty body and one that is not UTF-8 text are refused.
pub fn payload_text(body: &[u8]) -> (r: Result<String, WorkerError>)
    ensures
        match r {
            Ok(payload) => payload_refusal(body@) is None && encode_utf8(payload@) == body@,
            Err(WorkerError::BadRequest(message)) => payload_refusal(body@) == Some(message@),
            Err(_) => false,
        },
{
    if body.len() == 0 {
        return Err(WorkerError::BadRequest("payload is empty".to_string()));
    }
    match offsets::utf8_text(body) {
        Some(payload) => Ok(payload.to_string()),
        None => Err(WorkerError::BadRequest("payload must be valid UTF-8 text".to_string())),
    }
}

/// One message of a conversation.
pub open spec fn message_fields(role: Seq<char>, content: Seq<char>) -> Map<
    Seq<char>,
    json::FieldView,
> {
    Map::empty().insert("role"@, json::FieldView::Text(role)).insert(
        "content"@,
        json::FieldView::Text(content),
    )
}

/// The fields of a request to compress `payload`: a streamed conversation of the prompt and the
/// text, with the usage told at the end.
pub open spec fn compression_fields(
    model: Seq<char>,
    prompt: Seq<char>,
    payload: Seq<char>,
) -> Map<Seq<char>, json::FieldView> {
    Map::empty().insert("model"@, json::FieldView::Text(model)).insert(
        "stream"@,
        json::FieldView::Flag(true),
    ).insert(
        "stream_options"@,
        json::FieldView::Object(
            Map::empty().insert("include_usage"@, json::FieldView::Flag(true)),
        ),
    ).insert(
        "messages"@,
        json::FieldView::List(
            seq![message_fields("system"@, prompt), message_fields("user"@, payload)],
        ),
    )
}

/// One message of a conversation, as a JSON object.
fn message_object(role: &str, content: &str) -> (r: serde_json::Map<String, serde_json::Value>)
    ensures
        json::object_fields(r) == message_fields(role@, content@),
{
    let mut object = json::empty_object();
    json::set_field(&mut object, "role", JsonField::Text(role.to_string()));
    json::set_field(&mut object, "content", JsonField::Text(content.to_string()));
    object
}

/// A request to compress `payload`, as a JSON value.
pub fn build_compression_request(model: &str, prompt: &str, payload: &str) -> (r: serde_json::Value)
    ensures
        json::value_view(r) == json::FieldView::Object(
            compression_fields(model@, prompt@, payload@),
        ),
{
    let mut options = json::empty_object();
    json::set_field(&mut options, "include_usage", JsonField::Flag(true));
    let mut messages: Vec<serde_json::Map<String, serde_json::Value>> = Vec::new();
    messages.push(message_object("system", prompt));
    messages.push(message_object("user", payload));
    assert(json::fields_of_each(messages@) =~= seq![
        message_fields("system"@, prompt@),
        message_fields("user"@, payload@),
    ]);
    let mut object = json::empty_object();
    json::set_field(&mut object, "model", JsonField::Text(model.to_string()));
    json::set_field(&mut object, "stream", JsonField::Flag(true));
    json::set_field(&mut object, "stream_options", JsonField::Object(options));
    json::set_field(&mut object, "messages", JsonField::List(messages));
    json::object_value(object)
}

/// The error that a failed compression gives: where no account was to be had, that all are busy.
pub fn compression_failed(message: String) -> (r: WorkerError)
    ensures
        if text::contains(message@, "no available account"@) {
            r is Busy
        } else {
            r matches WorkerError::Internal(m) && m@ == message@
        },
{
    if text::has_text(message.as_str(), "no available account") {
        WorkerError::Busy
    } else {
        WorkerError::Internal(message)
    }
}

/// Whether the model's answer to a compression will do: it has to be a stream.
pub fn accept_compression(streamed: bool) -> (r: Result<(), WorkerError>)
    ensures
        match r {
            Ok(()) => streamed,
            Err(WorkerError::Internal(message)) => !streamed && message@
                == "compression request did not return a stream"@,
            Err(_) => false,
        },
{
    if streamed {
        Ok(())
    } else {
        Err(WorkerError::Internal("compression request did not return a stream".to_string()))
    }
}

// ----------------------------------------------------------------------- chat

/// The error that a failed chat gives.
pub fn chat_failed(message: String) -> (r: WorkerError)
    ensures
        r matches WorkerError::Internal(m) && m@ == message@,
{
    WorkerError::Internal(message)
}

/// Whether the model's answer to a chat request will do: a stream always, anything else where no
/// stream was asked for.
pub fn accept_chat(streamed: bool, stream_requested: bool) -> (r: Result<(), WorkerError>)
    ensures
        match r {
            Ok(()) => streamed || !stream_requested,
            Err(WorkerError::Internal(message)) => !streamed && stream_requested && message@
                == "stream request returned JSON response"@,
            Err(_) => false,
        },
{
    if !streamed && stream_requested {
        Err(WorkerError::Internal("stream request returned JSON response".to_string()))
    } else {
        Ok(())
    }
}

/// What is said of a model that does not exist.
pub open spec fn model_unknown(id: Seq<char>) -> Seq<char> {
    "model not found: "@ + id
}

/// The answer to a request for a model that does not exist.
pub fn model_not_found(id: &str) -> (r: ErrorReply)
    ensures
        r.status == 404,
        r.body@ == json::object_text(json::error_fields(model_unknown(id@))),
{
    let mut message = String::new();
    message.append("model not found: ");
    message.append(id);
    assert(message@ =~= model_unknown(id@));
    ErrorReply { status: 404, body: json::error_json(message) }
}

// --------------------------------------------------------------------- laws

/// The number of the id that is handed out after `n` others.
pub open spec fn numbered(first: u64, n: nat) -> u64
    decreases n,
{
    if n == 0 {
        first
    } else {
        following(numbered(first, (n - 1) as nat))
    }
}

/// The numbers go round the whole range.
proof fn lemma_numbered(first: u64, n: nat)
    ensures
        numbered(first, n) == (first + n) % 0x1_0000_0000_0000_0000,
    decreases n,
{
    if n > 0 {
        lemma_numbered(first, (n - 1) as nat);
    }
}

/// The ids of any two requests differ, unless as many lie between them as there are numbers.
pub proof fn law_request_ids_differ(first: u64, m: nat, n: nat)
    requires
        m < n < m + 0x1_0000_0000_0000_0000,
    ensures
        request_id(numbered(first, m)) != request_id(numbered(first, n)),
{
    let a = numbered(first, m);
    let b = numbered(first, n);
    lemma_numbered(first, m);
    lemma_numbered(first, n);
    assert(a != b);
    if request_id(a) == request_id(b) {
        let k = "worker-"@.len() as int;
        assert(request_id(a).skip(k) =~= number::decimal(a as nat));
        assert(request_id(b).skip(k) =~= number::decimal(b as nat));
        number::law_decimal_is_injective(a as nat, b as nat);
    }
}

/// A text takes at most four bytes for each character.
proof fn lemma_encoded_size(s: Seq<char>)
    ensures
        s.len() <= encode_utf8(s).len() <= 4 * s.len(),
    decreases s.len(),
{
    if s.len() > 0 {
        lemma_encoded_size(s.drop_first());
        char_is_scalar(s[0]);
        assert(encode_scalar(s[0] as u32).len() <= 4);
    }
}

/// The worker takes every chunk that the gateway cuts a text into: none is too large, empty or not
/// UTF-8.
pub proof fn law_worker_takes_every_chunk(body: Seq<u8>, i: int)
    requires
        0 <= i < chunking::body_chunks(body).len(),
    ensures
        payload_refusal(chunking::body_chunks(body)[i]) is None,
        chunking::body_chunks(body)[i].len() <= MAX_CHUNK_BYTES,
{
    let s = decode_utf8(body);
    let max = chunking::MAX_CHUNK_CHARS as nat;
    let parts = chunking::chunks(s, max);
    chunking::law_chunks_fit(s, max);
    assert(chunking::body_chunks(body)[i] == encode_utf8(parts[i]));
    assert(parts[i].len() <= max);
    lemma_encoded_size(parts[i]);
    encode_utf8_valid_utf8(parts[i]);
}

/// A request's id is a mark and its number in decimal, and the numbers follow one another.
pub proof fn law_request_id(n: u64)
    ensures
        request_id(n) == seq!['w', 'o', 'r', 'k', 'e', 'r', '-'] + number::decimal(n as nat),
        n < u64::MAX ==> following(n) == n + 1,
        following(u64::MAX) == 0,
{
    reveal_strlit("worker-");
    assert("worker-"@ =~= seq!['w', 'o', 'r', 'k', 'e', 'r', '-']);
}

/// A payload is taken exactly where it is text and not empty.
pub proof fn law_payload(s: Seq<char>, body: Seq<u8>)
    ensures
        s.len() > 0 ==> payload_refusal(encode_utf8(s)) is None,
        payload_refusal(seq![]) == Some("payload is empty"@),
        body.len() > 0 && !valid_utf8(body) ==> payload_refusal(body) == Some(
            "payload must be valid UTF-8 text"@,
        ),
{
    encode_utf8_valid_utf8(s);
    lemma_encoded_size(s);
}

/// A request asks for a stream with the usage, of the model, and has exactly two messages: the
/// system's is the prompt and the user's is the text, each character for character.
pub proof fn law_request_asks_for_the_whole_text(
    model: Seq<char>,
    prompt: Seq<char>,
    payload: Seq<char>,
)
    ensures
        compression_fields(model, prompt, payload).dom() == set![
            "model"@,
            "stream"@,
            "stream_options"@,
            "messages"@,
        ],
        compression_fields(model, prompt, payload)["model"@] == json::FieldView::Text(model),
        compression_fields(model, prompt, payload)["stream"@] == json::FieldView::Flag(true),
        compression_fields(model, prompt, payload)["stream_options"@] == json::FieldView::Object(
            map!["include_usage"@ => json::FieldView::Flag(true)],
        ),
        compression_fields(model, prompt, payload)["messages"@] == json::FieldView::List(
            seq![
                map!["role"@ => json::FieldView::Text("system"@), "content"@ =>
                    json::FieldView::Text(prompt)],
                map!["role"@ => json::FieldView::Text("user"@), "content"@ =>
                    json::FieldView::Text(payload)],
            ],
        ),
{
    reveal_strlit("model");
    reveal_strlit("stream");
    reveal_strlit("stream_options");
    reveal_strlit("messages");
    let fields = compression_fields(model, prompt, payload);
    assert("model"@.len() == 5 && "stream"@.len() == 6 && "stream_options"@.len() == 14
        && "messages"@.len() == 8);
    assert(fields.dom() =~= set!["model"@, "stream"@, "stream_options"@, "messages"@]);
    assert(message_fields("system"@, prompt) =~= map!["role"@ => json::FieldView::Text("system"@),
        "content"@ => json::FieldView::Text(prompt)]);
    assert(message_fields("user"@, payload) =~= map!["role"@ => json::FieldView::Text("user"@),
        "content"@ => json::FieldView::Text(payload)]);
}

/// The text of the user's message in a request.
pub open spec fn asked_text(fields: Map<Seq<char>, json::FieldView>) -> Seq<char> {
    fields["messages"@]->List_0[1]["content"@]->Text_0
}

/// Requests for different texts differ, and what the gateway posts as a chunk is what the model is
/// asked to compress.
pub proof fn law_posted_chunk_is_what_is_asked(
    model: Seq<char>,
    prompt: Seq<char>,
    a: Seq<char>,
    b: Seq<char>,
    chunk: Seq<u8>,
)
    ensures
        asked_text(compression_fields(model, prompt, a)) == a,
        compression_fields(model, prompt, a) == compression_fields(model, prompt, b) ==> a == b,
        encode_utf8(a) == chunk ==> encode_utf8(asked_text(compression_fields(model, prompt, a)))
            == chunk,
{
    law_request_asks_for_the_whole_text(model, prompt, a);
    law_request_asks_for_the_whole_text(model, prompt, b);
    reveal_strlit("role");
    reveal_strlit("content");
    assert("role"@.len() == 4 && "content"@.len() == 7);
}

/// What is said of an unknown model names it whole.
pub proof fn law_unknown_model_is_named(id: Seq<char>)
    ensures
        model_unknown(id) == "model not found: "@ + id,
{
}

} // verus!
