//! How a request to compress a text begins: refused, answered from the cache, or relayed.

use crate::clock::WallTime;
use crate::digest;
use crate::error::AppError;
use crate::gateway::access;
use crate::gateway::api_keys::ApiKeys;
use crate::gateway::cache;
use crate::gateway::cache::ResponseCache;
use crate::gateway::chunking;
use crate::gateway::relay;
use crate::gateway::relay::Relay;
use crate::sse;
use crate::sse::SseEvent;
use crate::text;
use axum::http::{HeaderMap, HeaderValue};
use vstd::prelude::*;

verus! {

/// How a request that is let in goes on.
pub enum CompressStart {
    /// The text was compressed before: these events are the whole answer.
    Cached(Vec<SseEvent>),
    /// The text goes to the worker.
    Relayed(Relay),
}

/// The answer to a request whose compressed text is cached.
pub open spec fn replayed(value: Seq<char>) -> Seq<sse::EventView> {
    seq![sse::named("compressed"@, value), sse::done_event()]
}

/// `r` is how a request with this key and this body begins at `now`, and `after` is what the cache
/// `before` has become.
pub open spec fn begins(
    r: Result<CompressStart, AppError>,
    before: Map<Seq<char>, cache::CachedView>,
    after: Map<Seq<char>, cache::CachedView>,
    key: Seq<char>,
    body: Seq<u8>,
    now: u64,
) -> bool {
    match cache::hit(before, key, now) {
        Some(value) => {
            &&& after == before
            &&& r matches Ok(CompressStart::Cached(events)) && sse::event_views(events@)
                == replayed(value)
        },
        None => {
            &&& after == before.remove(key)
            &&& match chunking::body_refusal(body) {
                Some(message) => r matches Err(AppError::BadRequest(m)) && m@ == message,
                None => r matches Ok(CompressStart::Relayed(relay)) && relay@ == relay::fresh(
                    key,
                    chunking::body_chunks(body),
                ),
            }
        },
    }
}

/// Begins a request whose compressed text is cached under `key`, if at all.
pub fn start_compress(cache: &mut ResponseCache, key: String, body: &[u8], now: u64) -> (r: Result<
    CompressStart,
    AppError,
>)
    ensures
        begins(r, old(cache)@, final(cache)@, key@, body@, now),
{
    match cache::cache_get(cache, key.as_str(), now) {
        Some(value) => {
            let mut events: Vec<SseEvent> = Vec::new();
            events.push(SseEvent::new("compressed", value));
            events.push(SseEvent::done());
            assert(sse::event_views(events@) =~= replayed(value@));
            Ok(CompressStart::Cached(events))
        },
        None => match chunking::split_semantic(body) {
            Ok(chunks) => {
                let relay = Relay::new(key, chunks);
                assert(relay@.chunks =~= chunking::body_chunks(body@));
                Ok(CompressStart::Relayed(relay))
            },
            Err(e) => Err(e),
        },
    }
}

/// Begins a request to compress `body`: a client without a key that is asked for is refused, and
/// the cache is asked before the worker is.
pub fn compress(
    require_api_key: bool,
    keys: &ApiKeys,
    cache: &mut ResponseCache,
    headers: &HeaderMap<HeaderValue>,
    body: &[u8],
    now: u64,
) -> (r: Result<CompressStart, AppError>)
    ensures
        match access::client_refusal(
            require_api_key,
            keys@,
            access::presented_hash(access::first_values(*headers)),
        ) {
            Some(message) => {
                &&& r matches Err(AppError::Unauthorized(m)) && m@ == message
                &&& final(cache)@ == old(cache)@
            },
            None => begins(
                r,
                old(cache)@,
                final(cache)@,
                digest::digest_text(body@),
                body@,
                now,
            ),
        },
{
    match access::require_client_api_key(require_api_key, keys, headers) {
        Err(e) => Err(e),
        Ok(()) => {
            let key = digest::cache_key(body);
            start_compress(cache, key, body, now)
        },
    }
}

/// A request that is repeated within a day is answered with what the client of the first one was
/// sent: one event that holds all the pieces, joined, and the end mark.
pub proof fn law_repeated_request_gets_what_was_sent(
    m: Map<Seq<char>, cache::CachedView>,
    key: Seq<char>,
    chunks: Seq<Seq<u8>>,
    events: Seq<relay::HappenedView>,
    last: relay::HappenedView,
    value: Seq<char>,
    created_at: WallTime,
    stored_at: u64,
    asked_at: u64,
    after: Map<Seq<char>, cache::CachedView>,
    body: Seq<u8>,
    r: Result<CompressStart, AppError>,
)
    requires
        relay::action(relay::run(relay::fresh(key, chunks), events), last) == (
        relay::ActionView::Finish { key, value, event: sse::done_event() }),
        stored_at <= asked_at < stored_at + cache::CACHE_TTL_NANOS <= u64::MAX,
        begins(
            r,
            cache::stored(m, key, value, created_at, stored_at),
            after,
            key,
            body,
            asked_at,
        ),
    ensures
        r matches Ok(CompressStart::Cached(reply)) && sse::event_views(reply@) == replayed(
            text::concat(relay::data_of(relay::sent(relay::fresh(key, chunks), events))),
        ),
{
    relay::law_kept_text_is_what_was_sent(key, chunks, events, last);
    cache::law_stored_text_is_read_back(m, key, value, created_at, stored_at, asked_at);
}

// --------------------------------------------------------------------- laws

/// A cached text is answered with one event that holds all of it, as it is kept, and the end mark,
/// and the cache stays as it was.
pub proof fn law_cached_text_is_answered_whole(
    r: Result<CompressStart, AppError>,
    before: Map<Seq<char>, cache::CachedView>,
    after: Map<Seq<char>, cache::CachedView>,
    key: Seq<char>,
    body: Seq<u8>,
    now: u64,
)
    requires
        begins(r, before, after, key, body, now),
        before.contains_key(key),
        now < before[key].expires_at,
    ensures
        after == before,
        r matches Ok(CompressStart::Cached(events)) && events@.len() == 2 && sse::event_views(
            events@,
        )[0] == (sse::EventView {
            name: Some("compressed"@),
            data: before[key].value,
        }) && sse::event_views(events@)[1] == (sse::EventView {
            name: Some("done"@),
            data: "[DONE]"@,
        }),
{
    if let Ok(CompressStart::Cached(events)) = r {
        assert(sse::event_views(events@).len() == events@.len());
    }
}

/// Where nothing is cached, the chunks of the body are relayed, all of them and under the key, or
/// the body is refused; what no longer counts under the key is forgotten, and nothing else.
pub proof fn law_uncached_body_is_relayed_or_refused(
    r: Result<CompressStart, AppError>,
    before: Map<Seq<char>, cache::CachedView>,
    after: Map<Seq<char>, cache::CachedView>,
    key: Seq<char>,
    body: Seq<u8>,
    now: u64,
)
    requires
        begins(r, before, after, key, body, now),
        !before.contains_key(key) || before[key].expires_at <= now,
    ensures
        after == before.remove(key),
        chunking::body_refusal(body) is None ==> r is Ok && r->Ok_0 is Relayed
            && r->Ok_0->Relayed_0@ == relay::fresh(key, chunking::body_chunks(body)),
        chunking::body_refusal(body) matches Some(message) ==> r is Err && r->Err_0 is BadRequest
            && r->Err_0.message() == message,
{
}

} // verus!
