//! What administrators may do with the cache and the keys.

use crate::clock::WallTime;
use crate::digest;
use crate::error::AppError;
use crate::gateway::access;
use crate::gateway::access::QueryParams;
use crate::gateway::api_keys;
use crate::gateway::api_keys::{ApiKeyInfo, ApiKeys, CreateApiKeyResponse};
use crate::gateway::cache;
use crate::gateway::cache::{CacheInfo, ResponseCache};
use crate::order;
use crate::text;
use axum::http::{HeaderMap, HeaderValue};
use vstd::prelude::*;

verus! {

/// The status code of an answer without content.
pub const NO_CONTENT: u16 = 204;

/// Why a request with these headers and this query is refused; none if it is an administrator's.
pub open spec fn refusal(
    expected: Option<&str>,
    headers: HeaderMap<HeaderValue>,
    query: QueryParams,
) -> Option<Seq<char>> {
    access::admin_refusal(
        text::opt_text(expected),
        access::presented_token(access::first_values(headers), query@),
    )
}

/// Whether `r` refuses with this message.
pub open spec fn refuses<T>(r: Result<T, AppError>, message: Seq<char>) -> bool {
    r matches Err(AppError::Unauthorized(m)) && m@ == message
}

/// Shows what is cached and still counts at `now`. What no longer counts is forgotten.
pub fn admin_cache(
    expected: Option<&str>,
    headers: &HeaderMap<HeaderValue>,
    query: &QueryParams,
    cache: &mut ResponseCache,
    now: u64,
) -> (r: Result<Vec<CacheInfo>, AppError>)
    ensures
        match refusal(expected, *headers, *query) {
            Some(message) => refuses(r, message) && final(cache)@ == old(cache)@,
            None => {
                &&& final(cache)@ == cache::live(old(cache)@, now)
                &&& r matches Ok(infos) && cache::shows(
                    order::views(infos@),
                    final(cache)@,
                    now,
                )
            },
        },
{
    match access::require_admin(expected, headers, query) {
        Ok(()) => Ok(cache::cache_entries(cache, now)),
        Err(e) => Err(e),
    }
}

/// Forgets what is cached under `key`, and gives the status code of the answer.
pub fn admin_delete_cache(
    expected: Option<&str>,
    headers: &HeaderMap<HeaderValue>,
    query: &QueryParams,
    cache: &mut ResponseCache,
    key: &str,
) -> (r: Result<u16, AppError>)
    ensures
        match refusal(expected, *headers, *query) {
            Some(message) => refuses(r, message) && final(cache)@ == old(cache)@,
            None => r == Ok::<u16, AppError>(NO_CONTENT) && final(cache)@ == old(cache)@.remove(
                key@,
            ),
        },
{
    match access::require_admin(expected, headers, query) {
        Ok(()) => {
            cache.remove(key);
            Ok(NO_CONTENT)
        },
        Err(e) => Err(e),
    }
}

/// Shows the keys that are accepted.
pub fn admin_api_keys(
    expected: Option<&str>,
    headers: &HeaderMap<HeaderValue>,
    query: &QueryParams,
    keys: &ApiKeys,
) -> (r: Result<Vec<ApiKeyInfo>, AppError>)
    ensures
        match refusal(expected, *headers, *query) {
            Some(message) => refuses(r, message),
            None => r matches Ok(infos) && api_keys::shows(order::views(infos@), keys@),
        },
{
    match access::require_admin(expected, headers, query) {
        Ok(()) => Ok(api_keys::api_key_entries(keys)),
        Err(e) => Err(e),
    }
}

/// Makes a key under the name asked for.
pub fn admin_create_api_key(
    expected: Option<&str>,
    headers: &HeaderMap<HeaderValue>,
    query: &QueryParams,
    keys: &mut ApiKeys,
    requested: Option<&str>,
    created_at: WallTime,
) -> (r: Result<CreateApiKeyResponse, AppError>)
    ensures
        match refusal(expected, *headers, *query) {
            Some(message) => refuses(r, message) && final(keys)@ == old(keys)@,
            None => r matches Ok(made) && {
                let hash = digest::secret_hash(made.key@);
                &&& api_keys::is_gateway_key(made.key@)
                &&& api_keys::answers(
                    made,
                    text::opt_text(requested),
                    made.key@,
                    hash,
                    created_at,
                )
                &&& final(keys)@ == old(keys)@.insert(
                    api_keys::id_of(hash),
                    api_keys::entry_for(
                        hash,
                        made.key@,
                        api_keys::name_for(text::opt_text(requested)),
                        created_at,
                    ),
                )
            },
        },
{
    match access::require_admin(expected, headers, query) {
        Ok(()) => Ok(api_keys::create_api_key(keys, requested, created_at)),
        Err(e) => Err(e),
    }
}

/// Forgets the key with this id, and gives the status code of the answer.
pub fn admin_delete_api_key(
    expected: Option<&str>,
    headers: &HeaderMap<HeaderValue>,
    query: &QueryParams,
    keys: &mut ApiKeys,
    id: &str,
) -> (r: Result<u16, AppError>)
    ensures
        match refusal(expected, *headers, *query) {
            Some(message) => refuses(r, message) && final(keys)@ == old(keys)@,
            None => r == Ok::<u16, AppError>(NO_CONTENT) && final(keys)@ == old(keys)@.remove(id@),
        },
{
    match access::require_admin(expected, headers, query) {
        Ok(()) => {
            keys.remove(id);
            Ok(NO_CONTENT)
        },
        Err(e) => Err(e),
    }
}

// --------------------------------------------------------------------- laws

/// A refusal is an unauthorized request with the message, and comes exactly where an expected token
/// is not presented.
pub proof fn law_administration_is_refused<T>(
    r: Result<T, AppError>,
    message: Seq<char>,
    expected: &str,
    headers: HeaderMap<HeaderValue>,
    query: QueryParams,
)
    ensures
        refuses(r, message) ==> r is Err && r->Err_0 is Unauthorized && r->Err_0.message()
            == message,
        refusal(None, headers, query) is None,
        refusal(Some(expected), headers, query) is None <==> access::presented_token(
            access::first_values(headers),
            query@,
        ) == Some(expected@),
        NO_CONTENT == 204,
{
}

} // verus!
