//! What the dashboard is shown.

use crate::gateway::api_keys;
use crate::gateway::api_keys::{ApiKeyInfo, ApiKeys};
use crate::gateway::cache;
use crate::gateway::cache::{CacheInfo, ResponseCache};
use crate::gateway::relay;
use crate::json;
use crate::json::JsonField;
use crate::number;
use crate::order;
use crate::sse;
use crate::sse::SseEvent;
use crate::text;
use vstd::prelude::*;

verus! {

// ----------------------------------------------------- the worker's accounts

/// How asking the worker for its accounts went.
pub enum AccountsFetch {
    /// The worker answered with this JSON.
    Parsed(serde_json::Value),
    /// The worker answered with something that is not JSON.
    Unparsable,
    /// The worker answered with a status code other than success.
    Refused(u16),
    /// The worker could not be asked.
    Failed(String),
}

/// How asking the worker went where it answered with this status code: its body, read as JSON where
/// it is, counts only where the code tells of success.
pub fn accounts_answer(code: u16, body: Option<serde_json::Value>) -> (r: AccountsFetch)
    ensures
        r == (if !relay::is_success(code) {
            AccountsFetch::Refused(code)
        } else {
            match body {
                Some(value) => AccountsFetch::Parsed(value),
                None => AccountsFetch::Unparsable,
            }
        }),
{
    if !relay::succeeded(code) {
        AccountsFetch::Refused(code)
    } else {
        match body {
            Some(value) => AccountsFetch::Parsed(value),
            None => AccountsFetch::Unparsable,
        }
    }
}

/// The stand-in for a list of accounts that is not to be had.
pub open spec fn no_accounts() -> Map<Seq<char>, json::FieldView> {
    Map::empty().insert("accounts"@, json::FieldView::List(seq![]))
}

/// The stand-in for a list of accounts that is not to be had, with the reason.
pub open spec fn no_accounts_because(reason: Seq<char>) -> Map<Seq<char>, json::FieldView> {
    no_accounts().insert("error"@, json::FieldView::Text(reason))
}

/// What is shown of the worker's accounts: its answer, or a stand-in where there is none.
pub open spec fn shown_accounts(outcome: AccountsFetch) -> json::FieldView {
    match outcome {
        AccountsFetch::Parsed(value) => json::value_view(value),
        AccountsFetch::Unparsable => json::FieldView::Object(no_accounts()),
        AccountsFetch::Refused(code) => json::FieldView::Object(
            no_accounts_because(relay::status_failure(relay::status_text(code))),
        ),
        AccountsFetch::Failed(detail) => json::FieldView::Object(no_accounts_because(detail@)),
    }
}

/// The stand-in for a list of accounts that is not to be had, as a JSON value.
fn no_accounts_value(reason: Option<String>) -> (r: serde_json::Value)
    ensures
        json::value_view(r) == json::FieldView::Object(
            match reason {
                Some(t) => no_accounts_because(t@),
                None => no_accounts(),
            },
        ),
{
    let mut object = json::empty_object();
    let items: Vec<serde_json::Map<String, serde_json::Value>> = Vec::new();
    assert(json::fields_of_each(items@) =~= seq![]);
    json::set_field(&mut object, "accounts", JsonField::List(items));
    if let Some(t) = reason {
        json::set_field(&mut object, "error", JsonField::Text(t));
    }
    json::object_value(object)
}

/// What is shown of the worker's accounts, as a JSON value: its answer as it came, or a stand-in.
pub fn fetch_accounts_json(outcome: AccountsFetch) -> (r: serde_json::Value)
    requires
        outcome matches AccountsFetch::Refused(code) ==> 100 <= code <= 999,
    ensures
        json::value_view(r) == shown_accounts(outcome),
        outcome matches AccountsFetch::Parsed(value) ==> r == value,
        outcome matches AccountsFetch::Refused(code) ==> text::starts_with(
            relay::status_text(code),
            number::decimal(code as nat).push(' '),
        ),
{
    match outcome {
        AccountsFetch::Parsed(value) => value,
        AccountsFetch::Unparsable => no_accounts_value(None),
        AccountsFetch::Refused(code) => no_accounts_value(Some(relay::worker_status(code))),
        AccountsFetch::Failed(detail) => no_accounts_value(Some(detail)),
    }
}

// ----------------------------------------------------------------- the state

/// What is shown of a cached text.
pub open spec fn cache_fields(info: cache::CacheInfoView) -> Map<Seq<char>, json::FieldView> {
    Map::empty().insert("key"@, json::FieldView::Text(info.key)).insert(
        "created_at_unix"@,
        json::FieldView::Number(info.created_at_unix as int),
    ).insert("expires_in_seconds"@, json::FieldView::Number(info.expires_in_seconds as int))
}

/// What is shown of a key.
pub open spec fn key_fields(info: api_keys::KeyInfoView) -> Map<Seq<char>, json::FieldView> {
    Map::empty().insert("id"@, json::FieldView::Text(info.id)).insert(
        "prefix"@,
        json::FieldView::Text(info.prefix),
    ).insert("name"@, json::FieldView::Text(info.name)).insert(
        "created_at_unix"@,
        json::FieldView::Number(info.created_at_unix as int),
    )
}

/// What is shown of the cache and the keys.
pub open spec fn state_fields(
    cached: Seq<cache::CacheInfoView>,
    keys: Seq<api_keys::KeyInfoView>,
) -> Map<Seq<char>, json::FieldView> {
    Map::empty().insert(
        "cache"@,
        json::FieldView::List(cached.map_values(|v: cache::CacheInfoView| cache_fields(v))),
    ).insert(
        "api_keys"@,
        json::FieldView::List(keys.map_values(|v: api_keys::KeyInfoView| key_fields(v))),
    )
}

/// What is shown of cached texts, as JSON objects.
fn cache_objects(infos: &Vec<CacheInfo>) -> (r: Vec<serde_json::Map<String, serde_json::Value>>)
    ensures
        json::fields_of_each(r@) == order::views(infos@).map_values(
            |v: cache::CacheInfoView| cache_fields(v),
        ),
{
    let ghost all = order::views(infos@).map_values(|v: cache::CacheInfoView| cache_fields(v));
    let mut items: Vec<serde_json::Map<String, serde_json::Value>> = Vec::new();
    let mut i: usize = 0;
    assert(json::fields_of_each(items@) =~= all.take(0));
    while i < infos.len()
        invariant
            i <= infos@.len(),
            all == order::views(infos@).map_values(|v: cache::CacheInfoView| cache_fields(v)),
            json::fields_of_each(items@) == all.take(i as int),
        decreases infos@.len() - i,
    {
        let info: &CacheInfo = &infos[i];
        let mut item = json::empty_object();
        json::set_field(&mut item, "key", JsonField::Text(info.key.clone()));
        json::set_field(&mut item, "created_at_unix", JsonField::Count(info.created_at_unix));
        json::set_field(&mut item, "expires_in_seconds", JsonField::Count(info.expires_in_seconds));
        proof {
            json::lemma_fields_push(items@, item);
            assert(all.take(i + 1) =~= all.take(i as int).push(cache_fields(infos@[i as int]@)));
        }
        items.push(item);
        i = i + 1;
    }
    assert(all.take(all.len() as int) =~= all);
    items
}

/// What is shown of keys, as JSON objects.
fn key_objects(infos: &Vec<ApiKeyInfo>) -> (r: Vec<serde_json::Map<String, serde_json::Value>>)
    ensures
        json::fields_of_each(r@) == order::views(infos@).map_values(
            |v: api_keys::KeyInfoView| key_fields(v),
        ),
{
    let ghost all = order::views(infos@).map_values(|v: api_keys::KeyInfoView| key_fields(v));
    let mut items: Vec<serde_json::Map<String, serde_json::Value>> = Vec::new();
    let mut i: usize = 0;
    assert(json::fields_of_each(items@) =~= all.take(0));
    while i < infos.len()
        invariant
            i <= infos@.len(),
            all == order::views(infos@).map_values(|v: api_keys::KeyInfoView| key_fields(v)),
            json::fields_of_each(items@) == all.take(i as int),
        decreases infos@.len() - i,
    {
        let info: &ApiKeyInfo = &infos[i];
        let mut item = json::empty_object();
        json::set_field(&mut item, "id", JsonField::Text(info.id.clone()));
        json::set_field(&mut item, "prefix", JsonField::Text(info.prefix.clone()));
        json::set_field(&mut item, "name", JsonField::Text(info.name.clone()));
        json::set_field(&mut item, "created_at_unix", JsonField::Count(info.created_at_unix));
        proof {
            json::lemma_fields_push(items@, item);
            assert(all.take(i + 1) =~= all.take(i as int).push(key_fields(infos@[i as int]@)));
        }
        items.push(item);
        i = i + 1;
    }
    assert(all.take(all.len() as int) =~= all);
    items
}

/// What is shown of the cache and the keys, as a JSON object.
pub fn state_object(cached: &Vec<CacheInfo>, keys: &Vec<ApiKeyInfo>) -> (r: serde_json::Map<
    String,
    serde_json::Value,
>)
    ensures
        json::object_fields(r) == state_fields(order::views(cached@), order::views(keys@)),
{
    let mut object = json::empty_object();
    json::set_field(&mut object, "cache", JsonField::List(cache_objects(cached)));
    json::set_field(&mut object, "api_keys", JsonField::List(key_objects(keys)));
    object
}

/// Whether `fields` show what `entries` and `keys` hold at `now`.
pub open spec fn shows_state(
    fields: Map<Seq<char>, json::FieldView>,
    entries: Map<Seq<char>, cache::CachedView>,
    keys: Map<Seq<char>, api_keys::KeyView>,
    now: u64,
) -> bool {
    exists|c: Seq<cache::CacheInfoView>, k: Seq<api_keys::KeyInfoView>|
        cache::shows(c, entries, now) && api_keys::shows(k, keys) && fields == #[trigger]
        state_fields(c, k)
}

/// What is shown of the cache and the keys at `now`, as a JSON object. Cached texts that no longer
/// count are forgotten.
pub fn current_state(cache: &mut ResponseCache, keys: &ApiKeys, now: u64) -> (r: serde_json::Map<
    String,
    serde_json::Value,
>)
    ensures
        final(cache)@ == cache::live(old(cache)@, now),
        shows_state(json::object_fields(r), final(cache)@, keys@, now),
{
    let cached = cache::cache_entries(cache, now);
    let listed = api_keys::api_key_entries(keys);
    let object = state_object(&cached, &listed);
    assert(json::object_fields(object) == state_fields(
        order::views(cached@),
        order::views(listed@),
    ));
    object
}

/// The event that tells the dashboard how things are at `now`: the worker's accounts, the cache and
/// the keys. Cached texts that no longer count are forgotten.
pub fn state_event(
    cache: &mut ResponseCache,
    keys: &ApiKeys,
    accounts: serde_json::Value,
    now: u64,
) -> (r: SseEvent)
    ensures
        final(cache)@ == cache::live(old(cache)@, now),
        exists|fields: Map<Seq<char>, json::FieldView>| #[trigger]
            shows_state(fields, final(cache)@, keys@, now) && r@ == sse::named(
                "state"@,
                json::object_text(fields.insert("accounts"@, json::value_view(accounts))),
            ),
{
    let mut object = current_state(cache, keys, now);
    let ghost fields = json::object_fields(object);
    json::set_field(&mut object, "accounts", JsonField::Raw(accounts));
    let event = SseEvent::new("state", json::write_object(object));
    assert(shows_state(fields, cache@, keys@, now));
    event
}

// --------------------------------------------------------------------- laws

/// What the dashboard is shown has exactly three fields: the accounts, the cache and the keys.
pub proof fn law_state_has_three_fields(
    fields: Map<Seq<char>, json::FieldView>,
    accounts: json::FieldView,
    entries: Map<Seq<char>, cache::CachedView>,
    keys: Map<Seq<char>, api_keys::KeyView>,
    now: u64,
)
    requires
        shows_state(fields, entries, keys, now),
    ensures
        fields.insert("accounts"@, accounts).dom() == set!["accounts"@, "cache"@, "api_keys"@],
        fields.insert("accounts"@, accounts)["accounts"@] == accounts,
        fields.insert("accounts"@, accounts)["cache"@] == fields["cache"@],
        fields.insert("accounts"@, accounts)["api_keys"@] == fields["api_keys"@],
{
    reveal_strlit("accounts");
    reveal_strlit("cache");
    reveal_strlit("api_keys");
    assert("accounts"@.len() == 8 && "cache"@.len() == 5);
    assert("accounts"@[1] == 'c' && "api_keys"@[1] == 'p');
    assert(fields.insert("accounts"@, accounts).dom() =~= set![
        "accounts"@,
        "cache"@,
        "api_keys"@,
    ]);
}

/// What is shown of the worker's accounts: the answer as it came, or an empty list, with the reason
/// where there is one to tell.
pub proof fn law_accounts_are_shown(value: serde_json::Value, code: u16, detail: String)
    ensures
        shown_accounts(AccountsFetch::Parsed(value)) == json::value_view(value),
        shown_accounts(AccountsFetch::Unparsable) == json::FieldView::Object(
            map!["accounts"@ => json::FieldView::List(seq![])],
        ),
        shown_accounts(AccountsFetch::Refused(code)) == json::FieldView::Object(
            map!["accounts"@ => json::FieldView::List(seq![]), "error"@ => json::FieldView::Text(
                "worker status "@ + relay::status_text(code))],
        ),
        shown_accounts(AccountsFetch::Failed(detail)) == json::FieldView::Object(
            map!["accounts"@ => json::FieldView::List(seq![]), "error"@ => json::FieldView::Text(
                detail@)],
        ),
{
}

/// What is shown of a cached text and of a key has their fields, each whole, and no others.
pub proof fn law_shown_fields(c: cache::CacheInfoView, k: api_keys::KeyInfoView)
    ensures
        cache_fields(c).dom() == set!["key"@, "created_at_unix"@, "expires_in_seconds"@],
        cache_fields(c)["key"@] == json::FieldView::Text(c.key),
        cache_fields(c)["created_at_unix"@] == json::FieldView::Number(c.created_at_unix as int),
        cache_fields(c)["expires_in_seconds"@] == json::FieldView::Number(
            c.expires_in_seconds as int,
        ),
        key_fields(k).dom() == set!["id"@, "prefix"@, "name"@, "created_at_unix"@],
        key_fields(k)["id"@] == json::FieldView::Text(k.id),
        key_fields(k)["prefix"@] == json::FieldView::Text(k.prefix),
        key_fields(k)["name"@] == json::FieldView::Text(k.name),
        key_fields(k)["created_at_unix"@] == json::FieldView::Number(k.created_at_unix as int),
{
    reveal_strlit("key");
    reveal_strlit("created_at_unix");
    reveal_strlit("expires_in_seconds");
    reveal_strlit("id");
    reveal_strlit("prefix");
    reveal_strlit("name");
    assert("key"@.len() == 3 && "created_at_unix"@.len() == 15 && "expires_in_seconds"@.len()
        == 18);
    assert("id"@.len() == 2 && "prefix"@.len() == 6 && "name"@.len() == 4);
    assert(cache_fields(c).dom() =~= set!["key"@, "created_at_unix"@, "expires_in_seconds"@]);
    assert(key_fields(k).dom() =~= set!["id"@, "prefix"@, "name"@, "created_at_unix"@]);
}

/// The state shows each listed text and each listed key, one for one and in order.
pub proof fn law_state_shows_every_item(
    cached: Seq<cache::CacheInfoView>,
    keys: Seq<api_keys::KeyInfoView>,
)
    ensures
        state_fields(cached, keys).dom() == set!["cache"@, "api_keys"@],
        state_fields(cached, keys)["cache"@] matches json::FieldView::List(list) && list.len()
            == cached.len() && forall|i: int|
            0 <= i < cached.len() ==> #[trigger] list[i] == cache_fields(cached[i]),
        state_fields(cached, keys)["api_keys"@] matches json::FieldView::List(list) && list.len()
            == keys.len() && forall|i: int|
            0 <= i < keys.len() ==> #[trigger] list[i] == key_fields(keys[i]),
{
    reveal_strlit("cache");
    reveal_strlit("api_keys");
    assert("cache"@.len() == 5 && "api_keys"@.len() == 8);
    assert(state_fields(cached, keys).dom() =~= set!["cache"@, "api_keys"@]);
}

/// What is shown as the state is a listing of the cache and one of the keys.
pub proof fn law_state_is_of_the_cache_and_the_keys(
    fields: Map<Seq<char>, json::FieldView>,
    entries: Map<Seq<char>, cache::CachedView>,
    keys: Map<Seq<char>, api_keys::KeyView>,
    now: u64,
) -> (r: (Seq<cache::CacheInfoView>, Seq<api_keys::KeyInfoView>))
    requires
        shows_state(fields, entries, keys, now),
    ensures
        cache::shows(r.0, entries, now),
        api_keys::shows(r.1, keys),
        fields == state_fields(r.0, r.1),
{
    let (c, k) = choose|c: Seq<cache::CacheInfoView>, k: Seq<api_keys::KeyInfoView>|
        cache::shows(c, entries, now) && api_keys::shows(k, keys) && fields == #[trigger]
        state_fields(c, k);
    (c, k)
}

} // verus!
