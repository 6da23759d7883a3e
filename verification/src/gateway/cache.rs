//! Compressed texts that are kept for a day.

use crate::clock;
use crate::clock::WallTime;
use crate::gateway::table;
use crate::order;
use crate::order::Ranked;
use crate::text;
use dashmap::DashMap;
use vstd::prelude::*;

verus! {

/// How long a compressed text is kept, in nanoseconds.
pub const CACHE_TTL_NANOS: u64 = 86_400_000_000_000;

/// A compressed text, when it was made, and the reading of the monotonic clock (nanoseconds) from
/// which it no longer counts.
#[derive(Debug)]
pub struct CacheEntry {
    pub value: String,
    pub created_at: WallTime,
    pub expires_at: u64,
}

/// What a cache entry holds.
pub struct CachedView {
    pub value: Seq<char>,
    pub created_at: WallTime,
    pub expires_at: u64,
}

impl View for CacheEntry {
    type V = CachedView;

    open spec fn view(&self) -> CachedView {
        CachedView {
            value: self.value@,
            created_at: self.created_at,
            expires_at: self.expires_at,
        }
    }
}

impl Clone for CacheEntry {
    fn clone(&self) -> (r: Self)
        ensures
            r@ == self@,
    {
        CacheEntry {
            value: self.value.clone(),
            created_at: self.created_at,
            expires_at: self.expires_at,
        }
    }
}

/// What is shown of a cached text.
#[derive(Debug)]
pub struct CacheInfo {
    pub key: String,
    pub created_at_unix: u64,
    pub expires_in_seconds: u64,
}

/// What a [`CacheInfo`] holds.
pub struct CacheInfoView {
    pub key: Seq<char>,
    pub created_at_unix: u64,
    pub expires_in_seconds: u64,
}

impl View for CacheInfo {
    type V = CacheInfoView;

    open spec fn view(&self) -> CacheInfoView {
        CacheInfoView {
            key: self.key@,
            created_at_unix: self.created_at_unix,
            expires_in_seconds: self.expires_in_seconds,
        }
    }
}

impl Ranked for CacheInfo {
    open spec fn rank(v: CacheInfoView) -> Seq<int> {
        order::text_rank(v.key)
    }

    fn comes_before(&self, other: &Self) -> (r: bool) {
        order::text_before(self.key.as_str(), other.key.as_str())
    }
}

// ---------------------------------------------------------- the outside map

/// What a map of cache entries holds. A map that is shared could change at any time; the ones that
/// this speaks of are owned by a [`ResponseCache`], and every change takes `&mut`.
pub uninterp spec fn cached(m: DashMap<String, CacheEntry>) -> Map<Seq<char>, CachedView>;

/// The pairs of a list of keys and entries.
pub open spec fn pair_views(s: Seq<(String, CacheEntry)>) -> Seq<(Seq<char>, CachedView)> {
    s.map_values(|p: (String, CacheEntry)| (p.0@, p.1@))
}

/// `DashMap::new` makes an empty map.
#[verifier::external_body]
fn no_entries() -> (r: DashMap<String, CacheEntry>)
    ensures
        cached(r) == (Map::<Seq<char>, CachedView>::empty()),
{
    DashMap::new()
}

/// `DashMap::insert` puts an entry under a key, in place of the one that stood there.
#[verifier::external_body]
fn put_entry(m: &mut DashMap<String, CacheEntry>, key: String, entry: CacheEntry)
    ensures
        cached(*final(m)) == cached(*old(m)).insert(key@, entry@),
{
    m.insert(key, entry);
}

/// `DashMap::get` finds the entry under a key, if there is one.
#[verifier::external_body]
fn find_entry(m: &DashMap<String, CacheEntry>, key: &str) -> (r: Option<CacheEntry>)
    ensures
        r is Some <==> cached(*m).contains_key(key@),
        r matches Some(entry) ==> entry@ == cached(*m)[key@],
{
    m.get(key).map(|entry| entry.value().clone())
}

/// `DashMap::remove` takes a key and its entry out, if the key is there.
#[verifier::external_body]
fn drop_entry(m: &mut DashMap<String, CacheEntry>, key: &str)
    ensures
        cached(*final(m)) == cached(*old(m)).remove(key@),
{
    m.remove(key);
}

/// `DashMap::iter` walks over every key with its entry, each once, in no particular order.
#[verifier::external_body]
fn all_entries(m: &DashMap<String, CacheEntry>) -> (r: Vec<(String, CacheEntry)>)
    ensures
        table::lists(pair_views(r@), cached(*m)),
{
    m.iter().map(|item| (item.key().clone(), item.value().clone())).collect()
}

// ---------------------------------------------------------------- the cache

/// Compressed texts by the key of what they were made from.
pub struct ResponseCache {
    entries: DashMap<String, CacheEntry>,
}

impl View for ResponseCache {
    type V = Map<Seq<char>, CachedView>;

    closed spec fn view(&self) -> Map<Seq<char>, CachedView> {
        cached(self.entries)
    }
}

/// The text that the cache has for `key` at `now`.
pub open spec fn hit(m: Map<Seq<char>, CachedView>, key: Seq<char>, now: u64) -> Option<Seq<char>> {
    if m.contains_key(key) && m[key].expires_at > now {
        Some(m[key].value)
    } else {
        None
    }
}

/// The entries that still count at `now`.
pub open spec fn live(m: Map<Seq<char>, CachedView>, now: u64) -> Map<Seq<char>, CachedView> {
    m.restrict(Set::new(|k: Seq<char>| m.contains_key(k) && m[k].expires_at > now))
}

/// The cache after `value` has been stored at `now`.
pub open spec fn stored(
    m: Map<Seq<char>, CachedView>,
    key: Seq<char>,
    value: Seq<char>,
    created_at: WallTime,
    now: u64,
) -> Map<Seq<char>, CachedView> {
    m.insert(
        key,
        CachedView { value, created_at, expires_at: (now + CACHE_TTL_NANOS) as u64 },
    )
}

/// What is shown of an entry at `now`.
pub open spec fn info_of(key: Seq<char>, entry: CachedView, now: u64) -> CacheInfoView {
    CacheInfoView {
        key,
        created_at_unix: clock::seconds_of(entry.created_at),
        expires_in_seconds: ((entry.expires_at - now) / (clock::NANOS_PER_SECOND as int)) as u64,
    }
}

/// `infos` shows every entry of `m`, each once, in the order of the keys.
pub open spec fn shows(
    infos: Seq<CacheInfoView>,
    m: Map<Seq<char>, CachedView>,
    now: u64,
) -> bool {
    &&& forall|i: int|
        0 <= i < infos.len() ==> m.contains_key((#[trigger] infos[i]).key) && infos[i] == info_of(
            infos[i].key,
            m[infos[i].key],
            now,
        )
    &&& forall|k: Seq<char>| #[trigger]
        m.contains_key(k) ==> exists|i: int| 0 <= i < infos.len() && (#[trigger] infos[i]).key == k
    &&& forall|i: int, j: int|
        0 <= i < j < infos.len() ==> order::before(
            order::text_rank((#[trigger] infos[i]).key),
            order::text_rank((#[trigger] infos[j]).key),
        )
}

impl ResponseCache {
    /// A cache without entries.
    pub fn new() -> (r: Self)
        ensures
            r@ == (Map::<Seq<char>, CachedView>::empty()),
    {
        ResponseCache { entries: no_entries() }
    }

    /// Keeps `value` under `key` for a day from `now`, in place of what was kept there.
    pub fn store(&mut self, key: String, value: String, created_at: WallTime, now: u64)
        requires
            now + CACHE_TTL_NANOS <= u64::MAX,
        ensures
            final(self)@ == stored(old(self)@, key@, value@, created_at, now),
    {
        let entry = CacheEntry { value, created_at, expires_at: now + CACHE_TTL_NANOS };
        put_entry(&mut self.entries, key, entry);
    }

    /// Forgets what is kept under `key`.
    pub fn remove(&mut self, key: &str)
        ensures
            final(self)@ == old(self)@.remove(key@),
    {
        drop_entry(&mut self.entries, key);
    }
}

/// The text that is cached under `key`, if it still counts at `now`. One that does not is
/// forgotten.
pub fn cache_get(cache: &mut ResponseCache, key: &str, now: u64) -> (r: Option<String>)
    ensures
        match r {
            Some(value) => hit(old(cache)@, key@, now) == Some(value@) && final(cache)@ == old(
                cache,
            )@,
            None => hit(old(cache)@, key@, now) is None && final(cache)@ == old(cache)@.remove(
                key@,
            ),
        },
{
    match find_entry(&cache.entries, key) {
        Some(entry) => if entry.expires_at > now {
            Some(entry.value)
        } else {
            cache.remove(key);
            None
        },
        None => {
            assert(cache@.remove(key@) =~= cache@);
            None
        },
    }
}

// ----------------------------------------------------------------- listing

/// What is shown of the pairs that still count at `now`.
pub open spec fn live_infos(pairs: Seq<(Seq<char>, CachedView)>, now: u64) -> Seq<CacheInfoView>
    decreases pairs.len(),
{
    if pairs.len() == 0 {
        seq![]
    } else {
        let shown = live_infos(pairs.drop_last(), now);
        let (key, entry) = pairs.last();
        if entry.expires_at > now {
            shown.push(info_of(key, entry, now))
        } else {
            shown
        }
    }
}

/// The keys of the pairs that no longer count at `now`.
pub open spec fn expired_keys(pairs: Seq<(Seq<char>, CachedView)>, now: u64) -> Seq<Seq<char>>
    decreases pairs.len(),
{
    if pairs.len() == 0 {
        seq![]
    } else {
        let dropped = expired_keys(pairs.drop_last(), now);
        let (key, entry) = pairs.last();
        if entry.expires_at > now {
            dropped
        } else {
            dropped.push(key)
        }
    }
}

/// Whether the entry of the `i`-th pair is shown as `info`.
spec fn shown_as(
    pairs: Seq<(Seq<char>, CachedView)>,
    i: int,
    info: CacheInfoView,
    now: u64,
) -> bool {
    &&& 0 <= i < pairs.len()
    &&& pairs[i].1.expires_at > now
    &&& info == info_of(pairs[i].0, pairs[i].1, now)
}

/// Whether `info` shows the entry of one of the pairs that count.
spec fn shown_from(
    pairs: Seq<(Seq<char>, CachedView)>,
    info: CacheInfoView,
    now: u64,
) -> bool {
    exists|i: int| shown_as(pairs, i, info, now)
}

/// Whether `key` is that of a pair that no longer counts.
spec fn expired_in(pairs: Seq<(Seq<char>, CachedView)>, key: Seq<char>, now: u64) -> bool {
    exists|i: int|
        0 <= i < pairs.len() && (#[trigger] pairs[i]).0 == key && pairs[i].1.expires_at <= now
}

/// What is shown comes from the pairs that count, and every one of them is shown, once.
proof fn lemma_live_infos(pairs: Seq<(Seq<char>, CachedView)>, now: u64)
    requires
        forall|i: int, j: int|
            0 <= i < j < pairs.len() ==> (#[trigger] pairs[i]).0 != (#[trigger] pairs[j]).0,
    ensures
        forall|j: int|
            0 <= j < live_infos(pairs, now).len() ==> shown_from(
                pairs,
                #[trigger] live_infos(pairs, now)[j],
                now,
            ),
        forall|i: int|
            0 <= i < pairs.len() && (#[trigger] pairs[i]).1.expires_at > now ==> live_infos(
                pairs,
                now,
            ).contains(info_of(pairs[i].0, pairs[i].1, now)),
        forall|i: int, j: int|
            0 <= i < j < live_infos(pairs, now).len() ==> (#[trigger] live_infos(pairs, now)[i]).key
                != (#[trigger] live_infos(pairs, now)[j]).key,
    decreases pairs.len(),
{
    if pairs.len() > 0 {
        let front = pairs.drop_last();
        let shown = live_infos(front, now);
        let all = live_infos(pairs, now);
        let last = pairs.last();
        lemma_live_infos(front, now);
        assert forall|j: int| 0 <= j < all.len() implies shown_from(
            pairs,
            #[trigger] all[j],
            now,
        ) by {
            if j < shown.len() {
                assert(shown_from(front, shown[j], now));
                let i = choose|i: int| shown_as(front, i, shown[j], now);
                assert(shown_as(pairs, i, all[j], now));
            } else {
                assert(shown_as(pairs, pairs.len() - 1, all[j], now));
            }
        }
        assert forall|i: int|
            0 <= i < pairs.len() && (#[trigger] pairs[i]).1.expires_at > now implies all.contains(
            info_of(pairs[i].0, pairs[i].1, now),
        ) by {
            let info = info_of(pairs[i].0, pairs[i].1, now);
            if i < front.len() {
                assert(front[i] == pairs[i]);
                let j = choose|j: int| 0 <= j < shown.len() && shown[j] == info;
                assert(all[j] == info);
            } else {
                assert(all[all.len() - 1] == info);
            }
        }
        assert forall|i: int, j: int| 0 <= i < j < all.len() implies (#[trigger] all[i]).key != (
        #[trigger] all[j]).key by {
            if j < shown.len() {
                assert(all[i] == shown[i] && all[j] == shown[j]);
            } else {
                assert(all[i] == shown[i]);
                assert(shown_from(front, shown[i], now));
                let k = choose|k: int| shown_as(front, k, shown[i], now);
                assert(pairs[k].0 == all[i].key);
                assert(pairs[pairs.len() - 1].0 == all[j].key);
            }
        }
    }
}

/// The keys that are dropped are those of the pairs that no longer count.
proof fn lemma_expired_keys(pairs: Seq<(Seq<char>, CachedView)>, now: u64)
    ensures
        forall|j: int|
            0 <= j < expired_keys(pairs, now).len() ==> expired_in(
                pairs,
                #[trigger] expired_keys(pairs, now)[j],
                now,
            ),
        forall|i: int|
            0 <= i < pairs.len() && (#[trigger] pairs[i]).1.expires_at <= now ==> expired_keys(
                pairs,
                now,
            ).contains(pairs[i].0),
    decreases pairs.len(),
{
    if pairs.len() > 0 {
        let front = pairs.drop_last();
        let dropped = expired_keys(front, now);
        let all = expired_keys(pairs, now);
        lemma_expired_keys(front, now);
        assert forall|j: int| 0 <= j < all.len() implies expired_in(
            pairs,
            #[trigger] all[j],
            now,
        ) by {
            if j < dropped.len() {
                assert(expired_in(front, dropped[j], now));
                let i = choose|i: int|
                    0 <= i < front.len() && (#[trigger] front[i]).0 == dropped[j]
                        && front[i].1.expires_at <= now;
                assert(pairs[i].0 == all[j]);
            } else {
                assert(pairs[pairs.len() - 1].0 == all[j]);
            }
        }
        assert forall|i: int|
            0 <= i < pairs.len() && (#[trigger] pairs[i]).1.expires_at <= now implies all.contains(
            pairs[i].0,
        ) by {
            if i < front.len() {
                assert(front[i] == pairs[i]);
                let j = choose|j: int| 0 <= j < dropped.len() && dropped[j] == pairs[i].0;
                assert(all[j] == pairs[i].0);
            } else {
                assert(all[all.len() - 1] == pairs[i].0);
            }
        }
    }
}

/// The entries that still count among a cache's pairs, as they are shown, and the keys of the
/// others.
pub fn split_expired(pairs: &Vec<(String, CacheEntry)>, now: u64) -> (r: (
    Vec<CacheInfo>,
    Vec<String>,
))
    ensures
        order::views(r.0@) == live_infos(pair_views(pairs@), now),
        text::texts(r.1@) == expired_keys(pair_views(pairs@), now),
{
    let ghost all = pair_views(pairs@);
    let mut infos: Vec<CacheInfo> = Vec::new();
    let mut expired: Vec<String> = Vec::new();
    let mut i: usize = 0;
    assert(all.take(0) =~= seq![]);
    assert(order::views(infos@) =~= seq![]);
    assert(text::texts(expired@) =~= seq![]);
    while i < pairs.len()
        invariant
            i <= pairs@.len(),
            all == pair_views(pairs@),
            order::views(infos@) == live_infos(all.take(i as int), now),
            text::texts(expired@) == expired_keys(all.take(i as int), now),
        decreases pairs@.len() - i,
    {
        let key: String = pairs[i].0.clone();
        let entry: &CacheEntry = &pairs[i].1;
        proof {
            assert(all.take(i + 1).drop_last() =~= all.take(i as int));
            assert(all.take(i + 1).last() == (key@, entry@));
        }
        if entry.expires_at <= now {
            proof {
                text::lemma_texts_push(expired@, key);
            }
            expired.push(key);
        } else {
            let info = CacheInfo {
                key,
                created_at_unix: clock::unix_seconds(entry.created_at),
                expires_in_seconds: (entry.expires_at - now) / clock::NANOS_PER_SECOND,
            };
            assert(order::views(infos@.push(info)) =~= order::views(infos@).push(info@));
            infos.push(info);
        }
        i = i + 1;
    }
    assert(all.take(all.len() as int) =~= all);
    (infos, expired)
}

/// Sorting what is shown of a cache's live pairs by key shows the live entries in order.
proof fn lemma_sorted_shows(
    pairs: Seq<(Seq<char>, CachedView)>,
    m: Map<Seq<char>, CachedView>,
    now: u64,
    sorted: Seq<CacheInfoView>,
)
    requires
        table::lists(pairs, m),
        order::is_stable_sort(order::ranks::<CacheInfo>(), live_infos(pairs, now), sorted),
    ensures
        shows(sorted, live(m, now), now),
{
    let infos = live_infos(pairs, now);
    let rank = order::ranks::<CacheInfo>();
    lemma_live_infos(pairs, now);
    infos.to_multiset_ensures();
    sorted.to_multiset_ensures();
    infos.lemma_multiset_has_no_duplicates();
    sorted.lemma_multiset_has_no_duplicates_conv();
    assert forall|i: int| 0 <= i < sorted.len() implies infos.contains(#[trigger] sorted[i]) by {
        assert(sorted.contains(sorted[i]));
        assert(infos.to_multiset().count(sorted[i]) > 0);
    }
    assert forall|i: int| 0 <= i < sorted.len() implies live(m, now).contains_key(
        (#[trigger] sorted[i]).key,
    ) && sorted[i] == info_of(sorted[i].key, live(m, now)[sorted[i].key], now) by {
        let j = choose|j: int| 0 <= j < infos.len() && infos[j] == sorted[i];
        assert(shown_from(pairs, infos[j], now));
        let k = choose|k: int| shown_as(pairs, k, infos[j], now);
        assert(m.contains_key(pairs[k].0));
    }
    assert forall|k: Seq<char>| #[trigger] live(m, now).contains_key(k) implies exists|i: int|
        0 <= i < sorted.len() && (#[trigger] sorted[i]).key == k by {
        assert(m.contains_key(k));
        let j = choose|j: int| 0 <= j < pairs.len() && (#[trigger] pairs[j]).0 == k;
        let info = info_of(k, pairs[j].1, now);
        assert(infos.contains(info));
        assert(sorted.to_multiset().count(info) > 0);
        assert(sorted.contains(info));
        let i = choose|i: int| 0 <= i < sorted.len() && sorted[i] == info;
        assert(sorted[i].key == k);
    }
    assert forall|i: int, j: int| 0 <= i < j < sorted.len() implies order::before(
        order::text_rank((#[trigger] sorted[i]).key),
        order::text_rank((#[trigger] sorted[j]).key),
    ) by {
        let a = sorted[i];
        let b = sorted[j];
        assert(!order::before(rank(b), rank(a)));
        order::lemma_order(rank(a), rank(b), rank(a));
        if order::text_rank(a.key) == order::text_rank(b.key) {
            order::lemma_text_rank_injective(a.key, b.key);
            let p = choose|p: int| 0 <= p < infos.len() && infos[p] == a;
            let q = choose|q: int| 0 <= q < infos.len() && infos[q] == b;
            assert(p == q);
            assert(a == b);
        }
    }
}

/// What is cached and still counts at `now`, in the order of the keys. What no longer counts is
/// forgotten.
pub fn cache_entries(cache: &mut ResponseCache, now: u64) -> (r: Vec<CacheInfo>)
    ensures
        final(cache)@ == live(old(cache)@, now),
        shows(order::views(r@), final(cache)@, now),
{
    let ghost m = cache@;
    let pairs = all_entries(&cache.entries);
    let ghost listed = pair_views(pairs@);
    let (infos, expired) = split_expired(&pairs, now);
    let ghost gone = text::texts(expired@);
    let mut i: usize = 0;
    while i < expired.len()
        invariant
            i <= expired@.len(),
            gone == text::texts(expired@),
            forall|k: Seq<char>| #[trigger]
                cache@.contains_key(k) <==> m.contains_key(k) && !gone.take(i as int).contains(k),
            forall|k: Seq<char>| #[trigger] cache@.contains_key(k) ==> cache@[k] == m[k],
        decreases expired@.len() - i,
    {
        cache.remove(expired[i].as_str());
        proof {
            let key = gone[i as int];
            assert(gone.take(i + 1) =~= gone.take(i as int).push(key));
            assert forall|k: Seq<char>|
                #[trigger] gone.take(i + 1).contains(k) == (gone.take(i as int).contains(k) || k
                    == key) by {
                if gone.take(i as int).contains(k) {
                    let n = choose|n: int| 0 <= n < i && gone.take(i as int)[n] == k;
                    assert(gone.take(i + 1)[n] == k);
                }
                assert(gone.take(i + 1)[i as int] == key);
            }
        }
        i = i + 1;
    }
    proof {
        assert(gone.take(gone.len() as int) =~= gone);
        lemma_expired_keys(listed, now);
        assert forall|k: Seq<char>| #[trigger] m.contains_key(k) implies (gone.contains(k)
            <==> m[k].expires_at <= now) by {
            let n = choose|n: int| 0 <= n < listed.len() && (#[trigger] listed[n]).0 == k;
            if gone.contains(k) {
                let j = choose|j: int| 0 <= j < gone.len() && gone[j] == k;
                assert(expired_in(listed, gone[j], now));
                let p = choose|p: int|
                    0 <= p < listed.len() && (#[trigger] listed[p]).0 == gone[j]
                        && listed[p].1.expires_at <= now;
                assert(listed[p].0 == k);
            }
        }
        assert(cache@ =~= live(m, now));
    }
    let sorted = order::stable_sort(infos);
    proof {
        lemma_sorted_shows(listed, m, now, order::views(sorted@));
    }
    sorted
}

// --------------------------------------------------------------------- laws

/// What is stored is read back until a day has passed, and not from then on.
pub proof fn law_stored_text_is_read_back(
    m: Map<Seq<char>, CachedView>,
    key: Seq<char>,
    value: Seq<char>,
    created_at: WallTime,
    stored_at: u64,
    read_at: u64,
)
    requires
        stored_at + CACHE_TTL_NANOS <= u64::MAX,
    ensures
        read_at < stored_at + CACHE_TTL_NANOS ==> hit(
            stored(m, key, value, created_at, stored_at),
            key,
            read_at,
        ) == Some(value),
        read_at >= stored_at + CACHE_TTL_NANOS ==> hit(
            stored(m, key, value, created_at, stored_at),
            key,
            read_at,
        ) is None,
{
}

/// Storing under one key leaves what is read under every other key as it was.
pub proof fn law_storing_touches_one_key(
    m: Map<Seq<char>, CachedView>,
    key: Seq<char>,
    value: Seq<char>,
    created_at: WallTime,
    stored_at: u64,
    other: Seq<char>,
    read_at: u64,
)
    requires
        other != key,
    ensures
        hit(stored(m, key, value, created_at, stored_at), other, read_at) == hit(m, other, read_at),
{
}

/// What was forgotten is not read, and what is read under every other key is as it was.
pub proof fn law_forgetting_touches_one_key(
    m: Map<Seq<char>, CachedView>,
    key: Seq<char>,
    other: Seq<char>,
    read_at: u64,
)
    requires
        other != key,
    ensures
        hit(m.remove(key), key, read_at) is None,
        hit(m.remove(key), other, read_at) == hit(m, other, read_at),
{
}

/// Forgetting what no longer counts changes no later read.
pub proof fn law_purging_changes_no_read(
    m: Map<Seq<char>, CachedView>,
    key: Seq<char>,
    purged_at: u64,
    read_at: u64,
)
    requires
        purged_at <= read_at,
    ensures
        hit(live(m, purged_at), key, read_at) == hit(m, key, read_at),
{
}

/// A text is read exactly where it is kept under the key and its time has not come, and it is read
/// as it was kept.
pub proof fn law_reading(m: Map<Seq<char>, CachedView>, key: Seq<char>, now: u64)
    ensures
        hit(m, key, now) is Some <==> m.contains_key(key) && now < m[key].expires_at,
        hit(m, key, now) matches Some(value) ==> value == m[key].value,
{
}

/// Storing keeps the text whole, with its time, for a day; what an entry holds is what it was made
/// of.
pub proof fn law_storing(
    m: Map<Seq<char>, CachedView>,
    key: Seq<char>,
    value: Seq<char>,
    created_at: WallTime,
    now: u64,
    entry: CacheEntry,
)
    requires
        now + 86_400_000_000_000 <= u64::MAX,
    ensures
        stored(m, key, value, created_at, now).dom() == m.dom().insert(key),
        stored(m, key, value, created_at, now)[key].value == value,
        stored(m, key, value, created_at, now)[key].created_at == created_at,
        stored(m, key, value, created_at, now)[key].expires_at == now + 86_400_000_000_000,
        entry@.value == entry.value@,
        entry@.created_at == entry.created_at,
        entry@.expires_at == entry.expires_at,
{
    assert(stored(m, key, value, created_at, now).dom() =~= m.dom().insert(key));
}

/// Purging forgets exactly what no longer counts, and changes nothing else.
pub proof fn law_purging(m: Map<Seq<char>, CachedView>, now: u64, key: Seq<char>)
    ensures
        live(m, now).contains_key(key) <==> m.contains_key(key) && now < m[key].expires_at,
        live(m, now).contains_key(key) ==> live(m, now)[key] == m[key],
{
}

/// What is shown of an entry is its key, when it was made, and the whole seconds that are left.
pub proof fn law_shown_entry(key: Seq<char>, entry: CachedView, now: u64, info: CacheInfo)
    requires
        now < entry.expires_at,
    ensures
        info_of(key, entry, now).key == key,
        !entry.created_at.before_epoch ==> info_of(key, entry, now).created_at_unix
            == entry.created_at.seconds,
        entry.created_at.before_epoch ==> info_of(key, entry, now).created_at_unix == 0,
        info_of(key, entry, now).expires_in_seconds * 1_000_000_000 <= entry.expires_at - now,
        entry.expires_at - now < (info_of(key, entry, now).expires_in_seconds + 1)
            * 1_000_000_000,
        info@.key == info.key@,
        info@.created_at_unix == info.created_at_unix,
        info@.expires_in_seconds == info.expires_in_seconds,
{
    let left = entry.expires_at - now;
    assert(0 <= left / 1_000_000_000 <= left);
}

/// A listing shows every entry, once, as it is, in the order of the keys' bytes, and nothing else.
pub proof fn law_listing_is_complete(
    infos: Seq<CacheInfoView>,
    m: Map<Seq<char>, CachedView>,
    now: u64,
    k: Seq<char>,
    i: int,
    j: int,
)
    requires
        shows(infos, m, now),
    ensures
        m.contains_key(k) <==> exists|n: int|
            0 <= n < infos.len() && #[trigger] infos[n] == info_of(k, m[k], now),
        0 <= i < infos.len() ==> m.contains_key(infos[i].key) && infos[i] == info_of(
            infos[i].key,
            m[infos[i].key],
            now,
        ),
        0 <= i < j < infos.len() ==> order::before(
            order::text_rank(infos[i].key),
            order::text_rank(infos[j].key),
        ),
{
    if m.contains_key(k) {
        let n = choose|n: int| 0 <= n < infos.len() && (#[trigger] infos[n]).key == k;
        assert(infos[n] == info_of(k, m[k], now));
    }
    assert forall|n: int|
        0 <= n < infos.len() && #[trigger] infos[n] == info_of(
            k,
            m[k],
            now,
        ) implies m.contains_key(k) by {
        assert(infos[n].key == k);
    }
}

/// What pairs hold is what each key and entry holds.
pub proof fn law_pairs_hold_what_they_are_made_of(pairs: Seq<(String, CacheEntry)>, i: int)
    requires
        0 <= i < pairs.len(),
    ensures
        pair_views(pairs).len() == pairs.len(),
        pair_views(pairs)[i] == (pairs[i].0@, pairs[i].1@),
{
}

/// Of one more pair the entry is shown where it still counts, and its key is dropped where it does
/// not; what came before stays as it is.
pub proof fn law_pairs_are_told_apart(
    pairs: Seq<(Seq<char>, CachedView)>,
    key: Seq<char>,
    entry: CachedView,
    now: u64,
)
    ensures
        live_infos(seq![], now) == Seq::<CacheInfoView>::empty(),
        expired_keys(seq![], now) == Seq::<Seq<char>>::empty(),
        now < entry.expires_at ==> live_infos(pairs.push((key, entry)), now) == live_infos(
            pairs,
            now,
        ).push(info_of(key, entry, now)) && expired_keys(pairs.push((key, entry)), now)
            == expired_keys(pairs, now),
        now >= entry.expires_at ==> live_infos(pairs.push((key, entry)), now) == live_infos(
            pairs,
            now,
        ) && expired_keys(pairs.push((key, entry)), now) == expired_keys(pairs, now).push(key),
{
    assert(pairs.push((key, entry)).drop_last() =~= pairs);
}

} // verus!
