//! The keys that clients present. A key itself is shown once, when it is made; what is kept is a
//! digest of it.

use crate::clock;
use crate::clock::WallTime;
use crate::digest;
use crate::gateway::table;
use crate::number;
use crate::order;
use crate::order::Ranked;
use crate::text;
use dashmap::DashMap;
use uuid::Uuid;
use vstd::prelude::*;

verus! {

/// How many characters of a key are shown.
pub const PREFIX_CHARS: usize = 12;

/// How many digits of a key's digest make up its id.
pub const ID_CHARS: usize = 16;

/// What is kept of a key.
#[derive(Debug)]
pub struct ApiKeyEntry {
    pub hash: String,
    pub prefix: String,
    pub name: String,
    pub created_at: WallTime,
}

/// What an [`ApiKeyEntry`] holds.
pub struct KeyView {
    pub hash: Seq<char>,
    pub prefix: Seq<char>,
    pub name: Seq<char>,
    pub created_at: WallTime,
}

impl View for ApiKeyEntry {
    type V = KeyView;

    open spec fn view(&self) -> KeyView {
        KeyView {
            hash: self.hash@,
            prefix: self.prefix@,
            name: self.name@,
            created_at: self.created_at,
        }
    }
}

impl Clone for ApiKeyEntry {
    fn clone(&self) -> (r: Self)
        ensures
            r@ == self@,
    {
        ApiKeyEntry {
            hash: self.hash.clone(),
            prefix: self.prefix.clone(),
            name: self.name.clone(),
            created_at: self.created_at,
        }
    }
}

/// What is shown of a key.
#[derive(Debug)]
pub struct ApiKeyInfo {
    pub id: String,
    pub prefix: String,
    pub name: String,
    pub created_at_unix: u64,
}

/// What an [`ApiKeyInfo`] holds.
pub struct KeyInfoView {
    pub id: Seq<char>,
    pub prefix: Seq<char>,
    pub name: Seq<char>,
    pub created_at_unix: u64,
}

impl View for ApiKeyInfo {
    type V = KeyInfoView;

    open spec fn view(&self) -> KeyInfoView {
        KeyInfoView {
            id: self.id@,
            prefix: self.prefix@,
            name: self.name@,
            created_at_unix: self.created_at_unix,
        }
    }
}

impl Ranked for ApiKeyInfo {
    open spec fn rank(v: KeyInfoView) -> Seq<int> {
        seq![v.created_at_unix as int]
    }

    fn comes_before(&self, other: &Self) -> (r: bool) {
        proof {
            reveal_with_fuel(order::before, 2);
        }
        self.created_at_unix < other.created_at_unix
    }
}

/// What the maker of a key is told: the key itself, and what is kept of it.
#[derive(Debug)]
pub struct CreateApiKeyResponse {
    pub id: String,
    pub key: String,
    pub prefix: String,
    pub name: String,
    pub created_at_unix: u64,
}

// ---------------------------------------------------------- the outside map

/// What a map of keys holds. A map that is shared could change at any time; the ones that this
/// speaks of are owned by an [`ApiKeys`], and every change takes `&mut`.
pub uninterp spec fn kept(m: DashMap<String, ApiKeyEntry>) -> Map<Seq<char>, KeyView>;

/// The pairs of a list of ids and entries.
pub open spec fn pair_views(s: Seq<(String, ApiKeyEntry)>) -> Seq<(Seq<char>, KeyView)> {
    s.map_values(|p: (String, ApiKeyEntry)| (p.0@, p.1@))
}

/// `DashMap::new` makes an empty map.
#[verifier::external_body]
fn no_keys() -> (r: DashMap<String, ApiKeyEntry>)
    ensures
        kept(r) == (Map::<Seq<char>, KeyView>::empty()),
{
    DashMap::new()
}

/// `DashMap::insert` puts an entry under an id, in place of the one that stood there.
#[verifier::external_body]
fn put_key(m: &mut DashMap<String, ApiKeyEntry>, id: String, entry: ApiKeyEntry)
    ensures
        kept(*final(m)) == kept(*old(m)).insert(id@, entry@),
{
    m.insert(id, entry);
}

/// `DashMap::remove` takes an id and its entry out, if the id is there.
#[verifier::external_body]
fn drop_key(m: &mut DashMap<String, ApiKeyEntry>, id: &str)
    ensures
        kept(*final(m)) == kept(*old(m)).remove(id@),
{
    m.remove(id);
}

/// `DashMap::is_empty` tells whether the map holds nothing.
#[verifier::external_body]
fn holds_nothing(m: &DashMap<String, ApiKeyEntry>) -> (r: bool)
    ensures
        r == (kept(*m) == (Map::<Seq<char>, KeyView>::empty())),
{
    m.is_empty()
}

/// `DashMap::iter` walks over every id with its entry, each once, in no particular order.
#[verifier::external_body]
fn all_keys(m: &DashMap<String, ApiKeyEntry>) -> (r: Vec<(String, ApiKeyEntry)>)
    ensures
        table::lists(pair_views(r@), kept(*m)),
{
    m.iter().map(|item| (item.key().clone(), item.value().clone())).collect()
}

// ----------------------------------------------------------------- new keys

/// Whether `c` is a hexadecimal digit, in lower case.
pub open spec fn is_hex(c: char) -> bool {
    '0' <= c <= '9' || 'a' <= c <= 'f'
}

/// Whether `s` is a random UUID as it is written: 36 characters, hyphens at four places, the
/// version and the variant at theirs.
pub open spec fn is_random_uuid(s: Seq<char>) -> bool {
    &&& s.len() == 36
    &&& forall|i: int|
        0 <= i < 36 ==> if i == 8 || i == 13 || i == 18 || i == 23 {
            #[trigger] s[i] == '-'
        } else {
            is_hex(s[i])
        }
    &&& s[14] == '4'
    &&& s[19] == '8' || s[19] == '9' || s[19] == 'a' || s[19] == 'b'
}

/// The key that two UUIDs make.
pub open spec fn gateway_key(first: Seq<char>, second: Seq<char>) -> Seq<char> {
    "sk-gw-"@ + first + "-"@ + second
}

/// Whether `key` is one that the gateway could have made.
pub open spec fn is_gateway_key(key: Seq<char>) -> bool {
    exists|a: Seq<char>, b: Seq<char>|
        is_random_uuid(a) && is_random_uuid(b) && key == #[trigger] gateway_key(a, b)
}

/// `uuid::Uuid::new_v4` draws a random UUID of version 4, and its text is 36 characters, lower-case
/// digits and hyphens. Which one comes out is left to chance. It panics where the system has no
/// randomness to give.
#[verifier::external_body]
fn random_uuid() -> (r: String)
    ensures
        is_random_uuid(r@),
{
    Uuid::new_v4().to_string()
}

/// The key that two UUIDs make.
pub fn key_from(first: &str, second: &str) -> (r: String)
    ensures
        r@ == gateway_key(first@, second@),
{
    let mut key = String::new();
    key.append("sk-gw-");
    key.append(first);
    key.append("-");
    key.append(second);
    assert(key@ =~= gateway_key(first@, second@));
    key
}

/// A fresh key, made of two UUIDs that are drawn one after the other. That they differ is left to
/// chance.
pub fn new_api_key() -> (r: String)
    ensures
        is_gateway_key(r@),
{
    let first = random_uuid();
    let second = random_uuid();
    key_from(first.as_str(), second.as_str())
}

/// What is shown of `key`: its first characters and an ellipsis.
pub open spec fn prefix_of(key: Seq<char>) -> Seq<char> {
    (if key.len() < PREFIX_CHARS {
        key
    } else {
        key.take(PREFIX_CHARS as int)
    }) + "..."@
}

/// What is shown of `key`: its first characters and an ellipsis.
pub fn key_prefix(key: &str) -> (r: String)
    ensures
        r@ == prefix_of(key@),
{
    let chars = text::to_chars(key);
    let n: usize = if chars.len() < PREFIX_CHARS {
        chars.len()
    } else {
        PREFIX_CHARS
    };
    let mut out = text::from_chars(&chars, 0, n);
    assert(out@ =~= (if key@.len() < PREFIX_CHARS {
        key@
    } else {
        key@.take(PREFIX_CHARS as int)
    }));
    out.append("...");
    out
}

/// The id that a digest gives.
pub open spec fn id_of(hash: Seq<char>) -> Seq<char> {
    hash.take(ID_CHARS as int)
}

/// The id that a digest gives: its first digits.
pub fn key_id(hash: &str) -> (r: String)
    requires
        hash@.len() >= ID_CHARS,
    ensures
        r@ == id_of(hash@),
{
    let chars = text::to_chars(hash);
    let id = text::from_chars(&chars, 0, ID_CHARS);
    assert(id@ =~= id_of(hash@));
    id
}

/// The name that a key gets: the one asked for without the whitespace around it, or a stand-in.
pub open spec fn name_for(requested: Option<Seq<char>>) -> Seq<char> {
    match requested {
        Some(name) => if text::trim(name).len() > 0 {
            text::trim(name)
        } else {
            "API key"@
        },
        None => "API key"@,
    }
}

/// The name that a key gets.
pub fn key_name(requested: Option<&str>) -> (r: String)
    ensures
        r@ == name_for(text::opt_text(requested)),
{
    match requested {
        Some(name) => {
            let trimmed = text::trimmed(name);
            if trimmed.as_str().is_empty() {
                "API key".to_string()
            } else {
                trimmed
            }
        },
        None => "API key".to_string(),
    }
}

// ---------------------------------------------------------------- the table

/// The keys that are accepted, by id.
pub struct ApiKeys {
    entries: DashMap<String, ApiKeyEntry>,
}

impl View for ApiKeys {
    type V = Map<Seq<char>, KeyView>;

    closed spec fn view(&self) -> Map<Seq<char>, KeyView> {
        kept(self.entries)
    }
}

/// What is kept of a key with the digest `hash`.
pub open spec fn entry_for(
    hash: Seq<char>,
    key: Seq<char>,
    name: Seq<char>,
    created_at: WallTime,
) -> KeyView {
    KeyView { hash, prefix: prefix_of(key), name, created_at }
}

/// Whether a key with the digest `hash` is accepted.
pub open spec fn knows(m: Map<Seq<char>, KeyView>, hash: Seq<char>) -> bool {
    exists|id: Seq<char>| #[trigger] m.contains_key(id) && m[id].hash == hash
}

impl ApiKeys {
    /// A table without keys.
    pub fn new() -> (r: Self)
        ensures
            r@ == (Map::<Seq<char>, KeyView>::empty()),
    {
        ApiKeys { entries: no_keys() }
    }

    /// Whether there are no keys.
    pub fn is_empty(&self) -> (r: bool)
        ensures
            r == (self@ == (Map::<Seq<char>, KeyView>::empty())),
    {
        holds_nothing(&self.entries)
    }

    /// Keeps a key under the id that its digest gives.
    pub fn keep(&mut self, hash: String, key: &str, name: String, created_at: WallTime)
        requires
            hash@.len() >= ID_CHARS,
        ensures
            final(self)@ == old(self)@.insert(
                id_of(hash@),
                entry_for(hash@, key@, name@, created_at),
            ),
    {
        let id = key_id(hash.as_str());
        let entry = ApiKeyEntry { hash, prefix: key_prefix(key), name, created_at };
        put_key(&mut self.entries, id, entry);
    }

    /// Forgets the key with this id.
    pub fn remove(&mut self, id: &str)
        ensures
            final(self)@ == old(self)@.remove(id@),
    {
        drop_key(&mut self.entries, id);
    }

    /// Whether a key with the digest `hash` is accepted.
    pub fn accepts(&self, hash: &str) -> (r: bool)
        ensures
            r == knows(self@, hash@),
    {
        let pairs = all_keys(&self.entries);
        let ghost listed = pair_views(pairs@);
        let mut i: usize = 0;
        while i < pairs.len()
            invariant
                i <= pairs@.len(),
                listed == pair_views(pairs@),
                table::lists(listed, self@),
                forall|k: int| 0 <= k < i ==> (#[trigger] listed[k]).1.hash != hash@,
            decreases pairs@.len() - i,
        {
            assert(listed[i as int] == (pairs@[i as int].0@, pairs@[i as int].1@));
            if text::same_text(pairs[i].1.hash.as_str(), hash) {
                assert(self@.contains_key(listed[i as int].0));
                return true;
            }
            i = i + 1;
        }
        proof {
            if knows(self@, hash@) {
                let id = choose|id: Seq<char>| #[trigger]
                    self@.contains_key(id) && self@[id].hash == hash@;
                let k = choose|k: int| 0 <= k < listed.len() && (#[trigger] listed[k]).0 == id;
                assert(listed[k].1.hash == hash@);
            }
        }
        false
    }
}

// -------------------------------------------------------------- making keys

/// The response to the making of a key with the digest `hash`.
pub open spec fn answers(
    r: CreateApiKeyResponse,
    requested: Option<Seq<char>>,
    key: Seq<char>,
    hash: Seq<char>,
    created_at: WallTime,
) -> bool {
    &&& r.id@ == id_of(hash)
    &&& r.key@ == key
    &&& r.prefix@ == prefix_of(key)
    &&& r.name@ == name_for(requested)
    &&& r.created_at_unix == clock::seconds_of(created_at)
}

/// Keeps `key`, whose digest is `hash`, under the name asked for, and says what its maker is told.
pub fn record_api_key(
    keys: &mut ApiKeys,
    requested: Option<&str>,
    key: String,
    hash: String,
    created_at: WallTime,
) -> (r: CreateApiKeyResponse)
    requires
        hash@.len() >= ID_CHARS,
    ensures
        answers(r, text::opt_text(requested), key@, hash@, created_at),
        final(keys)@ == old(keys)@.insert(
            id_of(hash@),
            entry_for(hash@, key@, name_for(text::opt_text(requested)), created_at),
        ),
{
    let name = key_name(requested);
    let id = key_id(hash.as_str());
    let prefix = key_prefix(key.as_str());
    keys.keep(hash, key.as_str(), name.clone(), created_at);
    CreateApiKeyResponse { id, key, prefix, name, created_at_unix: clock::unix_seconds(created_at) }
}

/// Keeps `key` under the name asked for, and says what its maker is told.
pub fn issue_api_key(
    keys: &mut ApiKeys,
    requested: Option<&str>,
    key: String,
    created_at: WallTime,
) -> (r: CreateApiKeyResponse)
    ensures
        answers(r, text::opt_text(requested), key@, digest::secret_hash(key@), created_at),
        final(keys)@ == old(keys)@.insert(
            id_of(digest::secret_hash(key@)),
            entry_for(
                digest::secret_hash(key@),
                key@,
                name_for(text::opt_text(requested)),
                created_at,
            ),
        ),
{
    let hash = digest::hash_secret(key.as_str());
    record_api_key(keys, requested, key, hash, created_at)
}

/// Draws a key, keeps it under the name asked for, and says what its maker is told.
pub fn create_api_key(keys: &mut ApiKeys, requested: Option<&str>, created_at: WallTime) -> (r:
    CreateApiKeyResponse)
    ensures
        is_gateway_key(r.key@),
        answers(r, text::opt_text(requested), r.key@, digest::secret_hash(r.key@), created_at),
        final(keys)@ == old(keys)@.insert(
            id_of(digest::secret_hash(r.key@)),
            entry_for(
                digest::secret_hash(r.key@),
                r.key@,
                name_for(text::opt_text(requested)),
                created_at,
            ),
        ),
{
    let key = new_api_key();
    issue_api_key(keys, requested, key, created_at)
}

/// The keys that a comma-separated list holds, without the whitespace around them.
pub open spec fn listed_keys(raw: Seq<char>) -> Seq<Seq<char>> {
    text::split(raw, ',').map_values(|p: Seq<char>| text::trim(p)).filter(
        |p: Seq<char>| p.len() > 0,
    )
}

/// The keys that a comma-separated list holds, without the whitespace around them.
pub fn parse_key_list(raw: &str) -> (r: Vec<String>)
    ensures
        text::texts(r@) == listed_keys(raw@),
{
    let parts = text::split_on(raw, ',');
    let ghost pieces = text::split(raw@, ',').map_values(|p: Seq<char>| text::trim(p));
    let ghost wanted = |p: Seq<char>| p.len() > 0;
    let mut out: Vec<String> = Vec::new();
    let mut i: usize = 0;
    proof {
        reveal(Seq::filter);
        assert(pieces.take(0) =~= seq![]);
        assert(text::texts(out@) =~= pieces.take(0).filter(wanted));
    }
    while i < parts.len()
        invariant
            i <= parts@.len(),
            text::texts(parts@) == text::split(raw@, ','),
            pieces == text::split(raw@, ',').map_values(|p: Seq<char>| text::trim(p)),
            wanted == (|p: Seq<char>| p.len() > 0),
            text::texts(out@) == pieces.take(i as int).filter(wanted),
        decreases parts@.len() - i,
    {
        let piece = text::trimmed(parts[i].as_str());
        proof {
            reveal(Seq::filter);
            assert(text::split(raw@, ',')[i as int] == parts@[i as int]@);
            assert(pieces[i as int] == piece@);
            assert(pieces.take(i + 1).drop_last() =~= pieces.take(i as int));
            text::lemma_texts_push(out@, piece);
        }
        if !piece.as_str().is_empty() {
            out.push(piece);
        }
        i = i + 1;
    }
    assert(pieces.take(pieces.len() as int) =~= pieces);
    assert(text::texts(out@) =~= listed_keys(raw@));
    out
}

/// The name of the `n`-th key of a list.
pub open spec fn list_name(n: nat) -> Seq<char> {
    "Env key "@ + number::decimal(n)
}

/// The table that holds the listed keys. Of keys with one id the last stays.
pub open spec fn loaded(keys: Seq<Seq<char>>, created_at: WallTime) -> Map<Seq<char>, KeyView>
    decreases keys.len(),
{
    if keys.len() == 0 {
        Map::empty()
    } else {
        let hash = digest::secret_hash(keys.last());
        loaded(keys.drop_last(), created_at).insert(
            id_of(hash),
            entry_for(hash, keys.last(), list_name(keys.len()), created_at),
        )
    }
}

/// The table of the keys in a comma-separated list; an empty one where there is no list.
pub fn load_api_keys(raw: Option<&str>, created_at: WallTime) -> (r: ApiKeys)
    ensures
        r@ == (match raw {
            Some(list) => loaded(listed_keys(list@), created_at),
            None => Map::<Seq<char>, KeyView>::empty(),
        }),
{
    let mut keys = ApiKeys::new();
    match raw {
        None => keys,
        Some(list) => {
            let listed = parse_key_list(list);
            let ghost all = text::texts(listed@);
            let mut i: usize = 0;
            assert(all.take(0) =~= seq![]);
            while i < listed.len()
                invariant
                    i <= listed@.len(),
                    all == text::texts(listed@),
                    keys@ == loaded(all.take(i as int), created_at),
                decreases listed@.len() - i,
            {
                let key = listed[i].as_str();
                let hash = digest::hash_secret(key);
                let mut name = String::new();
                name.append("Env key ");
                let n: u64 = i as u64 + 1;
                name.append(number::decimal_text(n).as_str());
                proof {
                    assert(name@ =~= list_name(n as nat));
                    assert(all.take(i + 1).drop_last() =~= all.take(i as int));
                    assert(all.take(i + 1).last() == key@);
                }
                keys.keep(hash, key, name, created_at);
                i = i + 1;
            }
            assert(all.take(all.len() as int) =~= all);
            keys
        },
    }
}

// ------------------------------------------------------------------ listing

/// What is shown of a key.
pub open spec fn info_of(id: Seq<char>, entry: KeyView) -> KeyInfoView {
    KeyInfoView {
        id,
        prefix: entry.prefix,
        name: entry.name,
        created_at_unix: clock::seconds_of(entry.created_at),
    }
}

/// What is shown of each pair.
pub open spec fn key_infos(pairs: Seq<(Seq<char>, KeyView)>) -> Seq<KeyInfoView> {
    pairs.map_values(|p: (Seq<char>, KeyView)| info_of(p.0, p.1))
}

/// What is shown of the keys in `pairs`, the oldest first.
pub fn list_keys(pairs: &Vec<(String, ApiKeyEntry)>) -> (r: Vec<ApiKeyInfo>)
    ensures
        order::is_stable_sort(
            order::ranks::<ApiKeyInfo>(),
            key_infos(pair_views(pairs@)),
            order::views(r@),
        ),
{
    let ghost shown = key_infos(pair_views(pairs@));
    let mut infos: Vec<ApiKeyInfo> = Vec::new();
    let mut i: usize = 0;
    assert(order::views(infos@) =~= shown.take(0));
    while i < pairs.len()
        invariant
            i <= pairs@.len(),
            shown == key_infos(pair_views(pairs@)),
            order::views(infos@) == shown.take(i as int),
        decreases pairs@.len() - i,
    {
        let entry: &ApiKeyEntry = &pairs[i].1;
        let info = ApiKeyInfo {
            id: pairs[i].0.clone(),
            prefix: entry.prefix.clone(),
            name: entry.name.clone(),
            created_at_unix: clock::unix_seconds(entry.created_at),
        };
        proof {
            assert(info@ == shown[i as int]);
            assert(order::views(infos@.push(info)) =~= order::views(infos@).push(info@));
            assert(shown.take(i + 1) =~= shown.take(i as int).push(info@));
        }
        infos.push(info);
        i = i + 1;
    }
    assert(shown.take(shown.len() as int) =~= shown);
    order::stable_sort(infos)
}

/// `infos` shows every key of `m`, each once, the oldest first. Keys of one second stand in no
/// particular order.
pub open spec fn shows(infos: Seq<KeyInfoView>, m: Map<Seq<char>, KeyView>) -> bool {
    exists|pairs: Seq<(Seq<char>, KeyView)>| #[trigger]
        table::lists(pairs, m) && order::is_stable_sort(
            order::ranks::<ApiKeyInfo>(),
            key_infos(pairs),
            infos,
        )
}

/// What is shown of the keys that are accepted, the oldest first.
pub fn api_key_entries(keys: &ApiKeys) -> (r: Vec<ApiKeyInfo>)
    ensures
        shows(order::views(r@), keys@),
{
    let pairs = all_keys(&keys.entries);
    list_keys(&pairs)
}

// --------------------------------------------------------------------- laws

/// A key that was just kept is accepted.
pub proof fn law_kept_key_is_accepted(
    m: Map<Seq<char>, KeyView>,
    hash: Seq<char>,
    key: Seq<char>,
    name: Seq<char>,
    created_at: WallTime,
)
    ensures
        knows(m.insert(id_of(hash), entry_for(hash, key, name, created_at)), hash),
{
    let new = m.insert(id_of(hash), entry_for(hash, key, name, created_at));
    assert(new.contains_key(id_of(hash)));
}

/// Every key stands under the id that its digest gives.
pub open spec fn ids_match(m: Map<Seq<char>, KeyView>) -> bool {
    forall|id: Seq<char>| #[trigger] m.contains_key(id) ==> id == id_of(m[id].hash)
}

/// Making an empty table, keeping a key and forgetting one leave every key under the id that its
/// digest gives.
pub proof fn law_ids_match(
    m: Map<Seq<char>, KeyView>,
    hash: Seq<char>,
    key: Seq<char>,
    name: Seq<char>,
    created_at: WallTime,
    id: Seq<char>,
)
    requires
        ids_match(m),
    ensures
        ids_match(Map::empty()),
        ids_match(m.insert(id_of(hash), entry_for(hash, key, name, created_at))),
        ids_match(m.remove(id)),
{
}

/// A loaded table has every key under the id that its digest gives.
pub proof fn law_loaded_ids_match(keys: Seq<Seq<char>>, created_at: WallTime)
    ensures
        ids_match(loaded(keys, created_at)),
    decreases keys.len(),
{
    if keys.len() > 0 {
        law_loaded_ids_match(keys.drop_last(), created_at);
    }
}

/// A key that was forgotten is accepted no longer, and every key with another id is accepted or
/// refused as before.
pub proof fn law_forgotten_key_is_refused(
    m: Map<Seq<char>, KeyView>,
    hash: Seq<char>,
    other: Seq<char>,
)
    requires
        ids_match(m),
        id_of(other) != id_of(hash),
    ensures
        !knows(m.remove(id_of(hash)), hash),
        knows(m.remove(id_of(hash)), other) == knows(m, other),
{
    if knows(m, other) {
        let id = choose|id: Seq<char>| #[trigger] m.contains_key(id) && m[id].hash == other;
        assert(m.remove(id_of(hash)).contains_key(id));
    }
    if knows(m.remove(id_of(hash)), other) {
        let id = choose|id: Seq<char>| #[trigger]
            m.remove(id_of(hash)).contains_key(id) && m.remove(id_of(hash))[id].hash == other;
        assert(m.contains_key(id));
    }
}

/// A listed key is accepted, unless a later one with another digest has the same id.
pub proof fn law_listed_key_is_accepted(keys: Seq<Seq<char>>, created_at: WallTime, i: int)
    requires
        0 <= i < keys.len(),
        forall|j: int|
            i < j < keys.len() && id_of(digest::secret_hash(#[trigger] keys[j])) == id_of(
                digest::secret_hash(keys[i]),
            ) ==> digest::secret_hash(keys[j]) == digest::secret_hash(keys[i]),
    ensures
        knows(loaded(keys, created_at), digest::secret_hash(keys[i])),
    decreases keys.len(),
{
    let hash = digest::secret_hash(keys[i]);
    let last = digest::secret_hash(keys.last());
    let all = loaded(keys, created_at);
    if i == keys.len() - 1 {
        assert(all.contains_key(id_of(hash)));
    } else {
        let front = keys.drop_last();
        assert forall|j: int|
            i < j < front.len() && id_of(digest::secret_hash(#[trigger] front[j])) == id_of(
                digest::secret_hash(front[i]),
            ) implies digest::secret_hash(front[j]) == digest::secret_hash(front[i]) by {
            assert(front[j] == keys[j]);
        }
        law_listed_key_is_accepted(front, created_at, i);
        law_loaded_ids_match(front, created_at);
        let m = loaded(front, created_at);
        let id = choose|id: Seq<char>| #[trigger] m.contains_key(id) && m[id].hash == hash;
        assert(keys[keys.len() - 1] == keys.last());
        assert(all.contains_key(id));
    }
}

/// Of a key at most its first twelve characters are shown, and an ellipsis.
pub proof fn law_prefix_shows_twelve_characters(head: Seq<char>, tail: Seq<char>)
    requires
        head.len() <= 12,
        head.len() == 12 || tail.len() == 0,
    ensures
        prefix_of(head + tail) == head + seq!['.', '.', '.'],
{
    reveal_strlit("...");
    let key = head + tail;
    if key.len() < 12 {
        assert(key =~= head);
    } else {
        assert(key.take(12) =~= head);
    }
    assert("..."@ =~= seq!['.', '.', '.']);
}

/// A key's id is the first sixteen digits of its digest.
pub proof fn law_id_is_the_head_of_the_digest(head: Seq<char>, tail: Seq<char>)
    requires
        head.len() == 16,
    ensures
        id_of(head + tail) == head,
{
    assert((head + tail).take(16) =~= head);
}

/// A key that the gateway makes is a mark and the two parts, each whole.
pub proof fn law_key_is_made_of_its_parts(first: Seq<char>, second: Seq<char>)
    ensures
        gateway_key(first, second) == seq!['s', 'k', '-', 'g', 'w', '-'] + first + seq!['-']
            + second,
{
    reveal_strlit("sk-gw-");
    reveal_strlit("-");
    assert("sk-gw-"@ =~= seq!['s', 'k', '-', 'g', 'w', '-']);
    assert("-"@ =~= seq!['-']);
}

/// A key gets the name asked for without the whitespace around it, and a stand-in where that leaves
/// nothing or no name is asked for.
pub proof fn law_name(before: Seq<char>, name: Seq<char>, behind: Seq<char>)
    requires
        forall|i: int| 0 <= i < before.len() ==> text::is_space(#[trigger] before[i]),
        forall|i: int| 0 <= i < behind.len() ==> text::is_space(#[trigger] behind[i]),
        name.len() > 0 ==> !text::is_space(name[0]) && !text::is_space(name.last()),
    ensures
        name.len() > 0 ==> name_for(Some(before + name + behind)) == name,
        name.len() == 0 ==> name_for(Some(before + name + behind)) == "API key"@,
        name_for(None) == "API key"@,
{
    text::law_trim(before, name, behind);
}

/// What is kept of a key is its digest, its prefix, its name and its time; what is shown of it is
/// its id, its prefix, its name and the seconds of its time.
pub proof fn law_entries_hold_what_they_are_made_of(
    hash: Seq<char>,
    key: Seq<char>,
    name: Seq<char>,
    created_at: WallTime,
    id: Seq<char>,
    entry: ApiKeyEntry,
    info: ApiKeyInfo,
)
    ensures
        entry_for(hash, key, name, created_at).hash == hash,
        entry_for(hash, key, name, created_at).prefix == prefix_of(key),
        entry_for(hash, key, name, created_at).name == name,
        entry_for(hash, key, name, created_at).created_at == created_at,
        info_of(id, entry@).id == id,
        info_of(id, entry@).prefix == entry.prefix@,
        info_of(id, entry@).name == entry.name@,
        !entry.created_at.before_epoch ==> info_of(id, entry@).created_at_unix
            == entry.created_at.seconds,
        entry.created_at.before_epoch ==> info_of(id, entry@).created_at_unix == 0,
        entry@.hash == entry.hash@,
        info@.id == info.id@,
        info@.prefix == info.prefix@,
        info@.name == info.name@,
        info@.created_at_unix == info.created_at_unix,
{
}

/// The maker of a key is told its id, the key itself, its prefix, its name and its time.
pub proof fn law_maker_is_told(
    r: CreateApiKeyResponse,
    requested: Option<Seq<char>>,
    key: Seq<char>,
    hash: Seq<char>,
    created_at: WallTime,
)
    requires
        answers(r, requested, key, hash, created_at),
    ensures
        r.id@ == hash.take(16),
        r.key@ == key,
        r.prefix@ == prefix_of(key),
        r.name@ == name_for(requested),
        !created_at.before_epoch ==> r.created_at_unix == created_at.seconds,
        created_at.before_epoch ==> r.created_at_unix == 0,
{
}

/// A digest is known exactly where a key with that digest, and no other, is kept.
pub proof fn law_known_digests(m: Map<Seq<char>, KeyView>, hash: Seq<char>, id: Seq<char>)
    ensures
        m.contains_key(id) && m[id].hash == hash ==> knows(m, hash),
        (forall|k: Seq<char>| #[trigger] m.contains_key(k) ==> m[k].hash != hash) ==> !knows(
            m,
            hash,
        ),
{
}

/// The keys of a list stand between commas: each is taken without the whitespace around it, and
/// where that leaves nothing there is no key.
pub proof fn law_listed_keys(
    before: Seq<char>,
    key: Seq<char>,
    behind: Seq<char>,
    rest: Seq<char>,
)
    requires
        forall|i: int| 0 <= i < before.len() ==> text::is_space(#[trigger] before[i]),
        forall|i: int| 0 <= i < behind.len() ==> text::is_space(#[trigger] behind[i]),
        key.len() > 0 ==> !text::is_space(key[0]) && !text::is_space(key.last()),
        forall|i: int| 0 <= i < key.len() ==> #[trigger] key[i] != ',',
    ensures
        key.len() > 0 ==> listed_keys(before + key + behind) == seq![key],
        key.len() == 0 ==> listed_keys(before + key + behind) == Seq::<Seq<char>>::empty(),
        listed_keys((before + key + behind).push(',') + rest) == listed_keys(before + key + behind)
            + listed_keys(rest),
{
    let piece = before + key + behind;
    let trimmed = |p: Seq<char>| text::trim(p);
    let wanted = |p: Seq<char>| p.len() > 0;
    assert forall|i: int| 0 <= i < piece.len() implies #[trigger] piece[i] != ',' by {
        if i < before.len() {
            assert(text::is_space(before[i]));
        } else if i < before.len() + key.len() {
            assert(piece[i] == key[i - before.len()]);
        } else {
            assert(text::is_space(behind[i - before.len() - key.len()]));
        }
    }
    text::law_trim(before, key, behind);
    text::law_split(piece, rest, ',');
    let one = seq![piece].map_values(trimmed);
    let more = text::split(rest, ',').map_values(trimmed);
    assert(one =~= seq![key]);
    assert((seq![piece] + text::split(rest, ',')).map_values(trimmed) =~= one + more);
    Seq::filter_distributes_over_add(one, more, wanted);
    assert(one.filter(wanted) =~= if key.len() > 0 {
        seq![key]
    } else {
        seq![]
    }) by {
        reveal_with_fuel(Seq::filter, 2);
        assert(one.drop_last() =~= seq![]);
    }
}

/// Loading one more key keeps it under its id, with its name by its number, and leaves every other
/// id as it was.
pub proof fn law_loading(keys: Seq<Seq<char>>, key: Seq<char>, created_at: WallTime)
    ensures
        loaded(seq![], created_at) == (Map::<Seq<char>, KeyView>::empty()),
        loaded(keys.push(key), created_at) == loaded(keys, created_at).insert(
            digest::secret_hash(key).take(16),
            KeyView {
                hash: digest::secret_hash(key),
                prefix: prefix_of(key),
                name: "Env key "@ + number::decimal(keys.len() + 1),
                created_at,
            },
        ),
{
    assert(keys.push(key).drop_last() =~= keys);
}

/// A listing shows every key, once, as it is, the oldest first, and nothing else.
pub proof fn law_key_listing_is_complete(infos: Seq<KeyInfoView>, m: Map<Seq<char>, KeyView>)
    requires
        shows(infos, m),
    ensures
        forall|k: Seq<char>| #[trigger]
            m.contains_key(k) ==> infos.contains(info_of(k, m[k])),
        forall|i: int|
            0 <= i < infos.len() ==> m.contains_key((#[trigger] infos[i]).id) && infos[i]
                == info_of(infos[i].id, m[infos[i].id]),
        forall|i: int, j: int|
            0 <= i < j < infos.len() ==> (#[trigger] infos[i]).created_at_unix <= (
            #[trigger] infos[j]).created_at_unix && infos[i].id != infos[j].id,
{
    let pairs = choose|pairs: Seq<(Seq<char>, KeyView)>| #[trigger]
        table::lists(pairs, m) && order::is_stable_sort(
            order::ranks::<ApiKeyInfo>(),
            key_infos(pairs),
            infos,
        );
    let all = key_infos(pairs);
    let rank = order::ranks::<ApiKeyInfo>();
    all.to_multiset_ensures();
    infos.to_multiset_ensures();
    assert forall|i: int, j: int| 0 <= i < j < all.len() implies (#[trigger] all[i]).id != (
    #[trigger] all[j]).id by {
        assert(pairs[i].0 != pairs[j].0);
    }
    all.lemma_multiset_has_no_duplicates();
    infos.lemma_multiset_has_no_duplicates_conv();
    assert forall|i: int| 0 <= i < infos.len() implies all.contains(#[trigger] infos[i]) by {
        assert(infos.contains(infos[i]));
        assert(all.to_multiset().count(infos[i]) > 0);
    }
    assert forall|k: Seq<char>| #[trigger] m.contains_key(k) implies infos.contains(
        info_of(k, m[k]),
    ) by {
        let n = choose|n: int| 0 <= n < pairs.len() && (#[trigger] pairs[n]).0 == k;
        assert(all[n] == info_of(k, m[k]));
        assert(all.contains(all[n]));
        assert(infos.to_multiset().count(all[n]) > 0);
    }
    assert forall|i: int| 0 <= i < infos.len() implies m.contains_key((#[trigger] infos[i]).id)
        && infos[i] == info_of(infos[i].id, m[infos[i].id]) by {
        let n = choose|n: int| 0 <= n < all.len() && all[n] == infos[i];
        assert(all[n] == info_of(pairs[n].0, pairs[n].1));
        assert(m.contains_key(pairs[n].0));
    }
    assert forall|i: int, j: int| 0 <= i < j < infos.len() implies (
    #[trigger] infos[i]).created_at_unix <= (#[trigger] infos[j]).created_at_unix && infos[i].id
        != infos[j].id by {
        reveal_with_fuel(order::before, 2);
        assert(!order::before(rank(infos[j]), rank(infos[i])));
        let p = choose|p: int| 0 <= p < all.len() && all[p] == infos[i];
        let q = choose|q: int| 0 <= q < all.len() && all[q] == infos[j];
        assert(infos[i] != infos[j]);
        assert(p != q);
    }
}

/// What is listed of pairs is what is shown of each, and the oldest come first.
pub proof fn law_listed_pairs(pairs: Seq<(String, ApiKeyEntry)>, i: int, info: ApiKeyInfo)
    requires
        0 <= i < pairs.len(),
    ensures
        pair_views(pairs).len() == pairs.len(),
        pair_views(pairs)[i] == (pairs[i].0@, pairs[i].1@),
        key_infos(pair_views(pairs)).len() == pairs.len(),
        key_infos(pair_views(pairs))[i] == info_of(pairs[i].0@, pairs[i].1@),
        ApiKeyInfo::rank(info@) == seq![info.created_at_unix as int],
{
}

} // verus!
