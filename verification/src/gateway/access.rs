//! Who may ask: clients by their keys, administrators by a token.

use crate::clock::WallTime;
use crate::digest;
use crate::error::AppError;
use crate::gateway::api_keys;
use crate::gateway::api_keys::ApiKeys;
use crate::text;
use axum::http::{HeaderMap, HeaderValue};
use vstd::hash_map::StringHashMap;
use vstd::prelude::*;
use vstd::utf8::*;

verus! {

// ------------------------------------------------------------------ headers

/// `axum::http::HeaderMap`, the headers of a request.
#[verifier::external_type_specification]
#[verifier::external_body]
#[verifier::reject_recursive_types(T)]
pub struct ExHeaderMap<T>(axum::http::HeaderMap<T>);

/// `axum::http::HeaderValue`, the value of a header.
#[verifier::external_type_specification]
#[verifier::external_body]
pub struct ExHeaderValue(axum::http::HeaderValue);

/// The first value that stands under each name that can be asked for in a header map. Names are in
/// lower case.
pub uninterp spec fn first_values(headers: HeaderMap<HeaderValue>) -> Map<Seq<char>, Seq<u8>>;

/// `c`, or the lower-case letter for it where it is an ASCII letter.
pub open spec fn lower(c: char) -> char {
    if 'A' <= c <= 'Z' {
        (c as u32 + 32) as char
    } else {
        c
    }
}

/// `name` with its ASCII letters in lower case.
pub open spec fn lowered(name: Seq<char>) -> Seq<char> {
    name.map_values(|c: char| lower(c))
}

/// A name without capital letters is in lower case.
pub proof fn lemma_lowered(name: Seq<char>)
    requires
        forall|i: int| 0 <= i < name.len() ==> !('A' <= #[trigger] name[i] <= 'Z'),
    ensures
        lowered(name) == name,
{
    assert(lowered(name) =~= name);
}

/// `HeaderMap::get` finds the first value under a name, if there is one. Whether the letters of the
/// name are capital does not matter.
#[verifier::external_body]
pub(crate) fn first_value<'a>(headers: &'a HeaderMap<HeaderValue>, name: &str) -> (r: Option<
    &'a [u8],
>)
    ensures
        r is Some <==> first_values(*headers).contains_key(lowered(name@)),
        r matches Some(value) ==> value@ == first_values(*headers)[lowered(name@)],
{
    headers.get(name).map(|value| value.as_bytes())
}

/// Whether a header value is text: visible ASCII, spaces and tabs.
pub open spec fn is_visible(bytes: Seq<u8>) -> bool {
    forall|i: int| 0 <= i < bytes.len() ==> 32 <= #[trigger] bytes[i] < 127 || bytes[i] == 9
}

/// The text that ASCII bytes spell.
pub open spec fn ascii_text(bytes: Seq<u8>) -> Seq<char> {
    Seq::new(bytes.len(), |i: int| bytes[i] as char)
}

/// The text of the header `name`, if it has one that is not empty.
pub open spec fn header_text(values: Map<Seq<char>, Seq<u8>>, name: Seq<char>) -> Option<
    Seq<char>,
> {
    let key = lowered(name);
    if values.contains_key(key) && is_visible(values[key]) && values[key].len() > 0 {
        Some(ascii_text(values[key]))
    } else {
        None
    }
}

/// The token behind `Bearer` in the `authorization` header.
pub open spec fn bearer(values: Map<Seq<char>, Seq<u8>>) -> Option<Seq<char>> {
    match header_text(values, "authorization"@) {
        Some(value) => if text::starts_with(value, "Bearer "@) {
            Some(text::trim(value.skip("Bearer "@.len() as int)))
        } else {
            None
        },
        None => None,
    }
}

/// The text of visible ASCII bytes; none if a byte is something else.
pub fn visible_text(bytes: &[u8]) -> (r: Option<String>)
    ensures
        match r {
            Some(t) => is_visible(bytes@) && t@ == ascii_text(bytes@),
            None => !is_visible(bytes@),
        },
{
    let mut out = String::new();
    let mut i: usize = 0;
    assert(out@ =~= ascii_text(bytes@.take(0)));
    while i < bytes.len()
        invariant
            i <= bytes@.len(),
            out@ == ascii_text(bytes@.take(i as int)),
            forall|k: int| 0 <= k < i ==> 32 <= #[trigger] bytes@[k] < 127 || bytes@[k] == 9,
        decreases bytes@.len() - i,
    {
        let b: u8 = bytes[i];
        if !((32 <= b && b < 127) || b == 9) {
            return None;
        }
        out.push(b as char);
        assert(ascii_text(bytes@.take(i + 1)) =~= ascii_text(bytes@.take(i as int)).push(
            b as char,
        ));
        i = i + 1;
    }
    assert(bytes@.take(bytes@.len() as int) =~= bytes@);
    Some(out)
}

/// The text of the header `name`, if it has one that is not empty.
pub fn header_value(headers: &HeaderMap<HeaderValue>, name: &str) -> (r: Option<String>)
    ensures
        text::opt_string(r) == header_text(first_values(*headers), name@),
{
    match first_value(headers, name) {
        Some(bytes) => if bytes.len() == 0 {
            None
        } else {
            visible_text(bytes)
        },
        None => None,
    }
}

/// The token behind `Bearer` in the `authorization` header, without the whitespace around it.
pub fn bearer_token(headers: &HeaderMap<HeaderValue>) -> (r: Option<String>)
    ensures
        text::opt_string(r) == bearer(first_values(*headers)),
{
    match header_value(headers, "authorization") {
        Some(value) => match text::after_prefix(value.as_str(), "Bearer ") {
            Some(token) => Some(text::trimmed(token.as_str())),
            None => None,
        },
        None => None,
    }
}

// ------------------------------------------------------------------ clients

/// The key that a client presents: a bearer token, or else the `x-api-key` header.
pub open spec fn presented_key(values: Map<Seq<char>, Seq<u8>>) -> Option<Seq<char>> {
    match bearer(values) {
        Some(token) => Some(token),
        None => header_text(values, "x-api-key"@),
    }
}

/// Why a client that presents a key with the digest `hash` is refused; none if it is let in. The
/// gateway is open to all while it does not ask for keys and has none.
pub open spec fn client_refusal(
    require_api_key: bool,
    keys: Map<Seq<char>, api_keys::KeyView>,
    hash: Option<Seq<char>>,
) -> Option<Seq<char>> {
    if !require_api_key && keys == Map::<Seq<char>, api_keys::KeyView>::empty() {
        None
    } else {
        match hash {
            None => Some("api key required"@),
            Some(h) => if api_keys::knows(keys, h) {
                None
            } else {
                Some("invalid api key"@)
            },
        }
    }
}

/// The digest of the key that a client presents.
pub open spec fn presented_hash(values: Map<Seq<char>, Seq<u8>>) -> Option<Seq<char>> {
    match presented_key(values) {
        Some(key) => Some(digest::secret_hash(key)),
        None => None,
    }
}

/// `r` lets in where there is no refusal, and refuses with the message of the one that there is.
pub open spec fn decides(r: Result<(), AppError>, refusal: Option<Seq<char>>) -> bool {
    match r {
        Ok(()) => refusal is None,
        Err(AppError::Unauthorized(message)) => refusal == Some(message@),
        Err(_) => false,
    }
}

/// Whether a client that presents a key with the digest `hash` is let in.
pub fn admit_client(require_api_key: bool, keys: &ApiKeys, hash: Option<&str>) -> (r: Result<
    (),
    AppError,
>)
    ensures
        decides(r, client_refusal(require_api_key, keys@, text::opt_text(hash))),
{
    if !require_api_key && keys.is_empty() {
        return Ok(());
    }
    match hash {
        None => Err(AppError::Unauthorized("api key required".to_string())),
        Some(h) => if keys.accepts(h) {
            Ok(())
        } else {
            Err(AppError::Unauthorized("invalid api key".to_string()))
        },
    }
}

/// Whether a client with these headers is let in.
pub fn require_client_api_key(
    require_api_key: bool,
    keys: &ApiKeys,
    headers: &HeaderMap<HeaderValue>,
) -> (r: Result<(), AppError>)
    ensures
        decides(r, client_refusal(require_api_key, keys@, presented_hash(first_values(*headers)))),
{
    let presented = match bearer_token(headers) {
        Some(token) => Some(token),
        None => header_value(headers, "x-api-key"),
    };
    match presented {
        Some(key) => {
            let hash = digest::hash_secret(key.as_str());
            admit_client(require_api_key, keys, Some(hash.as_str()))
        },
        None => admit_client(require_api_key, keys, None),
    }
}

// ----------------------------------------------------------- administrators

/// The parameters of a request's query.
pub struct QueryParams {
    params: StringHashMap<String>,
}

impl View for QueryParams {
    type V = Map<Seq<char>, Seq<char>>;

    closed spec fn view(&self) -> Map<Seq<char>, Seq<char>> {
        self.params@.map_values(|v: String| v@)
    }
}

/// What a query has under `name`.
pub open spec fn param(query: Map<Seq<char>, Seq<char>>, name: Seq<char>) -> Option<Seq<char>> {
    if query.contains_key(name) {
        Some(query[name])
    } else {
        None
    }
}

impl QueryParams {
    /// A query without parameters.
    pub fn new() -> (r: Self)
        ensures
            r@ == (Map::<Seq<char>, Seq<char>>::empty()),
    {
        let r = QueryParams { params: StringHashMap::new() };
        assert(r@ =~= Map::<Seq<char>, Seq<char>>::empty());
        r
    }

    /// Sets a parameter.
    pub fn set(&mut self, name: String, value: String)
        ensures
            final(self)@ == old(self)@.insert(name@, value@),
    {
        self.params.insert(name, value);
        assert(self@ =~= old(self)@.insert(name@, value@));
    }

    /// The value of a parameter.
    pub fn get(&self, name: &str) -> (r: Option<&str>)
        ensures
            text::opt_text(r) == param(self@, name@),
    {
        match self.params.get(name) {
            Some(value) => Some(value.as_str()),
            None => None,
        }
    }
}

/// The token that an administrator presents: a query parameter, or else the `x-admin-token` header,
/// or else a bearer token.
pub open spec fn presented_token(
    values: Map<Seq<char>, Seq<u8>>,
    query: Map<Seq<char>, Seq<char>>,
) -> Option<Seq<char>> {
    match param(query, "admin_token"@) {
        Some(token) => Some(token),
        None => match header_text(values, "x-admin-token"@) {
            Some(token) => Some(token),
            None => bearer(values),
        },
    }
}

/// Why an administrator who presents `presented` is refused; none if the token is the expected one
/// or none is expected.
pub open spec fn admin_refusal(
    expected: Option<Seq<char>>,
    presented: Option<Seq<char>>,
) -> Option<Seq<char>> {
    if expected is None || presented == expected {
        None
    } else {
        Some("admin token required"@)
    }
}

/// Whether a request with these headers and this query comes from an administrator.
pub fn require_admin(
    expected: Option<&str>,
    headers: &HeaderMap<HeaderValue>,
    query: &QueryParams,
) -> (r: Result<(), AppError>)
    ensures
        decides(
            r,
            admin_refusal(
                text::opt_text(expected),
                presented_token(first_values(*headers), query@),
            ),
        ),
{
    let wanted: &str = match expected {
        Some(token) => token,
        None => {
            return Ok(());
        },
    };
    let presented: Option<String> = match query.get("admin_token") {
        Some(token) => Some(token.to_string()),
        None => match header_value(headers, "x-admin-token") {
            Some(token) => Some(token),
            None => bearer_token(headers),
        },
    };
    match presented {
        Some(token) => if text::same_text(token.as_str(), wanted) {
            Ok(())
        } else {
            Err(AppError::Unauthorized("admin token required".to_string()))
        },
        None => Err(AppError::Unauthorized("admin token required".to_string())),
    }
}

// --------------------------------------------------------------------- laws

/// A gateway that neither asks for keys nor has any lets everyone in.
pub proof fn law_open_gateway_lets_everyone_in(hash: Option<Seq<char>>)
    ensures
        client_refusal(false, Map::empty(), hash) is None,
{
}

/// A gateway that asks for keys and has none lets nobody in.
pub proof fn law_closed_gateway_without_keys_lets_nobody_in(hash: Option<Seq<char>>)
    ensures
        client_refusal(true, Map::empty(), hash) is Some,
{
}

/// Without an expected token everyone is an administrator; with one, exactly those who present it.
pub proof fn law_admin_token_decides(expected: Seq<char>, presented: Option<Seq<char>>)
    ensures
        admin_refusal(None, presented) is None,
        admin_refusal(Some(expected), presented) is None <==> presented == Some(expected),
{
}

/// Whether a text can stand in a header: visible ASCII, spaces and tabs, and not empty.
pub open spec fn fits_header(t: Seq<char>) -> bool {
    &&& t.len() > 0
    &&& forall|i: int|
        0 <= i < t.len() ==> ' ' <= #[trigger] t[i] <= '~' || t[i] == '\t'
}

/// Whether a client can present `key`: it can stand in a header, and has no whitespace around it.
pub open spec fn is_presentable(key: Seq<char>) -> bool {
    fits_header(key) && text::trim(key) == key
}

/// A text that can stand in a header is read back from the bytes that it is sent as.
proof fn lemma_header_reads_back(values: Map<Seq<char>, Seq<u8>>, name: Seq<char>, t: Seq<char>)
    requires
        fits_header(t),
        lowered(name) == name,
        values.contains_key(name),
        values[name] == encode_utf8(t),
    ensures
        header_text(values, name) == Some(t),
{
    let bytes = encode_utf8(t);
    assert(is_ascii_chars(t));
    is_ascii_chars_encode_utf8(t);
    assert forall|i: int| 0 <= i < bytes.len() implies (32 <= #[trigger] bytes[i] < 127 || bytes[i]
        == 9) && bytes[i] as char == t[i] by {
        assert(t[i] as u8 == bytes[i]);
    }
    assert(ascii_text(bytes) =~= t);
}

/// A text that is visible at both ends is what is left of it when it is trimmed.
proof fn lemma_trim_keeps(t: Seq<char>)
    requires
        t.len() > 0,
        !text::is_space(t[0]),
        !text::is_space(t.last()),
    ensures
        text::trim(t) == t,
{
}

/// A client can present every key that the gateway makes.
pub proof fn law_gateway_key_is_presentable(key: Seq<char>)
    requires
        api_keys::is_gateway_key(key),
    ensures
        is_presentable(key),
{
    reveal_strlit("sk-gw-");
    reveal_strlit("-");
    let (a, b) = choose|a: Seq<char>, b: Seq<char>|
        api_keys::is_random_uuid(a) && api_keys::is_random_uuid(b) && key
            == #[trigger] api_keys::gateway_key(a, b);
    assert(key.len() == 79);
    assert forall|i: int| 0 <= i < key.len() implies ' ' <= #[trigger] key[i] <= '~' by {
        if 6 <= i < 42 {
            assert(key[i] == a[i - 6]);
        } else if i >= 43 {
            assert(key[i] == b[i - 43]);
        }
    }
    lemma_trim_keeps(key);
}

/// A key that was just kept lets the client in that presents it, as a bearer token or in the
/// `x-api-key` header, whether or not the gateway asks for keys.
pub proof fn law_kept_key_lets_its_client_in(
    m: Map<Seq<char>, api_keys::KeyView>,
    require_api_key: bool,
    key: Seq<char>,
    name: Seq<char>,
    created_at: WallTime,
    values: Map<Seq<char>, Seq<u8>>,
)
    requires
        is_presentable(key),
        ({
            ||| values.contains_key("authorization"@) && values["authorization"@] == encode_utf8(
                "Bearer "@ + key,
            )
            ||| !values.contains_key("authorization"@) && values.contains_key("x-api-key"@)
                && values["x-api-key"@] == encode_utf8(key)
        }),
    ensures
        ({
            let hash = digest::secret_hash(key);
            let kept = m.insert(
                api_keys::id_of(hash),
                api_keys::entry_for(hash, key, name, created_at),
            );
            client_refusal(require_api_key, kept, presented_hash(values)) is None
        }),
{
    reveal_strlit("Bearer ");
    reveal_strlit("authorization");
    reveal_strlit("x-api-key");
    lemma_lowered("authorization"@);
    lemma_lowered("x-api-key"@);
    let hash = digest::secret_hash(key);
    api_keys::law_kept_key_is_accepted(m, hash, key, name, created_at);
    if values.contains_key("authorization"@) {
        let line = "Bearer "@ + key;
        lemma_header_reads_back(values, "authorization"@, line);
        assert(line.take("Bearer "@.len() as int) =~= "Bearer "@);
        assert(line.skip("Bearer "@.len() as int) =~= key);
    } else {
        lemma_header_reads_back(values, "x-api-key"@, key);
    }
    assert(presented_hash(values) == Some(hash));
}

/// A key that was forgotten lets nobody in, unless the gateway has become open to all.
pub proof fn law_forgotten_key_lets_nobody_in(
    m: Map<Seq<char>, api_keys::KeyView>,
    require_api_key: bool,
    hash: Seq<char>,
)
    requires
        api_keys::ids_match(m),
    ensures
        ({
            let left = m.remove(api_keys::id_of(hash));
            client_refusal(require_api_key, left, Some(hash)) == if !require_api_key && left
                == Map::<Seq<char>, api_keys::KeyView>::empty() {
                None
            } else {
                Some("invalid api key"@)
            }
        }),
{
}

/// Only capital letters are changed, each into its small one.
pub proof fn law_lowered(name: Seq<char>, i: int)
    requires
        0 <= i < name.len(),
    ensures
        lowered(name).len() == name.len(),
        'A' <= name[i] <= 'Z' ==> lowered(name)[i] as int == name[i] as int + 32,
        !('A' <= name[i] <= 'Z') ==> lowered(name)[i] == name[i],
{
    lemma_lower(name[i]);
}

/// The small letter for a capital one.
proof fn lemma_lower(c: char)
    ensures
        'A' <= c <= 'Z' ==> lower(c) as int == c as int + 32,
{
}

/// A header is read as the text that it was sent with; one that is missing, empty or not visible
/// text is not read.
pub proof fn law_header_is_read_as_it_was_sent(
    values: Map<Seq<char>, Seq<u8>>,
    name: Seq<char>,
    t: Seq<char>,
    i: int,
)
    requires
        t.len() > 0,
        forall|k: int| 0 <= k < t.len() ==> ' ' <= #[trigger] t[k] <= '~' || t[k] == '\t',
        lowered(name) == name,
    ensures
        values.contains_key(name) && values[name] == encode_utf8(t) ==> header_text(values, name)
            == Some(t),
        !values.contains_key(name) ==> header_text(values, name) is None,
        values[name].len() == 0 ==> header_text(values, name) is None,
        0 <= i < values[name].len() && values[name][i] != 9 && !(32 <= values[name][i] <= 126)
            ==> header_text(values, name) is None,
{
    if values.contains_key(name) && values[name] == encode_utf8(t) {
        lemma_header_reads_back(values, name, t);
    }
}

/// A bearer token is what stands behind `Bearer` and a space, without the whitespace around it;
/// another authorization, or none, gives no token.
pub proof fn law_bearer_token(
    values: Map<Seq<char>, Seq<u8>>,
    before: Seq<char>,
    token: Seq<char>,
    behind: Seq<char>,
    other: Seq<char>,
)
    requires
        forall|i: int| 0 <= i < before.len() ==> #[trigger] before[i] == ' ' || before[i] == '\t',
        forall|i: int| 0 <= i < behind.len() ==> #[trigger] behind[i] == ' ' || behind[i] == '\t',
        forall|i: int|
            0 <= i < token.len() ==> ' ' <= #[trigger] token[i] <= '~' || token[i] == '\t',
        token.len() > 0 ==> ' ' < token[0] && ' ' < token.last(),
        forall|i: int| 0 <= i < other.len() ==> ' ' <= #[trigger] other[i] <= '~',
        other.len() > 0,
        other.len() < 7 || other.take(7) != seq!['B', 'e', 'a', 'r', 'e', 'r', ' '],
    ensures
        values.contains_key("authorization"@) && values["authorization"@] == encode_utf8(
            seq!['B', 'e', 'a', 'r', 'e', 'r', ' '] + (before + token + behind),
        ) ==> bearer(values) == Some(token),
        values.contains_key("authorization"@) && values["authorization"@] == encode_utf8(other)
            ==> bearer(values) is None,
        !values.contains_key("authorization"@) ==> bearer(values) is None,
{
    reveal_strlit("Bearer ");
    reveal_strlit("authorization");
    lemma_lowered("authorization"@);
    let mark = seq!['B', 'e', 'a', 'r', 'e', 'r', ' '];
    assert("Bearer "@ =~= mark);
    let value = before + token + behind;
    let line = mark + value;
    if values.contains_key("authorization"@) && values["authorization"@] == encode_utf8(line) {
        assert forall|i: int| 0 <= i < line.len() implies ' ' <= #[trigger] line[i] <= '~'
            || line[i] == '\t' by {
            if i < 7 {
                assert(line[i] == mark[i]);
            } else if i < 7 + before.len() {
                assert(line[i] == before[i - 7]);
            } else if i < 7 + before.len() + token.len() {
                assert(line[i] == token[i - 7 - before.len()]);
            } else {
                assert(line[i] == behind[i - 7 - before.len() - token.len()]);
            }
        }
        lemma_header_reads_back(values, "authorization"@, line);
        assert(line.take(7) =~= mark);
        assert(line.skip(7) =~= value);
        if token.len() > 0 {
            assert(' ' < token[0] <= '~');
            assert(' ' < token[token.len() - 1] <= '~');
            lemma_visible(token[0]);
            lemma_visible(token.last());
        }
        text::law_trim(before, token, behind);
    }
    if values.contains_key("authorization"@) && values["authorization"@] == encode_utf8(other) {
        lemma_header_reads_back(values, "authorization"@, other);
    }
}

/// Of visible ASCII the space alone is whitespace.
proof fn lemma_visible(c: char)
    requires
        ' ' < c <= '~',
    ensures
        !text::is_space(c),
{
}

/// A client's key is the bearer token where there is one, and the header of its own where there is
/// none; what counts of it is the digest of the whole key.
pub proof fn law_presented_key(values: Map<Seq<char>, Seq<u8>>)
    ensures
        bearer(values) is Some ==> presented_key(values) == bearer(values),
        bearer(values) is None ==> presented_key(values) == header_text(values, "x-api-key"@),
        presented_key(values) is None <==> presented_hash(values) is None,
        presented_key(values) matches Some(key) ==> presented_hash(values) == Some(
            digest::secret_hash(key),
        ),
{
}

/// Where keys are asked for or there are any, a client gets in exactly with a known key, and is told
/// otherwise whether it has shown none or a wrong one.
pub proof fn law_clients_need_a_known_key(
    require_api_key: bool,
    keys: Map<Seq<char>, api_keys::KeyView>,
    id: Seq<char>,
    hash: Seq<char>,
)
    requires
        require_api_key || keys.contains_key(id),
    ensures
        client_refusal(require_api_key, keys, None) == Some("api key required"@),
        client_refusal(require_api_key, keys, Some(hash)) is None <==> exists|k: Seq<char>| #[trigger]
            keys.contains_key(k) && keys[k].hash == hash,
        client_refusal(require_api_key, keys, Some(hash)) is Some ==> client_refusal(
            require_api_key,
            keys,
            Some(hash),
        ) == Some("invalid api key"@),
{
    if keys.contains_key(id) {
        assert(keys != Map::<Seq<char>, api_keys::KeyView>::empty());
    }
}

/// An administrator's token is the query parameter where there is one, or else the header of its
/// own, or else the bearer token, each whole; a wrong one is refused with one message.
pub proof fn law_presented_token(
    values: Map<Seq<char>, Seq<u8>>,
    query: Map<Seq<char>, Seq<char>>,
    expected: Seq<char>,
)
    ensures
        query.contains_key("admin_token"@) ==> presented_token(values, query) == Some(
            query["admin_token"@],
        ),
        !query.contains_key("admin_token"@) && header_text(values, "x-admin-token"@) is Some
            ==> presented_token(values, query) == header_text(values, "x-admin-token"@),
        !query.contains_key("admin_token"@) && header_text(values, "x-admin-token"@) is None
            ==> presented_token(values, query) == bearer(values),
        presented_token(values, query) != Some(expected) ==> admin_refusal(
            Some(expected),
            presented_token(values, query),
        ) == Some("admin token required"@),
{
}

/// A query has a parameter with its value, whole, exactly where it is there.
pub proof fn law_param(query: Map<Seq<char>, Seq<char>>, name: Seq<char>)
    ensures
        query.contains_key(name) ==> param(query, name) == Some(query[name]),
        !query.contains_key(name) ==> param(query, name) is None,
{
}

/// A decision lets in or refuses as an unauthorized request, with the message.
pub proof fn law_decisions(r: Result<(), AppError>, refusal: Option<Seq<char>>)
    requires
        decides(r, refusal),
    ensures
        r is Ok <==> refusal is None,
        r matches Err(e) ==> e is Unauthorized && refusal == Some(e.message()),
{
}

} // verus!
