//! Where the gateway finds the worker, and what it makes of the worker's answers.

use crate::gateway::access;
use crate::number;
use crate::text;
use axum::http::{HeaderMap, HeaderValue};
use vstd::prelude::*;
use vstd::utf8::*;

verus! {

// ----------------------------------------------------------------- settings

/// The port that the gateway listens at where none is set.
pub const DEFAULT_PORT: u16 = 8080;

/// What the environment says; nothing where a variable is not set.
#[derive(Debug)]
pub struct GatewayEnv {
    pub port: Option<String>,
    pub worker_url: Option<String>,
    pub chat_completions_url: Option<String>,
    pub models_url: Option<String>,
    pub admin_accounts_url: Option<String>,
    pub admin_token: Option<String>,
    pub require_api_key: Option<String>,
}

/// How the gateway is set up.
#[derive(Debug)]
pub struct GatewaySettings {
    pub port: u16,
    pub worker_url: String,
    pub chat_completions_url: String,
    pub models_url: String,
    pub admin_accounts_url: String,
    pub admin_token: Option<String>,
    pub require_api_key: bool,
}

/// The text that is set, or `default` where none is.
pub open spec fn text_or(value: Option<Seq<char>>, default: Seq<char>) -> Seq<char> {
    match value {
        Some(v) => v,
        None => default,
    }
}

/// The address that stands beside the worker's compression address.
pub open spec fn sibling(worker_url: Seq<char>, path: Seq<char>) -> Seq<char> {
    text::replace(worker_url, "/v1/compress"@, path)
}

/// The token that is expected of administrators: none where the one that is set is blank.
pub open spec fn expected_token(value: Option<Seq<char>>) -> Option<Seq<char>> {
    match value {
        Some(v) => if text::trim(v).len() > 0 {
            Some(v)
        } else {
            None
        },
        None => None,
    }
}

/// Whether a setting is switched on.
pub open spec fn is_on(value: Option<Seq<char>>) -> bool {
    match value {
        Some(v) => v == "1"@ || v == "true"@ || v == "TRUE"@ || v == "yes"@ || v == "YES"@,
        None => false,
    }
}

/// The worker's compression address.
pub open spec fn worker_address(env: GatewayEnv) -> Seq<char> {
    text_or(
        text::opt_string(env.worker_url),
        "http://worker.railway.internal:8080/v1/compress"@,
    )
}

/// A setting, or an address beside the worker's where it is not set.
fn url_or_sibling(value: Option<String>, worker_url: &str, path: &str) -> (r: String)
    ensures
        r@ == text_or(text::opt_string(value), sibling(worker_url@, path@)),
{
    match value {
        Some(url) => url,
        None => {
            proof {
                reveal_strlit("/v1/compress");
            }
            text::replaced(worker_url, "/v1/compress", path)
        },
    }
}

/// Whether a setting is switched on.
pub fn switched_on(value: &str) -> (r: bool)
    ensures
        r == is_on(Some(value@)),
{
    text::same_text(value, "1") || text::same_text(value, "true") || text::same_text(value, "TRUE")
        || text::same_text(value, "yes") || text::same_text(value, "YES")
}

/// How the gateway is set up in this environment.
pub fn gateway_settings(env: GatewayEnv) -> (r: GatewaySettings)
    ensures
        r.port == number::parsed_or(
            text::opt_string(env.port),
            u16::MAX as nat,
            DEFAULT_PORT as nat,
        ),
        r.worker_url@ == worker_address(env),
        r.chat_completions_url@ == text_or(
            text::opt_string(env.chat_completions_url),
            sibling(worker_address(env), "/v1/chat/completions"@),
        ),
        r.models_url@ == text_or(
            text::opt_string(env.models_url),
            sibling(worker_address(env), "/v1/models"@),
        ),
        r.admin_accounts_url@ == text_or(
            text::opt_string(env.admin_accounts_url),
            sibling(worker_address(env), "/api/admin/accounts"@),
        ),
        text::opt_string(r.admin_token) == expected_token(text::opt_string(env.admin_token)),
        r.require_api_key == is_on(text::opt_string(env.require_api_key)),
{
    let port: u16 = number::parse_or(
        text::borrowed(&env.port),
        65535,
        DEFAULT_PORT as u64,
    ) as u16;
    let worker_url: String = match env.worker_url {
        Some(url) => url,
        None => "http://worker.railway.internal:8080/v1/compress".to_string(),
    };
    let chat_completions_url = url_or_sibling(
        env.chat_completions_url,
        worker_url.as_str(),
        "/v1/chat/completions",
    );
    let models_url = url_or_sibling(env.models_url, worker_url.as_str(), "/v1/models");
    let admin_accounts_url = url_or_sibling(
        env.admin_accounts_url,
        worker_url.as_str(),
        "/api/admin/accounts",
    );
    let admin_token: Option<String> = match env.admin_token {
        Some(token) => if text::trimmed(token.as_str()).as_str().is_empty() {
            None
        } else {
            Some(token)
        },
        None => None,
    };
    let require_api_key: bool = match env.require_api_key {
        Some(value) => switched_on(value.as_str()),
        None => false,
    };
    GatewaySettings {
        port,
        worker_url,
        chat_completions_url,
        models_url,
        admin_accounts_url,
        admin_token,
        require_api_key,
    }
}

// ---------------------------------------------------------------- addresses

/// The address of an item below `base`.
pub open spec fn below(base: Seq<char>, item: Seq<char>) -> Seq<char> {
    text::strip_end(base, '/').push('/') + item
}

/// The address of an item below `base`.
pub fn item_url(base: &str, item: &str) -> (r: String)
    ensures
        r@ == below(base@, item@),
{
    let mut url = text::without_trailing(base, '/');
    url.push('/');
    url.append(item);
    url
}

/// The address of the account with this index.
pub fn account_url(base: &str, index: usize) -> (r: String)
    ensures
        r@ == below(base@, number::decimal(index as nat)),
{
    item_url(base, number::decimal_text(index as u64).as_str())
}

// ------------------------------------------------------------------ answers

/// The content type of an answer whose headers are `values`: JSON where they do not say.
pub open spec fn content_type(values: Map<Seq<char>, Seq<u8>>) -> Seq<char> {
    if values.contains_key("content-type"@) && access::is_visible(values["content-type"@]) {
        access::ascii_text(values["content-type"@])
    } else {
        "application/json"@
    }
}

/// The content type of an answer: JSON where its headers do not say.
pub fn forwarded_content_type(headers: &HeaderMap<HeaderValue>) -> (r: String)
    ensures
        r@ == content_type(access::first_values(*headers)),
{
    proof {
        reveal_strlit("content-type");
        access::lemma_lowered("content-type"@);
    }
    match access::first_value(headers, "content-type") {
        Some(bytes) => match access::visible_text(bytes) {
            Some(value) => value,
            None => "application/json".to_string(),
        },
        None => "application/json".to_string(),
    }
}

// --------------------------------------------------------------------- laws

/// Replacing what a text ends with and holds nowhere before replaces the end.
proof fn lemma_replace_end(base: Seq<char>, from: Seq<char>, to: Seq<char>)
    requires
        from.len() > 0,
        forall|i: int|
            0 <= i < base.len() ==> !text::starts_with(#[trigger] (base + from).skip(i), from),
    ensures
        text::replace(base + from, from, to) == base + to,
    decreases base.len(),
{
    let s = base + from;
    assert(s.skip(0) =~= s);
    if base.len() == 0 {
        assert(s =~= from);
        assert(s.take(from.len() as int) =~= from);
        assert(s.skip(from.len() as int) =~= seq![]);
        assert(text::replace(s.skip(from.len() as int), from, to) =~= seq![]);
        assert(to + Seq::<char>::empty() =~= base + to);
    } else {
        let rest = base.drop_first();
        assert(s.drop_first() =~= rest + from);
        assert forall|i: int| 0 <= i < rest.len() implies !text::starts_with(
            #[trigger] (rest + from).skip(i),
            from,
        ) by {
            assert((rest + from).skip(i) =~= s.skip(i + 1));
        }
        lemma_replace_end(rest, from, to);
        assert(!text::starts_with(s.skip(0), from));
        assert(seq![s[0]] + (rest + to) =~= base + to);
    }
}

/// The slashes of the compression path, and what follows them.
proof fn lemma_compression_path()
    ensures
        "/v1/compress"@.len() == 12,
        "/v1/compress"@[0] == '/',
        "/v1/compress"@[1] == 'v',
        "/v1/compress"@[4] == 'c',
        forall|j: int| 0 < j < 12 && j != 3 ==> #[trigger] "/v1/compress"@[j] != '/',
{
    reveal_strlit("/v1/compress");
}

/// The compression path does not stand in a text twice with an overlap.
proof fn lemma_no_overlap(s: Seq<char>, i: int, n: int)
    requires
        0 <= i < n < i + 12,
        n + 12 <= s.len(),
        s.subrange(n, n + 12) == "/v1/compress"@,
    ensures
        s.subrange(i, i + 12) != "/v1/compress"@,
{
    let j = n - i;
    lemma_compression_path();
    assert(s[n] == s.subrange(n, n + 12)[0]);
    assert(s[n] == s.subrange(i, i + 12)[j]);
    assert(s[n + 1] == s.subrange(n, n + 12)[1]);
    if j == 3 {
        assert(s[n + 1] == s.subrange(i, i + 12)[4]);
    } else if s.subrange(i, i + 12) == "/v1/compress"@ {
        assert("/v1/compress"@[j] != '/');
    }
}

/// Where the worker's address ends with the compression path, the other addresses are the same with
/// their own paths in its place.
pub proof fn law_sibling_stands_beside_the_worker(base: Seq<char>, path: Seq<char>)
    requires
        !text::contains(base, "/v1/compress"@),
    ensures
        sibling(base + "/v1/compress"@, path) == base + path,
{
    let from = "/v1/compress"@;
    let s = base + from;
    let n = base.len() as int;
    assert(from.len() == 12) by {
        lemma_compression_path();
    }
    assert forall|i: int| 0 <= i < n implies !text::starts_with(#[trigger] s.skip(i), from) by {
        if text::starts_with(s.skip(i), from) {
            assert(s.subrange(i, i + 12) =~= s.skip(i).take(12));
            if i + 12 <= n {
                assert(base.skip(i).take(12) =~= s.subrange(i, i + 12));
                assert(text::starts_with(base.skip(i), from));
            } else {
                assert(s.subrange(n, n + 12) =~= from);
                lemma_no_overlap(s, i, n);
            }
        }
    }
    lemma_replace_end(base, from, path);
}

/// An item's address has one slash before the item, however many `base` ends with.
pub proof fn law_item_address_ignores_trailing_slashes(base: Seq<char>, item: Seq<char>)
    ensures
        below(base.push('/'), item) == below(base, item),
{
    assert(base.push('/').drop_last() =~= base);
}

/// An item's address is the base, a slash and the item, each whole.
pub proof fn law_item_address(base: Seq<char>, slashes: Seq<char>, item: Seq<char>)
    requires
        base.len() > 0 ==> base.last() != '/',
        forall|i: int| 0 <= i < slashes.len() ==> #[trigger] slashes[i] == '/',
    ensures
        below(base + slashes, item) == base + seq!['/'] + item,
{
    text::law_strip_end(base, slashes, '/');
    assert(base.push('/') =~= base + seq!['/']);
}

/// What is set is taken as it is; a default stands in only where nothing is set.
pub proof fn law_settings_are_taken_as_they_are(value: Seq<char>, default: Seq<char>)
    ensures
        text_or(Some(value), default) == value,
        text_or(None, default) == default,
        sibling(value, default) == text::replace(value, "/v1/compress"@, default),
{
}

/// A token that is set is expected as it is, whitespace and all, unless there is nothing else in it.
pub proof fn law_expected_token(before: Seq<char>, token: Seq<char>, behind: Seq<char>)
    requires
        forall|i: int| 0 <= i < before.len() ==> text::is_space(#[trigger] before[i]),
        forall|i: int| 0 <= i < behind.len() ==> text::is_space(#[trigger] behind[i]),
        token.len() > 0 ==> !text::is_space(token[0]) && !text::is_space(token.last()),
    ensures
        token.len() > 0 ==> expected_token(Some(before + token + behind)) == Some(
            before + token + behind,
        ),
        token.len() == 0 ==> expected_token(Some(before + token + behind)) is None,
        expected_token(None) is None,
{
    text::law_trim(before, token, behind);
}

/// Five words switch a setting on, and nothing else does.
pub proof fn law_words_that_switch_on(value: Seq<char>)
    ensures
        is_on(Some(value)) <==> value == "1"@ || value == "true"@ || value == "TRUE"@ || value
            == "yes"@ || value == "YES"@,
        !is_on(None),
{
}

/// A content type is passed on as it was sent; JSON stands in only where there is none to read.
pub proof fn law_content_type(values: Map<Seq<char>, Seq<u8>>, t: Seq<char>)
    requires
        forall|i: int| 0 <= i < t.len() ==> ' ' <= #[trigger] t[i] <= '~',
    ensures
        values.contains_key("content-type"@) && values["content-type"@] == encode_utf8(t)
            ==> content_type(values) == t,
        !values.contains_key("content-type"@) ==> content_type(values) == "application/json"@,
        values.contains_key("content-type"@) && !access::is_visible(values["content-type"@])
            ==> content_type(values) == "application/json"@,
{
    if values.contains_key("content-type"@) && values["content-type"@] == encode_utf8(t) {
        let bytes = encode_utf8(t);
        assert(is_ascii_chars(t));
        is_ascii_chars_encode_utf8(t);
        assert forall|i: int| 0 <= i < bytes.len() implies (32 <= #[trigger] bytes[i] < 127
            || bytes[i] == 9) && bytes[i] as char == t[i] by {
            assert(t[i] as u8 == bytes[i]);
        }
        assert(access::ascii_text(bytes) =~= t);
    }
}

/// The worker's address is the one that is set, as it is.
pub proof fn law_worker_address(env: GatewayEnv, url: String)
    ensures
        env.worker_url == Some(url) ==> worker_address(env) == url@,
        env.worker_url is None ==> worker_address(env)
            == "http://worker.railway.internal:8080/v1/compress"@,
{
}

} // verus!
