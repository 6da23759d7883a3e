//! Cutting a long text into chunks that a worker can take, at paragraph or sentence ends.

use crate::error::AppError;
use crate::offsets;
use crate::text;
use vstd::prelude::*;
use vstd::slice::slice_subrange;
use vstd::slice::slice_to_vec;
use vstd::utf8::*;

verus! {

/// How many tokens a request may hold.
pub const MAX_INPUT_TOKENS: usize = 500_000;

/// How many tokens a chunk may hold.
pub const CHUNK_TOKEN_LIMIT: usize = 12_000;

/// How many characters a token is taken to stand for.
pub const APPROX_CHARS_PER_TOKEN: usize = 4;

/// How many bytes a request may hold.
pub const MAX_INPUT_BYTES: usize = MAX_INPUT_TOKENS * APPROX_CHARS_PER_TOKEN * 2;

/// How many characters a chunk may hold.
pub const MAX_CHUNK_CHARS: usize = CHUNK_TOKEN_LIMIT * APPROX_CHARS_PER_TOKEN;

// ---------------------------------------------------------------- the model

/// Where the last occurrence of `pattern` in `s` ends.
pub open spec fn last_end(s: Seq<char>, pattern: Seq<char>) -> Option<nat>
    decreases s.len(),
{
    if pattern.len() <= s.len() && s.skip(s.len() - pattern.len()) == pattern {
        Some(s.len())
    } else if s.len() == 0 {
        None
    } else {
        last_end(s.drop_last(), pattern)
    }
}

/// The later of two positions.
pub open spec fn later(a: Option<nat>, b: Option<nat>) -> Option<nat> {
    match (a, b) {
        (Some(x), Some(y)) => Some(if x < y {
            y
        } else {
            x
        }),
        (Some(x), None) => Some(x),
        (None, _) => b,
    }
}

/// The end of the last paragraph or sentence that `window` holds whole: a paragraph ends with a
/// blank line, a sentence with a full stop.
pub open spec fn semantic_end(window: Seq<char>) -> Option<nat> {
    later(last_end(window, seq!['\n', '\n']), last_end(window, seq!['.']))
}

/// How many characters of `window` the chunk that starts with it takes.
pub open spec fn cut(window: Seq<char>) -> nat {
    match semantic_end(window) {
        Some(k) => if k > 0 {
            k
        } else {
            window.len()
        },
        None => window.len(),
    }
}

/// The chunks of `s`, each of at most `max` characters. Whitespace before a chunk is dropped.
pub open spec fn chunks(s: Seq<char>, max: nat) -> Seq<Seq<char>>
    decreases s.len(),
{
    let u = text::trim_start(s);
    if u.len() == 0 || max == 0 {
        seq![]
    } else if u.len() <= max {
        seq![u]
    } else {
        let k = cut(u.take(max as int)) as int;
        proof {
            lemma_trim_start_len(s);
            lemma_cut(u.take(max as int));
        }
        seq![u.take(k)] + chunks(u.skip(k), max)
    }
}

/// The bytes of each chunk.
pub open spec fn encoded(parts: Seq<Seq<char>>) -> Seq<Seq<u8>> {
    Seq::new(parts.len(), |i: int| encode_utf8(parts[i]))
}

/// The bytes that each vector holds.
pub open spec fn byte_lists(v: Seq<Vec<u8>>) -> Seq<Seq<u8>> {
    Seq::new(v.len(), |i: int| v[i]@)
}

/// Trimming takes characters away and adds none.
pub proof fn lemma_trim_start_len(s: Seq<char>)
    ensures
        text::trim_start(s).len() <= s.len(),
    decreases s.len(),
{
    if s.len() > 0 && text::is_space(s[0]) {
        lemma_trim_start_len(s.drop_first());
    }
}

/// An occurrence ends inside the text and no sooner than the pattern is long.
pub proof fn lemma_last_end(s: Seq<char>, pattern: Seq<char>)
    ensures
        last_end(s, pattern) matches Some(k) ==> pattern.len() <= k <= s.len(),
    decreases s.len(),
{
    if s.len() > 0 {
        lemma_last_end(s.drop_last(), pattern);
    }
}

/// A cut takes at least one character of a window that has one, and no more than it has.
pub proof fn lemma_cut(window: Seq<char>)
    ensures
        cut(window) <= window.len(),
        window.len() > 0 ==> cut(window) > 0,
        semantic_end(window) matches Some(k) ==> 0 < k <= window.len(),
{
    lemma_last_end(window, seq!['\n', '\n']);
    lemma_last_end(window, seq!['.']);
}

// ----------------------------------------------------------- byte positions

/// The first byte offset at or after `idx` at which a character other than whitespace stands;
/// the end of the text if there is none.
pub fn skip_leading_whitespace(text: &str, idx: usize) -> (r: usize)
    requires
        idx < encode_utf8(text@).len() ==> is_char_boundary(encode_utf8(text@), idx as int),
    ensures
        idx >= encode_utf8(text@).len() ==> r == idx,
        idx < encode_utf8(text@).len() ==> {
            &&& idx <= r <= encode_utf8(text@).len()
            &&& is_char_boundary(encode_utf8(text@), r as int)
            &&& offsets::rest_at(text@, r as int) == text::trim_start(
                offsets::rest_at(text@, idx as int),
            )
        },
{
    let len: usize = offsets::byte_len(text);
    if idx >= len {
        return idx;
    }
    let (_, tail) = text.split_at(idx);
    let ghost n = offsets::lemma_boundary_has_index(text@, idx as int);
    proof {
        assert(encode_utf8(tail@) =~= encode_utf8(text@).skip(idx as int));
        encode_utf8_decode_utf8(tail@);
        assert(tail@ == text@.skip(n));
    }
    let mut off: usize = 0;
    assert(tail@.take(0) =~= seq![]);
    assert(tail@.skip(0) =~= tail@);
    for c in it: tail.chars()
        invariant
            it.seq() == tail@,
            0 <= n <= text@.len(),
            tail@ == text@.skip(n),
            idx < len,
            len == encode_utf8(text@).len(),
            idx == offsets::byte_offset(text@, n),
            offsets::rest_at(text@, idx as int) == tail@,
            off == offsets::byte_offset(tail@, it.index()),
            text::trim_start(tail@.skip(it.index())) == text::trim_start(tail@),
    {
        let ghost i = it.index();
        proof {
            lemma_step(text@, n, i, c);
        }
        if !text::is_whitespace(c) {
            proof {
                offsets::lemma_split_at(text@, n + i);
                offsets::lemma_offset_is_boundary(text@, n + i);
                assert(text@.skip(n + i) =~= tail@.skip(i));
            }
            return idx + off;
        }
        off = off + offsets::utf8_width(c);
        assert(tail@.skip(i).drop_first() =~= tail@.skip(i + 1));
    }
    proof {
        let m = tail@.len() as int;
        offsets::lemma_offset_add(text@, n, m);
        offsets::lemma_split_at(text@, n + m);
        offsets::lemma_offset_is_boundary(text@, n + m);
        assert(text@.skip(n + m) =~= tail@.skip(m));
    }
    idx + off
}

/// Going from the `i`-th character of a tail to the next moves the offset by the character's width.
proof fn lemma_step(s: Seq<char>, n: int, i: int, c: char)
    requires
        0 <= n,
        0 <= i,
        n + i < s.len(),
        s[n + i] == c,
    ensures
        offsets::byte_offset(s.skip(n), i + 1) == offsets::byte_offset(s.skip(n), i)
            + encode_scalar(c as u32).len(),
        offsets::byte_offset(s, n + i) == offsets::byte_offset(s, n) + offsets::byte_offset(
            s.skip(n),
            i,
        ),
        offsets::byte_offset(s, n + i + 1) <= encode_utf8(s).len(),
        offsets::byte_offset(s, n + i + 1) == offsets::byte_offset(s, n) + offsets::byte_offset(
            s.skip(n),
            i + 1,
        ),
{
    let tail = s.skip(n);
    assert(tail.take(i + 1) =~= tail.take(i).push(c));
    offsets::lemma_encode_push(tail.take(i), c);
    offsets::lemma_offset_add(s, n, i);
    offsets::lemma_offset_add(s, n, i + 1);
    offsets::lemma_split_at(s, n + i + 1);
}

/// The smaller of two counts.
pub open spec fn at_most(n: nat, max: nat) -> nat {
    if n < max {
        n
    } else {
        max
    }
}

/// The byte offset `max_chars` characters after `start`, or the end of the text if fewer follow.
pub fn char_budget_end(text: &str, start: usize, max_chars: usize) -> (r: usize)
    requires
        start <= encode_utf8(text@).len(),
        is_char_boundary(encode_utf8(text@), start as int),
    ensures
        start <= r <= encode_utf8(text@).len(),
        is_char_boundary(encode_utf8(text@), r as int),
        ({
            let tail = offsets::rest_at(text@, start as int);
            r == start + offsets::byte_offset(tail, at_most(tail.len(), max_chars as nat) as int)
        }),
{
    let len: usize = offsets::byte_len(text);
    let (_, tail) = text.split_at(start);
    let ghost n = offsets::lemma_boundary_has_index(text@, start as int);
    proof {
        assert(encode_utf8(tail@) =~= encode_utf8(text@).skip(start as int));
        encode_utf8_decode_utf8(tail@);
        assert(tail@ == text@.skip(n));
    }
    let mut off: usize = 0;
    let mut seen: usize = 0;
    assert(tail@.take(0) =~= seq![]);
    for c in it: tail.chars()
        invariant
            it.seq() == tail@,
            0 <= n <= text@.len(),
            tail@ == text@.skip(n),
            tail@ == offsets::rest_at(text@, start as int),
            start <= len,
            len == encode_utf8(text@).len(),
            start == offsets::byte_offset(text@, n),
            seen == it.index(),
            seen <= max_chars,
            off == offsets::byte_offset(tail@, it.index()),
    {
        let ghost i = it.index();
        proof {
            lemma_step(text@, n, i, c);
        }
        if seen == max_chars {
            proof {
                offsets::lemma_offset_is_boundary(text@, n + i);
            }
            return start + off;
        }
        off = off + offsets::utf8_width(c);
        seen = seen + 1;
    }
    proof {
        let m = tail@.len() as int;
        offsets::lemma_offset_add(text@, n, m);
        offsets::lemma_offset_end(text@);
        offsets::lemma_offset_is_boundary(text@, n + m);
    }
    len
}

/// The byte offset right behind the last paragraph or sentence that `window` holds whole.
pub fn nearest_semantic_boundary(window: &str) -> (r: Option<usize>)
    ensures
        match r {
            Some(end) => semantic_end(window@) is Some && end == offsets::byte_offset(
                window@,
                semantic_end(window@)->0 as int,
            ),
            None => semantic_end(window@) is None,
        },
{
    let len: usize = offsets::byte_len(window);
    let mut off: usize = 0;
    let mut previous: char = ' ';
    let mut paragraph: Option<usize> = None;
    let mut sentence: Option<usize> = None;
    assert(window@.take(0) =~= seq![]);
    assert(window@.skip(0) =~= window@);
    for c in it: window.chars()
        invariant
            it.seq() == window@,
            len == encode_utf8(window@).len(),
            off == offsets::byte_offset(window@, it.index()),
            it.index() == 0 ==> previous == ' ',
            it.index() > 0 ==> previous == window@[it.index() - 1],
            marks(window@, it.index(), seq!['\n', '\n'], paragraph),
            marks(window@, it.index(), seq!['.'], sentence),
    {
        let ghost i = it.index();
        proof {
            lemma_step(window@, 0, i, c);
            lemma_mark_step(window@, i, c);
        }
        off = off + offsets::utf8_width(c);
        if c == '\n' && previous == '\n' {
            paragraph = Some(off);
        }
        if c == '.' {
            sentence = Some(off);
        }
        previous = c;
    }
    assert(window@.take(window@.len() as int) =~= window@);
    proof {
        lemma_cut(window@);
        lemma_later(window@, paragraph, sentence);
    }
    match paragraph {
        Some(p) => match sentence {
            Some(q) => if p < q {
                Some(q)
            } else {
                Some(p)
            },
            None => Some(p),
        },
        None => sentence,
    }
}

/// `mark` is the byte offset at which the last `pattern` in the first `i` characters ends.
spec fn marks(s: Seq<char>, i: int, pattern: Seq<char>, mark: Option<usize>) -> bool {
    match mark {
        Some(at) => last_end(s.take(i), pattern) is Some && at == offsets::byte_offset(
            s,
            last_end(s.take(i), pattern)->0 as int,
        ),
        None => last_end(s.take(i), pattern) is None,
    }
}

/// What one more character does to the ends of paragraphs and sentences.
proof fn lemma_mark_step(s: Seq<char>, i: int, c: char)
    requires
        0 <= i < s.len(),
        s[i] == c,
    ensures
        last_end(s.take(i + 1), seq!['.']) == (if c == '.' {
            Some((i + 1) as nat)
        } else {
            last_end(s.take(i), seq!['.'])
        }),
        last_end(s.take(i + 1), seq!['\n', '\n']) == (if c == '\n' && i > 0 && s[i - 1] == '\n' {
            Some((i + 1) as nat)
        } else {
            last_end(s.take(i), seq!['\n', '\n'])
        }),
{
    let t = s.take(i + 1);
    assert(t.drop_last() =~= s.take(i));
    let stop = seq!['.'];
    if c == '.' {
        assert(t.skip(t.len() - 1) =~= stop);
    } else {
        assert(t.skip(t.len() - 1)[0] != stop[0]);
    }
    let blank = seq!['\n', '\n'];
    if i > 0 {
        if c == '\n' && s[i - 1] == '\n' {
            assert(t.skip(t.len() - 2) =~= blank);
        } else {
            assert(t.skip(t.len() - 2)[0] == s[i - 1]);
            assert(t.skip(t.len() - 2)[1] == c);
            assert(blank[0] == '\n' && blank[1] == '\n');
        }
    }
}

/// The later of two byte offsets belongs to the later of the two positions.
proof fn lemma_later(s: Seq<char>, paragraph: Option<usize>, sentence: Option<usize>)
    requires
        marks(s, s.len() as int, seq!['\n', '\n'], paragraph),
        marks(s, s.len() as int, seq!['.'], sentence),
    ensures
        paragraph is Some && sentence is Some ==> {
            let a = last_end(s, seq!['\n', '\n'])->0;
            let b = last_end(s, seq!['.'])->0;
            (paragraph->0 < sentence->0) == (a < b)
        },
{
    assert(s.take(s.len() as int) =~= s);
    lemma_last_end(s, seq!['\n', '\n']);
    lemma_last_end(s, seq!['.']);
    if paragraph is Some && sentence is Some {
        let a = last_end(s, seq!['\n', '\n'])->0 as int;
        let b = last_end(s, seq!['.'])->0 as int;
        if a < b {
            offsets::lemma_offset_grows(s, a, b);
        } else if b < a {
            offsets::lemma_offset_grows(s, b, a);
        }
    }
}

// ----------------------------------------------------------------- chunking

/// One more chunk on both sides of the correspondence between texts and bytes.
proof fn lemma_chunk_push(out: Seq<Vec<u8>>, chunk: Vec<u8>, head: Seq<char>, rest: Seq<Seq<char>>)
    requires
        chunk@ == encode_utf8(head),
    ensures
        byte_lists(out) + encoded(seq![head] + rest) == byte_lists(out.push(chunk)) + encoded(rest),
{
    let a = byte_lists(out) + encoded(seq![head] + rest);
    let b = byte_lists(out.push(chunk)) + encoded(rest);
    assert(a.len() == b.len());
    assert forall|i: int| 0 <= i < a.len() implies a[i] == b[i] by {
        if i > out.len() {
            assert((seq![head] + rest)[i - out.len()] == rest[i - out.len() - 1]);
        }
    }
    assert(a =~= b);
}

/// Whether the character budget reaches the end shows in the byte offset.
proof fn lemma_budget(u: Seq<char>, max: nat)
    ensures
        (offsets::byte_offset(u, at_most(u.len(), max) as int) >= encode_utf8(u).len()) == (u.len()
            <= max),
        offsets::byte_offset(u, at_most(u.len(), max) as int) <= encode_utf8(u).len(),
        (encode_utf8(u).len() == 0) == (u.len() == 0),
{
    offsets::lemma_offset_end(u);
    if u.len() > max {
        offsets::lemma_offset_grows(u, max as int, u.len() as int);
    }
    if u.len() > 0 {
        offsets::lemma_offset_grows(u, 0, u.len() as int);
    }
}

/// The chunks of `text`, in UTF-8.
pub fn split_text(text: &str, max_chars: usize) -> (r: Vec<Vec<u8>>)
    requires
        max_chars > 0,
    ensures
        byte_lists(r@) == encoded(chunks(text@, max_chars as nat)),
{
    let bytes = text.as_bytes();
    let len: usize = bytes.len();
    let ghost max = max_chars as nat;
    let ghost all = encoded(chunks(text@, max));
    let ghost mut n: int = 0;
    let mut out: Vec<Vec<u8>> = Vec::new();
    let mut start: usize = 0;
    proof {
        offsets::lemma_offset_end(text@);
        offsets::lemma_offset_is_boundary(text@, 0);
        assert(text@.skip(0) =~= text@);
        assert(byte_lists(out@) + all =~= all);
    }
    while start < len
        invariant
            max_chars > 0,
            max == max_chars,
            bytes@ == encode_utf8(text@),
            len == bytes@.len(),
            start <= len,
            0 <= n <= text@.len(),
            start == offsets::byte_offset(text@, n),
            byte_lists(out@) + encoded(chunks(text@.skip(n), max)) == all,
            all == encoded(chunks(text@, max)),
        decreases text@.len() - n,
    {
        proof {
            offsets::lemma_offset_is_boundary(text@, n);
            offsets::lemma_split_at(text@, n);
        }
        let first: usize = skip_leading_whitespace(text, start);
        let ghost m = offsets::lemma_boundary_has_index(text@, first as int);
        let ghost u = text@.skip(m);
        proof {
            lemma_trim_start_len(text@.skip(n));
            offsets::lemma_split_at(text@, m);
            lemma_budget(u, max);
            lemma_cut(u.take(max as int));
        }
        if first >= len {
            assert(encoded(chunks(text@.skip(n), max)) =~= seq![]);
            assert(byte_lists(out@) + encoded(chunks(text@.skip(n), max)) =~= byte_lists(out@));
            return out;
        }
        let hard_end: usize = char_budget_end(text, first, max_chars);
        if hard_end >= len {
            let chunk = slice_to_vec(slice_subrange(bytes, first, len));
            proof {
                assert(chunk@ =~= encode_utf8(u));
                lemma_chunk_push(out@, chunk, u, seq![]);
                assert(seq![u] + Seq::<Seq<char>>::empty() =~= seq![u]);
                assert(byte_lists(out@.push(chunk)) + encoded(seq![]) =~= byte_lists(
                    out@.push(chunk),
                ));
            }
            out.push(chunk);
            return out;
        }
        let (_, tail) = text.split_at(first);
        proof {
            assert(encode_utf8(tail@) =~= encode_utf8(text@).skip(first as int));
            offsets::lemma_encode_injective(tail@, u);
            offsets::lemma_offset_is_boundary(u, max as int);
            offsets::lemma_split_at(u, max as int);
        }
        let (window, _) = tail.split_at(hard_end - first);
        proof {
            assert(encode_utf8(window@) =~= encode_utf8(u).take(
                offsets::byte_offset(u, max as int) as int,
            ));
            offsets::lemma_encode_injective(window@, u.take(max as int));
            offsets::lemma_offset_end(window@);
        }
        let boundary: usize = match nearest_semantic_boundary(window) {
            Some(end) => if end > 0 {
                end
            } else {
                offsets::byte_len(window)
            },
            None => offsets::byte_len(window),
        };
        let ghost k = cut(window@) as int;
        proof {
            offsets::lemma_offset_end(window@);
            offsets::lemma_offset_grows(window@, 0, k);
            assert(boundary == offsets::byte_offset(window@, k));
            assert(window@.take(k) =~= u.take(k));
            offsets::lemma_split_at(u, k);
            offsets::lemma_offset_add(text@, m, k);
            assert(u.skip(k) =~= text@.skip(m + k));
        }
        let end: usize = first + boundary;
        let chunk = slice_to_vec(slice_subrange(bytes, first, end));
        proof {
            assert(chunk@ =~= encode_utf8(text@).skip(first as int).take(boundary as int));
            lemma_chunk_push(out@, chunk, u.take(k), chunks(u.skip(k), max));
            n = m + k;
        }
        out.push(chunk);
        start = end;
    }
    proof {
        if n < text@.len() {
            offsets::lemma_offset_end(text@);
            offsets::lemma_offset_grows(text@, n, text@.len() as int);
        }
        assert(encoded(chunks(text@.skip(n), max)) =~= seq![]);
        assert(byte_lists(out@) + encoded(chunks(text@.skip(n), max)) =~= byte_lists(out@));
    }
    out
}

/// Why a request body cannot be chunked; none if it can.
pub open spec fn body_refusal(body: Seq<u8>) -> Option<Seq<char>> {
    if !valid_utf8(body) {
        Some("payload must be valid UTF-8 text"@)
    } else if body.len() == 0 {
        Some("payload is empty"@)
    } else {
        None
    }
}

/// The chunks of a request body, in UTF-8.
pub open spec fn body_chunks(body: Seq<u8>) -> Seq<Seq<u8>> {
    encoded(chunks(decode_utf8(body), MAX_CHUNK_CHARS as nat))
}

/// The chunks of a request body. A body that is not UTF-8 text and an empty one are refused.
pub fn split_semantic(body: &[u8]) -> (r: Result<Vec<Vec<u8>>, AppError>)
    ensures
        match r {
            Ok(parts) => body_refusal(body@) is None && byte_lists(parts@) == body_chunks(body@),
            Err(AppError::BadRequest(message)) => body_refusal(body@) == Some(message@),
            Err(_) => false,
        },
{
    match offsets::utf8_text(body) {
        None => Err(AppError::BadRequest("payload must be valid UTF-8 text".to_string())),
        Some(text) => {
            proof {
                encode_utf8_decode_utf8(text@);
                lemma_budget(text@, 0);
            }
            if text.is_empty() {
                Err(AppError::BadRequest("payload is empty".to_string()))
            } else {
                Ok(split_text(text, MAX_CHUNK_CHARS))
            }
        },
    }
}

// --------------------------------------------------------------------- laws

/// `s` without its whitespace.
pub open spec fn visible(s: Seq<char>) -> Seq<char> {
    s.filter(|c: char| !text::is_space(c))
}

/// The visible characters of two texts, one after the other.
proof fn lemma_visible_add(a: Seq<char>, b: Seq<char>)
    ensures
        visible(a + b) == visible(a) + visible(b),
{
    Seq::filter_distributes_over_add(a, b, |c: char| !text::is_space(c));
}

/// Trimming takes away no visible character, and leaves one at the front or nothing.
proof fn lemma_trim_start_visible(s: Seq<char>)
    ensures
        visible(text::trim_start(s)) == visible(s),
        text::trim_start(s).len() > 0 ==> !text::is_space(text::trim_start(s)[0]),
    decreases s.len(),
{
    if s.len() > 0 && text::is_space(s[0]) {
        let head = s.take(1);
        let t = s.drop_first();
        lemma_trim_start_visible(t);
        assert(head + t =~= s);
        lemma_visible_add(head, t);
        assert(visible(head) =~= seq![]) by {
            reveal_with_fuel(Seq::filter, 2);
            assert(head.drop_last() =~= seq![]);
        }
        assert(visible(head) + visible(t) =~= visible(t));
    }
}

/// Nothing visible is lost: the chunks hold the text's characters other than whitespace, all of
/// them and in order.
pub proof fn law_chunks_keep_visible_text(s: Seq<char>, max: nat)
    requires
        max > 0,
    ensures
        visible(text::concat(chunks(s, max))) == visible(s),
    decreases s.len(),
{
    let u = text::trim_start(s);
    lemma_trim_start_visible(s);
    lemma_trim_start_len(s);
    if u.len() == 0 {
        assert(visible(u) =~= visible(seq![])) by {
            assert(u =~= seq![]);
        }
        assert(text::concat(chunks(s, max)) =~= seq![]);
    } else if u.len() <= max {
        text::lemma_concat_one(u);
    } else {
        let k = cut(u.take(max as int)) as int;
        lemma_cut(u.take(max as int));
        law_chunks_keep_visible_text(u.skip(k), max);
        text::lemma_concat_add(seq![u.take(k)], chunks(u.skip(k), max));
        text::lemma_concat_one(u.take(k));
        lemma_visible_add(u.take(k), text::concat(chunks(u.skip(k), max)));
        lemma_visible_add(u.take(k), u.skip(k));
        assert(u.take(k) + u.skip(k) =~= u);
    }
}

/// Every chunk is non-empty, fits the budget and starts with a visible character.
pub proof fn law_chunks_fit(s: Seq<char>, max: nat)
    requires
        max > 0,
    ensures
        forall|i: int|
            0 <= i < chunks(s, max).len() ==> 0 < (#[trigger] chunks(s, max)[i]).len() <= max
                && !text::is_space(chunks(s, max)[i][0]),
    decreases s.len(),
{
    let u = text::trim_start(s);
    lemma_trim_start_visible(s);
    lemma_trim_start_len(s);
    if u.len() > max {
        let k = cut(u.take(max as int)) as int;
        lemma_cut(u.take(max as int));
        law_chunks_fit(u.skip(k), max);
        let rest = chunks(u.skip(k), max);
        assert forall|i: int| 0 <= i < chunks(s, max).len() implies 0 < (#[trigger] chunks(
            s,
            max,
        )[i]).len() <= max && !text::is_space(chunks(s, max)[i][0]) by {
            if i > 0 {
                assert(chunks(s, max)[i] == rest[i - 1]);
            }
        }
    }
}

/// Whether `s` ends a sentence or a paragraph.
pub open spec fn ends_semantically(s: Seq<char>) -> bool {
    ||| s.len() >= 1 && s.last() == '.'
    ||| s.len() >= 2 && s.skip(s.len() - 2) == seq!['\n', '\n']
}

/// What stands before the end of an occurrence ends with the pattern.
proof fn lemma_last_end_is_end(s: Seq<char>, pattern: Seq<char>)
    ensures
        last_end(s, pattern) matches Some(k) ==> pattern.len() <= k <= s.len() && s.take(
            k as int,
        ).skip(k - pattern.len()) == pattern,
    decreases s.len(),
{
    if pattern.len() <= s.len() && s.skip(s.len() - pattern.len()) == pattern {
        assert(s.take(s.len() as int) =~= s);
    } else if s.len() > 0 {
        lemma_last_end_is_end(s.drop_last(), pattern);
        if let Some(k) = last_end(s.drop_last(), pattern) {
            assert(s.drop_last().take(k as int) =~= s.take(k as int));
        }
    }
}

/// Every chunk but the last ends with a sentence or a paragraph, or fills the budget because no
/// sentence or paragraph ends within it.
pub proof fn law_chunks_end_semantically(s: Seq<char>, max: nat)
    requires
        max > 0,
    ensures
        forall|i: int|
            0 <= i < chunks(s, max).len() - 1 ==> ends_semantically(#[trigger] chunks(s, max)[i]) || (
            chunks(s, max)[i].len() == max && semantic_end(chunks(s, max)[i]) is None),
    decreases s.len(),
{
    let u = text::trim_start(s);
    lemma_trim_start_len(s);
    if u.len() > max {
        let window = u.take(max as int);
        let k = cut(window) as int;
        lemma_cut(window);
        law_chunks_end_semantically(u.skip(k), max);
        let rest = chunks(u.skip(k), max);
        assert(u.take(k) =~= window.take(k));
        lemma_last_end_is_end(window, seq!['\n', '\n']);
        lemma_last_end_is_end(window, seq!['.']);
        if semantic_end(window) is Some {
            if last_end(window, seq!['.']) == Some(k as nat) {
                assert(window.take(k).skip(k - 1)[0] == '.');
            }
            assert(ends_semantically(u.take(k)));
        }
        assert forall|i: int| 0 <= i < chunks(s, max).len() - 1 implies ends_semantically(
            #[trigger] chunks(s, max)[i],
        ) || (chunks(s, max)[i].len() == max && semantic_end(chunks(s, max)[i]) is None) by {
            if i > 0 {
                assert(chunks(s, max)[i] == rest[i - 1]);
            } else {
                assert(chunks(s, max)[i] == u.take(k));
                assert(window.take(max as int) =~= window);
            }
        }
    }
}

/// Whether a sentence or a paragraph that starts no earlier than `from` ends with the character at
/// `t`.
pub open spec fn ends_at(s: Seq<char>, from: int, t: int) -> bool {
    s[t] == '.' || (from < t && s[t - 1] == '\n' && s[t] == '\n')
}

/// Behind the last occurrence of a pattern there is none.
proof fn lemma_last_end_is_last(s: Seq<char>, pattern: Seq<char>, q: int)
    requires
        pattern.len() <= q <= s.len(),
        last_end(s, pattern) matches Some(k) ==> k < q,
    ensures
        s.subrange(q - pattern.len(), q) != pattern,
    decreases s.len(),
{
    if q == s.len() {
        assert(s.subrange(q - pattern.len(), q) =~= s.skip(s.len() - pattern.len()));
    } else {
        lemma_last_end_is_last(s.drop_last(), pattern, q);
        assert(s.drop_last().subrange(q - pattern.len(), q) =~= s.subrange(q - pattern.len(), q));
    }
}

/// The boundary of a window is the last place in it at which a sentence or a paragraph ends.
pub proof fn law_boundary_is_the_last_end(window: Seq<char>)
    ensures
        match semantic_end(window) {
            Some(k) => {
                &&& 0 < k <= window.len()
                &&& ends_at(window, 0, k - 1)
                &&& forall|t: int| k <= t < window.len() ==> !#[trigger] ends_at(window, 0, t)
            },
            None => forall|t: int| 0 <= t < window.len() ==> !#[trigger] ends_at(window, 0, t),
        },
{
    let blank = seq!['\n', '\n'];
    let stop = seq!['.'];
    lemma_cut(window);
    lemma_last_end_is_end(window, blank);
    lemma_last_end_is_end(window, stop);
    if let Some(k) = last_end(window, stop) {
        assert(window.take(k as int).skip(k - 1)[0] == window[k - 1]);
    }
    if let Some(k) = last_end(window, blank) {
        let tail = window.take(k as int).skip(k - 2);
        assert(tail[0] == window[k - 2] && tail[1] == window[k - 1]);
    }
    assert forall|t: int|
        0 <= t < window.len() && (semantic_end(window) matches Some(k) ==> k <= t) implies !(
    #[trigger] ends_at(window, 0, t)) by {
        lemma_last_end_is_last(window, stop, t + 1);
        assert(window[t] == '.' ==> window.subrange(t, t + 1) =~= stop);
        if t >= 1 {
            lemma_last_end_is_last(window, blank, t + 1);
            assert(window[t - 1] == '\n' && window[t] == '\n' ==> window.subrange(t - 1, t + 1)
                =~= blank);
        }
    }
}

/// Whether the position `p` lies inside one of the spans.
pub open spec fn inside(spans: Seq<(int, int)>, p: int) -> bool {
    exists|i: int| 0 <= i < spans.len() && (#[trigger] spans[i]).0 <= p < spans[i].1
}

/// What trimming leaves is the rest of the text behind the whitespace.
proof fn lemma_trim_start_is_rest(s: Seq<char>) -> (n: int)
    ensures
        0 <= n <= s.len(),
        text::trim_start(s) == s.skip(n),
        forall|p: int| 0 <= p < n ==> text::is_space(#[trigger] s[p]),
        n < s.len() ==> !text::is_space(s[n]),
    decreases s.len(),
{
    if s.len() > 0 && text::is_space(s[0]) {
        let n = lemma_trim_start_is_rest(s.drop_first());
        assert(s.drop_first().skip(n) =~= s.skip(n + 1));
        assert forall|p: int| 0 <= p < n + 1 implies text::is_space(#[trigger] s[p]) by {
            if p > 0 {
                assert(s.drop_first()[p - 1] == s[p]);
            }
        }
        n + 1
    } else {
        assert(s.skip(0) =~= s);
        0
    }
}

/// Whether `part` is the chunk of `s` that starts at `from` and ends before `to`.
spec fn is_piece(s: Seq<char>, max: nat, from: int, to: int, part: Seq<char>) -> bool {
    &&& 0 <= from < to <= s.len()
    &&& part == s.subrange(from, to)
    &&& !text::is_space(s[from])
    &&& s.len() - from <= max ==> to == s.len()
    &&& s.len() - from > max ==> to <= from + max && (ends_at(s, from, to - 1) || to == from + max)
    &&& s.len() - from > max ==> forall|t: int|
        to <= t < from + max ==> !#[trigger] ends_at(s, from, t)
}

/// A chunk of the rest of a text is a chunk of the text.
proof fn lemma_piece_of_rest(s: Seq<char>, m: int, max: nat, from: int, to: int, part: Seq<char>)
    requires
        0 <= m <= s.len(),
        is_piece(s.skip(m), max, from, to, part),
    ensures
        is_piece(s, max, from + m, to + m, part),
{
    let rest = s.skip(m);
    assert(rest.subrange(from, to) =~= s.subrange(from + m, to + m));
    assert(rest[from] == s[from + m]);
    assert(forall|t: int| 0 <= t < rest.len() ==> #[trigger] rest[t] == s[t + m]);
    if s.len() - (from + m) > max {
        assert(ends_at(rest, from, to - 1) == ends_at(s, from + m, to + m - 1));
        assert forall|t: int| to + m <= t < from + m + max implies !#[trigger] ends_at(
            s,
            from + m,
            t,
        ) by {
            assert(ends_at(rest, from, t - m) == ends_at(s, from + m, t));
        }
    }
}

/// The chunk that a long text begins with, behind `n` characters of whitespace.
proof fn lemma_first_piece(s: Seq<char>, n: int, max: nat)
    requires
        0 <= n < s.len(),
        !text::is_space(s[n]),
        0 < max < s.len() - n,
    ensures
        is_piece(
            s,
            max,
            n,
            n + cut(s.skip(n).take(max as int)),
            s.skip(n).take(cut(s.skip(n).take(max as int)) as int),
        ),
{
    let u = s.skip(n);
    let window = u.take(max as int);
    let k = cut(window) as int;
    lemma_cut(window);
    law_boundary_is_the_last_end(window);
    assert(forall|t: int| 0 <= t < max ==> #[trigger] window[t] == s[t + n]);
    assert(u.take(k) =~= s.subrange(n, n + k));
    if semantic_end(window) is Some {
        assert(ends_at(window, 0, k - 1) == ends_at(s, n, n + k - 1));
    }
    assert forall|t: int| n + k <= t < n + max implies !#[trigger] ends_at(s, n, t) by {
        assert(ends_at(window, 0, t - n) == ends_at(s, n, t));
    }
}

/// Where the chunks of a text stand in it.
proof fn lemma_spans(s: Seq<char>, max: nat) -> (spans: Seq<(int, int)>)
    requires
        max > 0,
    ensures
        spans.len() == chunks(s, max).len(),
        forall|i: int|
            0 <= i < spans.len() ==> is_piece(
                s,
                max,
                (#[trigger] spans[i]).0,
                spans[i].1,
                chunks(s, max)[i],
            ),
        forall|i: int, j: int|
            0 <= i < j < spans.len() ==> (#[trigger] spans[i]).1 <= (#[trigger] spans[j]).0,
        forall|p: int| 0 <= p < s.len() && !inside(spans, p) ==> text::is_space(#[trigger] s[p]),
    decreases s.len(),
{
    let u = text::trim_start(s);
    let n = lemma_trim_start_is_rest(s);
    lemma_trim_start_len(s);
    if u.len() == 0 {
        Seq::empty()
    } else if u.len() <= max {
        let spans = seq![(n, s.len() as int)];
        assert(u =~= s.subrange(n, s.len() as int));
        assert forall|p: int| 0 <= p < s.len() && !inside(spans, p) implies text::is_space(
            #[trigger] s[p],
        ) by {
            if p >= n {
                assert(spans[0].0 <= p < spans[0].1);
            }
        }
        spans
    } else {
        let k = cut(u.take(max as int)) as int;
        lemma_cut(u.take(max as int));
        lemma_first_piece(s, n, max);
        let m = n + k;
        let rest = u.skip(k);
        assert(rest =~= s.skip(m));
        let inner = lemma_spans(rest, max);
        let moved = Seq::new(inner.len(), |i: int| (inner[i].0 + m, inner[i].1 + m));
        let spans = seq![(n, m)] + moved;
        let parts = chunks(s, max);
        assert(parts == seq![u.take(k)] + chunks(rest, max));
        assert forall|i: int| 0 <= i < spans.len() implies is_piece(
            s,
            max,
            (#[trigger] spans[i]).0,
            spans[i].1,
            parts[i],
        ) by {
            if i > 0 {
                let span = inner[i - 1];
                assert(is_piece(rest, max, span.0, span.1, chunks(rest, max)[i - 1]));
                lemma_piece_of_rest(s, m, max, span.0, span.1, chunks(rest, max)[i - 1]);
                assert(spans[i] == (span.0 + m, span.1 + m));
            }
        }
        assert forall|i: int, j: int| 0 <= i < j < spans.len() implies (#[trigger] spans[i]).1 <= (
        #[trigger] spans[j]).0 by {
            let span = inner[j - 1];
            assert(is_piece(rest, max, span.0, span.1, chunks(rest, max)[j - 1]));
            assert(spans[j] == (span.0 + m, span.1 + m));
            if i > 0 {
                assert(spans[i] == (inner[i - 1].0 + m, inner[i - 1].1 + m));
            }
        }
        assert forall|p: int| 0 <= p < s.len() && !inside(spans, p) implies text::is_space(
            #[trigger] s[p],
        ) by {
            if n <= p < m {
                assert(spans[0].0 <= p < spans[0].1);
            } else if p >= m {
                if inside(inner, p - m) {
                    let i = choose|i: int|
                        0 <= i < inner.len() && (#[trigger] inner[i]).0 <= p - m < inner[i].1;
                    assert(spans[i + 1] == (inner[i].0 + m, inner[i].1 + m));
                }
                assert(rest[p - m] == s[p]);
            }
        }
        spans
    }
}

/// The chunks are pieces of the text, character for character and in order: chunk `i` is the text
/// from `spans[i].0` to `spans[i].1`, and outside of the chunks there is whitespace only. A chunk
/// starts with a visible character. It goes to the end of the text where that is within the budget;
/// otherwise it goes to the last sentence or paragraph end within the budget, or fills the budget
/// where there is none.
pub proof fn law_chunks_are_pieces_of_the_text(s: Seq<char>, max: nat) -> (spans: Seq<(int, int)>)
    requires
        max > 0,
    ensures
        spans.len() == chunks(s, max).len(),
        forall|i: int|
            0 <= i < spans.len() ==> 0 <= (#[trigger] spans[i]).0 < spans[i].1 <= s.len(),
        forall|i: int|
            0 <= i < spans.len() ==> #[trigger] chunks(s, max)[i] == s.subrange(
                spans[i].0,
                spans[i].1,
            ),
        forall|i: int, j: int|
            0 <= i < j < spans.len() ==> (#[trigger] spans[i]).1 <= (#[trigger] spans[j]).0,
        forall|p: int| 0 <= p < s.len() && !inside(spans, p) ==> text::is_space(#[trigger] s[p]),
        forall|i: int| 0 <= i < spans.len() ==> !text::is_space(s[(#[trigger] spans[i]).0]),
        forall|i: int|
            0 <= i < spans.len() && s.len() - (#[trigger] spans[i]).0 <= max ==> spans[i].1
                == s.len(),
        forall|i: int|
            0 <= i < spans.len() && s.len() - (#[trigger] spans[i]).0 > max ==> spans[i].1
                <= spans[i].0 + max && (ends_at(s, spans[i].0, spans[i].1 - 1) || spans[i].1
                == spans[i].0 + max),
        forall|i: int, t: int|
            0 <= i < spans.len() && s.len() - (#[trigger] spans[i]).0 > max && spans[i].1 <= t
                < spans[i].0 + max ==> !#[trigger] ends_at(s, spans[i].0, t),
{
    let spans = lemma_spans(s, max);
    assert forall|i: int| 0 <= i < spans.len() implies #[trigger] chunks(s, max)[i] == s.subrange(
        spans[i].0,
        spans[i].1,
    ) by {
        assert(is_piece(s, max, spans[i].0, spans[i].1, chunks(s, max)[i]));
    }
    spans
}

/// A text that fits the budget is one chunk: the text without the whitespace in front, as it is.
pub proof fn law_short_text_is_one_chunk(space: Seq<char>, kept: Seq<char>, max: nat)
    requires
        forall|i: int| 0 <= i < space.len() ==> text::is_space(#[trigger] space[i]),
        0 < kept.len() <= max,
        !text::is_space(kept[0]),
    ensures
        chunks(space + kept, max) == seq![kept],
{
    text::law_trim_start(space, kept);
}

/// The body of a text is taken where it is not empty, and its chunks are those of the text, each
/// in UTF-8; a body that is not text is refused.
pub proof fn law_body_is_chunked_as_its_text(s: Seq<char>, body: Seq<u8>, v: Seq<Vec<u8>>)
    ensures
        s.len() > 0 ==> body_refusal(encode_utf8(s)) is None,
        body_refusal(seq![]) == Some("payload is empty"@),
        !valid_utf8(body) ==> body_refusal(body) == Some("payload must be valid UTF-8 text"@),
        body_chunks(encode_utf8(s)).len() == chunks(s, 48_000).len(),
        forall|i: int|
            0 <= i < chunks(s, 48_000).len() ==> #[trigger] body_chunks(encode_utf8(s))[i]
                == encode_utf8(chunks(s, 48_000)[i]),
        byte_lists(v).len() == v.len(),
        forall|i: int| 0 <= i < v.len() ==> #[trigger] byte_lists(v)[i] == v[i]@,
{
    encode_utf8_valid_utf8(s);
    encode_utf8_decode_utf8(s);
    lemma_budget(s, 0);
    encode_utf8_valid_utf8(seq![]);
    assert(encode_utf8(seq![]) =~= seq![]);
    assert(MAX_CHUNK_CHARS == 48_000);
}

/// The bytes of the chunks are those of each in UTF-8.
pub proof fn law_encoded(parts: Seq<Seq<char>>, i: int)
    requires
        0 <= i < parts.len(),
    ensures
        encoded(parts).len() == parts.len(),
        encoded(parts)[i] == encode_utf8(parts[i]),
{
}

/// The boundary of a window stands behind a full stop or a blank line, and no full stop and no blank
/// line ends behind it; where there is no boundary, none ends at all.
pub proof fn law_boundary_by_characters(window: Seq<char>, t: int)
    requires
        0 <= t < window.len(),
    ensures
        semantic_end(window) matches Some(k) ==> 0 < k <= window.len() && (window[k - 1] == '.' || (
        k > 1 && window[k - 2] == '\n' && window[k - 1] == '\n')),
        (semantic_end(window) matches Some(k) ==> k <= t) ==> window[t] != '.' && !(t > 0
            && window[t - 1] == '\n' && window[t] == '\n'),
{
    law_boundary_is_the_last_end(window);
    assert((semantic_end(window) matches Some(k) ==> k <= t) ==> !ends_at(window, 0, t));
}

/// The budget ends a text that is too long, and no other.
pub proof fn law_at_most(n: nat, max: nat)
    ensures
        n <= max ==> at_most(n, max) == n,
        n >= max ==> at_most(n, max) == max,
{
}

} // verus!
