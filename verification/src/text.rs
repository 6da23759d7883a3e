//! Text as sequences of characters: trimming, splitting, searching and rendering.

use vstd::prelude::*;
use vstd::slice::slice_subrange;
use vstd::slice::slice_to_vec;

verus! {

/// `String::push` appends one character.
pub assume_specification[ String::push ](s: &mut String, c: char)
    ensures
        final(s)@ == old(s)@.push(c),
;

/// The characters with the Unicode `White_Space` property.
pub open spec fn is_space(c: char) -> bool {
    ||| 0x09 <= c as u32 <= 0x0D
    ||| c as u32 == 0x20
    ||| c as u32 == 0x85
    ||| c as u32 == 0xA0
    ||| c as u32 == 0x1680
    ||| 0x2000 <= c as u32 <= 0x200A
    ||| c as u32 == 0x2028
    ||| c as u32 == 0x2029
    ||| c as u32 == 0x202F
    ||| c as u32 == 0x205F
    ||| c as u32 == 0x3000
}

/// Whether `c` has the Unicode `White_Space` property.
pub fn is_whitespace(c: char) -> (r: bool)
    ensures
        r == is_space(c),
{
    let n: u32 = c as u32;
    (0x09 <= n && n <= 0x0D) || n == 0x20 || n == 0x85 || n == 0xA0 || n == 0x1680
        || (0x2000 <= n && n <= 0x200A) || n == 0x2028 || n == 0x2029 || n == 0x202F
        || n == 0x205F || n == 0x3000
}

/// The characters of `s`, in order.
pub fn to_chars(s: &str) -> (r: Vec<char>)
    ensures
        r@ == s@,
{
    let mut out: Vec<char> = Vec::new();
    for c in it: s.chars()
        invariant
            it.seq() == s@,
            out@ == s@.take(it.index()),
    {
        out.push(c);
        assert(s@.take(it.index() + 1) =~= s@.take(it.index()).push(c));
    }
    assert(s@.take(s@.len() as int) =~= s@);
    out
}

/// The text that `chars[from..to]` spells.
pub fn from_chars(chars: &Vec<char>, from: usize, to: usize) -> (r: String)
    requires
        from <= to <= chars@.len(),
    ensures
        r@ == chars@.subrange(from as int, to as int),
{
    let mut out = String::new();
    let mut i: usize = from;
    while i < to
        invariant
            from <= i <= to <= chars@.len(),
            out@ == chars@.subrange(from as int, i as int),
        decreases to - i,
    {
        out.push(chars[i]);
        assert(chars@.subrange(from as int, i + 1) =~= chars@.subrange(from as int, i as int).push(
            chars@[i as int],
        ));
        i = i + 1;
    }
    out
}

/// The characters `chars[from..to]`.
pub fn sub_chars(chars: &Vec<char>, from: usize, to: usize) -> (r: Vec<char>)
    requires
        from <= to <= chars@.len(),
    ensures
        r@ == chars@.subrange(from as int, to as int),
{
    slice_to_vec(slice_subrange(chars.as_slice(), from, to))
}

/// The texts of a list of strings.
pub open spec fn texts(v: Seq<String>) -> Seq<Seq<char>> {
    Seq::new(v.len(), |i: int| v[i]@)
}

/// Adding a string to a list adds its text to the list's texts.
pub proof fn lemma_texts_push(v: Seq<String>, s: String)
    ensures
        texts(v.push(s)) == texts(v).push(s@),
{
    assert(texts(v.push(s)) =~= texts(v).push(s@));
}

/// Whether two strings hold the same text.
pub fn same_text(a: &str, b: &str) -> (r: bool)
    ensures
        r == (a@ == b@),
{
    let x: String = a.to_string();
    let y: String = b.to_string();
    x == y
}

/// What an optional text holds.
pub open spec fn opt_text(s: Option<&str>) -> Option<Seq<char>> {
    match s {
        Some(t) => Some(t@),
        None => None,
    }
}

/// What an optional string holds.
pub open spec fn opt_string(s: Option<String>) -> Option<Seq<char>> {
    match s {
        Some(t) => Some(t@),
        None => None,
    }
}

/// An optional string, borrowed.
pub fn borrowed(s: &Option<String>) -> (r: Option<&str>)
    ensures
        opt_text(r) == opt_string(*s),
{
    match s {
        Some(t) => Some(t.as_str()),
        None => None,
    }
}

// ---------------------------------------------------------------- trimming

/// `s` without its leading whitespace.
pub open spec fn trim_start(s: Seq<char>) -> Seq<char>
    decreases s.len(),
{
    if s.len() > 0 && is_space(s[0]) {
        trim_start(s.drop_first())
    } else {
        s
    }
}

/// `s` without its trailing whitespace.
pub open spec fn trim_end(s: Seq<char>) -> Seq<char>
    decreases s.len(),
{
    if s.len() > 0 && is_space(s.last()) {
        trim_end(s.drop_last())
    } else {
        s
    }
}

/// `s` without its leading and trailing whitespace.
pub open spec fn trim(s: Seq<char>) -> Seq<char> {
    trim_end(trim_start(s))
}

/// `s` without the run of `c` at its end.
pub open spec fn strip_end(s: Seq<char>, c: char) -> Seq<char>
    decreases s.len(),
{
    if s.len() > 0 && s.last() == c {
        strip_end(s.drop_last(), c)
    } else {
        s
    }
}

/// Where `chars[from..to]` begins once leading whitespace is dropped.
pub fn skip_spaces(chars: &Vec<char>, from: usize, to: usize) -> (r: usize)
    requires
        from <= to <= chars@.len(),
    ensures
        from <= r <= to,
        chars@.subrange(r as int, to as int) == trim_start(
            chars@.subrange(from as int, to as int),
        ),
{
    let mut i: usize = from;
    while i < to && is_whitespace(chars[i])
        invariant
            from <= i <= to <= chars@.len(),
            trim_start(chars@.subrange(i as int, to as int)) == trim_start(
                chars@.subrange(from as int, to as int),
            ),
        decreases to - i,
    {
        assert(chars@.subrange(i as int, to as int).drop_first() =~= chars@.subrange(
            i + 1,
            to as int,
        ));
        i = i + 1;
    }
    i
}

/// Where `chars[from..to]` ends once trailing whitespace is dropped.
pub fn skip_spaces_back(chars: &Vec<char>, from: usize, to: usize) -> (r: usize)
    requires
        from <= to <= chars@.len(),
    ensures
        from <= r <= to,
        chars@.subrange(from as int, r as int) == trim_end(chars@.subrange(from as int, to as int)),
{
    let mut i: usize = to;
    while i > from && is_whitespace(chars[i - 1])
        invariant
            from <= i <= to <= chars@.len(),
            trim_end(chars@.subrange(from as int, i as int)) == trim_end(
                chars@.subrange(from as int, to as int),
            ),
        decreases i - from,
    {
        assert(chars@.subrange(from as int, i as int).drop_last() =~= chars@.subrange(
            from as int,
            i - 1,
        ));
        i = i - 1;
    }
    i
}

/// `s` without its leading and trailing whitespace.
pub fn trimmed(s: &str) -> (r: String)
    ensures
        r@ == trim(s@),
{
    let chars = to_chars(s);
    let end: usize = chars.len();
    let i: usize = skip_spaces(&chars, 0, end);
    let j: usize = skip_spaces_back(&chars, i, end);
    assert(chars@.subrange(0, end as int) =~= s@);
    from_chars(&chars, i, j)
}

/// `s` without its leading whitespace.
pub fn trimmed_start(s: &str) -> (r: String)
    ensures
        r@ == trim_start(s@),
{
    let chars = to_chars(s);
    let end: usize = chars.len();
    let i: usize = skip_spaces(&chars, 0, end);
    assert(chars@.subrange(0, end as int) =~= s@);
    from_chars(&chars, i, end)
}

/// `s` without the run of `c` at its end.
pub fn without_trailing(s: &str, c: char) -> (r: String)
    ensures
        r@ == strip_end(s@, c),
{
    let chars = to_chars(s);
    let mut i: usize = chars.len();
    assert(chars@.subrange(0, i as int) =~= s@);
    while i > 0 && chars[i - 1] == c
        invariant
            i <= chars@.len(),
            strip_end(chars@.subrange(0, i as int), c) == strip_end(s@, c),
        decreases i,
    {
        assert(chars@.subrange(0, i as int).drop_last() =~= chars@.subrange(0, i - 1));
        i = i - 1;
    }
    from_chars(&chars, 0, i)
}

// --------------------------------------------------------------- splitting

/// Where `c` first occurs in `s`; the length of `s` if it does not.
pub open spec fn position(s: Seq<char>, c: char) -> nat
    decreases s.len(),
{
    if s.len() == 0 || s[0] == c {
        0
    } else {
        1 + position(s.drop_first(), c)
    }
}

/// [`position`] is at most the length, and the length only where `c` is absent.
pub proof fn lemma_position(s: Seq<char>, c: char)
    ensures
        position(s, c) <= s.len(),
        position(s, c) < s.len() ==> s[position(s, c) as int] == c,
        forall|i: int| 0 <= i < position(s, c) ==> s[i] != c,
        position(s, c) < s.len() <==> s.contains(c),
    decreases s.len(),
{
    if s.len() > 0 && s[0] != c {
        let t = s.drop_first();
        lemma_position(t, c);
        assert forall|i: int| 0 <= i < position(s, c) implies s[i] != c by {
            if i > 0 {
                assert(s[i] == t[i - 1]);
            }
        }
        if s.contains(c) {
            let k = choose|k: int| 0 <= k < s.len() && s[k] == c;
            assert(t[k - 1] == c);
        }
        if position(s, c) < s.len() {
            assert(s[position(s, c) as int] == t[position(t, c) as int]);
        }
    }
}

/// The pieces of `s` between occurrences of `sep`.
pub open spec fn split(s: Seq<char>, sep: char) -> Seq<Seq<char>>
    decreases s.len(),
{
    let i = position(s, sep) as int;
    if i >= s.len() {
        seq![s]
    } else {
        seq![s.take(i)] + split(s.skip(i + 1), sep)
    }
}

/// `line` without the carriage return at its end, if it has one.
pub open spec fn strip_return(line: Seq<char>) -> Seq<char> {
    if line.len() > 0 && line.last() == '\r' {
        line.drop_last()
    } else {
        line
    }
}

/// The lines of `s`. A line ends with a line feed, a carriage return right before it belongs to
/// the ending, and the last line needs no ending.
pub open spec fn lines(s: Seq<char>) -> Seq<Seq<char>>
    decreases s.len(),
{
    let i = position(s, '\n') as int;
    if s.len() == 0 {
        seq![]
    } else if i >= s.len() {
        seq![s]
    } else {
        seq![strip_return(s.take(i))] + lines(s.skip(i + 1))
    }
}

/// The pieces joined, with `sep` between neighbours.
pub open spec fn join(parts: Seq<Seq<char>>, sep: char) -> Seq<char>
    decreases parts.len(),
{
    if parts.len() == 0 {
        seq![]
    } else if parts.len() == 1 {
        parts[0]
    } else {
        join(parts.drop_last(), sep).push(sep) + parts.last()
    }
}

/// The pieces joined, with nothing between them.
pub open spec fn concat(parts: Seq<Seq<char>>) -> Seq<char>
    decreases parts.len(),
{
    if parts.len() == 0 {
        seq![]
    } else {
        concat(parts.drop_last()) + parts.last()
    }
}

/// A piece in front of others is joined to them by a separator.
pub proof fn lemma_join_first(first: Seq<char>, rest: Seq<Seq<char>>, sep: char)
    requires
        rest.len() > 0,
    ensures
        join(seq![first] + rest, sep) == first.push(sep) + join(rest, sep),
    decreases rest.len(),
{
    let all = seq![first] + rest;
    assert(all.drop_last() =~= seq![first] + rest.drop_last());
    if rest.len() == 1 {
        assert(all.drop_last() =~= seq![first]);
        assert(join(seq![first], sep) == first);
    } else {
        lemma_join_first(first, rest.drop_last(), sep);
        assert(join(all, sep) =~= first.push(sep) + join(rest, sep));
    }
}

/// What comes before the first separator is the first piece, and there is always one.
pub proof fn lemma_split_first(first: Seq<char>, rest: Seq<char>, sep: char)
    requires
        !first.contains(sep),
    ensures
        split(first.push(sep) + rest, sep) == seq![first] + split(rest, sep),
        split(first, sep) == seq![first],
        split(rest, sep).len() > 0,
{
    let s = first.push(sep) + rest;
    let n = first.len() as int;
    lemma_position(s, sep);
    lemma_position(first, sep);
    assert(s[n] == sep);
    assert(s.contains(sep));
    assert forall|i: int| 0 <= i < n implies s[i] != sep by {
        assert(first.contains(first[i]));
    }
    assert(position(s, sep) == n);
    assert(s.take(n) =~= first);
    assert(s.skip(n + 1) =~= rest);
}

/// Splitting and joining gives the text back.
pub proof fn lemma_join_split(s: Seq<char>, sep: char)
    ensures
        join(split(s, sep), sep) == s,
    decreases s.len(),
{
    let i = position(s, sep) as int;
    lemma_position(s, sep);
    if i < s.len() {
        let first = s.take(i);
        let rest = s.skip(i + 1);
        lemma_join_split(rest, sep);
        assert(!first.contains(sep));
        lemma_split_first(first, rest, sep);
        lemma_join_first(first, split(rest, sep), sep);
        assert(first.push(sep) + rest =~= s);
    }
}

/// Whitespace at the end of a text is trimmed away.
pub proof fn lemma_trim_push(s: Seq<char>, c: char)
    requires
        is_space(c),
    ensures
        trim(s.push(c)) == trim(s),
    decreases s.len(),
{
    let t = s.push(c);
    if s.len() == 0 {
        assert(t.drop_first() =~= s);
        assert(trim_start(t) =~= trim_start(s));
    } else if is_space(s[0]) {
        assert(t.drop_first() =~= s.drop_first().push(c));
        lemma_trim_push(s.drop_first(), c);
    } else {
        assert(t.drop_last() =~= s);
    }
}

/// Trimming the end leaves a visible first character where it is.
pub proof fn lemma_trim_end_first(s: Seq<char>)
    requires
        s.len() > 0,
        !is_space(s[0]),
    ensures
        trim_end(s).len() > 0,
        trim_end(s)[0] == s[0],
    decreases s.len(),
{
    if is_space(s.last()) {
        lemma_trim_end_first(s.drop_last());
    }
}

/// Joining two lists of pieces joins what each spells.
pub proof fn lemma_concat_add(a: Seq<Seq<char>>, b: Seq<Seq<char>>)
    ensures
        concat(a + b) == concat(a) + concat(b),
    decreases b.len(),
{
    if b.len() == 0 {
        assert(a + b =~= a);
        assert(concat(a) + concat(b) =~= concat(a));
    } else {
        assert((a + b).drop_last() =~= a + b.drop_last());
        lemma_concat_add(a, b.drop_last());
        assert(concat(a + b) =~= concat(a) + concat(b));
    }
}

/// One piece spells itself.
pub proof fn lemma_concat_one(piece: Seq<char>)
    ensures
        concat(seq![piece]) == piece,
{
    assert(seq![piece].drop_last() =~= seq![]);
    assert(concat(seq![piece]) =~= piece) by {
        assert(concat(seq![piece].drop_last()) =~= seq![]);
    }
}

/// Where `c` first occurs in `chars` at or after `from`; the length if it does not.
pub fn position_from(chars: &Vec<char>, from: usize, c: char) -> (r: usize)
    requires
        from <= chars@.len(),
    ensures
        from <= r <= chars@.len(),
        r == from + position(chars@.skip(from as int), c),
{
    let mut i: usize = from;
    while i < chars.len() && chars[i] != c
        invariant
            from <= i <= chars@.len(),
            from + position(chars@.skip(from as int), c) == i + position(chars@.skip(i as int), c),
        decreases chars@.len() - i,
    {
        assert(chars@.skip(i as int).drop_first() =~= chars@.skip(i + 1));
        i = i + 1;
    }
    i
}

/// The pieces of `s` between occurrences of `sep`.
pub fn split_on(s: &str, sep: char) -> (r: Vec<String>)
    ensures
        texts(r@) == split(s@, sep),
        r@.len() > 0,
{
    let chars = to_chars(s);
    let mut out: Vec<String> = Vec::new();
    let mut i: usize = 0;
    let mut j: usize = position_from(&chars, 0, sep);
    assert(chars@.skip(0) =~= s@);
    assert(texts(out@) + split(s@, sep) =~= split(s@, sep));
    while j < chars.len()
        invariant
            i <= j <= chars@.len(),
            j == i + position(chars@.skip(i as int), sep),
            texts(out@) + split(chars@.skip(i as int), sep) == split(s@, sep),
        decreases chars@.len() - i,
    {
        let piece = from_chars(&chars, i, j);
        proof {
            let rest = chars@.skip(i as int);
            assert(rest.take(j - i) =~= piece@);
            assert(rest.skip(j - i + 1) =~= chars@.skip(j + 1));
            lemma_texts_push(out@, piece);
            assert(texts(out@) + (seq![piece@] + split(chars@.skip(j + 1), sep)) =~= texts(
                out@.push(piece),
            ) + split(chars@.skip(j + 1), sep));
        }
        out.push(piece);
        i = j + 1;
        j = position_from(&chars, i, sep);
    }
    let piece = from_chars(&chars, i, j);
    proof {
        assert(chars@.skip(i as int) =~= piece@);
        lemma_texts_push(out@, piece);
        assert(texts(out@) + seq![piece@] =~= texts(out@).push(piece@));
    }
    out.push(piece);
    out
}

/// The lines of `chars`, as [`lines`] has them.
pub fn lines_of(chars: &Vec<char>) -> (r: Vec<String>)
    ensures
        texts(r@) == lines(chars@),
{
    let mut out: Vec<String> = Vec::new();
    let mut i: usize = 0;
    assert(chars@.skip(0) =~= chars@);
    assert(texts(out@) + lines(chars@) =~= lines(chars@));
    while i < chars.len()
        invariant
            i <= chars@.len(),
            texts(out@) + lines(chars@.skip(i as int)) == lines(chars@),
        decreases chars@.len() - i,
    {
        let j: usize = position_from(chars, i, '\n');
        let ghost rest = chars@.skip(i as int);
        if j >= chars.len() {
            let line = from_chars(chars, i, j);
            proof {
                assert(line@ =~= rest);
                lemma_texts_push(out@, line);
                assert(texts(out@) + seq![line@] =~= texts(out@).push(line@));
            }
            out.push(line);
            i = j;
            assert(texts(out@) + lines(chars@.skip(i as int)) =~= texts(out@));
        } else {
            let end: usize = if j > i && chars[j - 1] == '\r' {
                j - 1
            } else {
                j
            };
            let line = from_chars(chars, i, end);
            proof {
                assert(line@ =~= strip_return(rest.take(j - i)));
                assert(rest.skip(j - i + 1) =~= chars@.skip(j + 1));
                lemma_texts_push(out@, line);
                assert(texts(out@) + (seq![line@] + lines(chars@.skip(j + 1))) =~= texts(
                    out@.push(line),
                ) + lines(chars@.skip(j + 1)));
            }
            out.push(line);
            i = j + 1;
        }
    }
    assert(lines(chars@.skip(i as int)) =~= seq![]);
    assert(texts(out@) + lines(chars@.skip(i as int)) =~= texts(out@));
    out
}

/// The strings from `from` on joined, with `sep` between neighbours.
pub fn joined(parts: &Vec<String>, from: usize, sep: char) -> (r: String)
    requires
        from <= parts@.len(),
    ensures
        r@ == join(texts(parts@).skip(from as int), sep),
{
    let ghost all = texts(parts@).skip(from as int);
    let mut out = String::new();
    let mut i: usize = from;
    assert(all.take(0) =~= seq![]);
    while i < parts.len()
        invariant
            from <= i <= parts@.len(),
            all == texts(parts@).skip(from as int),
            out@ == join(all.take(i - from), sep),
        decreases parts@.len() - i,
    {
        if i > from {
            out.push(sep);
        }
        out.append(parts[i].as_str());
        proof {
            let head = all.take(i - from + 1);
            assert(head.drop_last() =~= all.take(i - from));
            assert(head.last() == parts@[i as int]@);
            if i == from {
                assert(head.len() == 1);
                assert(Seq::<char>::empty() + head[0] =~= head[0]);
            }
        }
        i = i + 1;
    }
    assert(all.take(all.len() as int) =~= all);
    out
}

// --------------------------------------------------------------- searching

/// Whether `s` begins with `prefix`.
pub open spec fn starts_with(s: Seq<char>, prefix: Seq<char>) -> bool {
    prefix.len() <= s.len() && s.take(prefix.len() as int) == prefix
}

/// Where `pattern` first occurs in `s`.
pub open spec fn find(s: Seq<char>, pattern: Seq<char>) -> Option<nat>
    decreases s.len(),
{
    if starts_with(s, pattern) {
        Some(0)
    } else if s.len() == 0 {
        None
    } else {
        match find(s.drop_first(), pattern) {
            Some(i) => Some(i + 1),
            None => None,
        }
    }
}

/// Whether `pattern` occurs in `s`.
pub open spec fn contains(s: Seq<char>, pattern: Seq<char>) -> bool {
    exists|i: int| 0 <= i <= s.len() && #[trigger] starts_with(s.skip(i), pattern)
}

/// `s` with every occurrence of `from` replaced by `to`, from the left, without overlaps.
pub open spec fn replace(s: Seq<char>, from: Seq<char>, to: Seq<char>) -> Seq<char>
    decreases s.len(),
{
    if s.len() == 0 || from.len() == 0 {
        s
    } else if starts_with(s, from) {
        to + replace(s.skip(from.len() as int), from, to)
    } else {
        seq![s[0]] + replace(s.drop_first(), from, to)
    }
}

/// [`find`] finds the first occurrence, and one exactly where there is one.
pub proof fn lemma_find(s: Seq<char>, pattern: Seq<char>)
    ensures
        find(s, pattern) matches Some(i) ==> i + pattern.len() <= s.len() && starts_with(
            s.skip(i as int),
            pattern,
        ) && forall|k: int| 0 <= k < i ==> !#[trigger] starts_with(s.skip(k), pattern),
        find(s, pattern) is Some <==> contains(s, pattern),
    decreases s.len(),
{
    assert(s.skip(0) =~= s);
    if !starts_with(s, pattern) && s.len() > 0 {
        let t = s.drop_first();
        lemma_find(t, pattern);
        assert forall|k: int| 0 < k <= s.len() implies #[trigger] s.skip(k) == t.skip(k - 1) by {
            assert(s.skip(k) =~= t.skip(k - 1));
        }
        if let Some(i) = find(t, pattern) {
            assert(s.skip(i as int + 1) == t.skip(i as int));
        }
        if contains(s, pattern) {
            let k = choose|k: int|
                0 <= k <= s.len() && #[trigger] starts_with(s.skip(k), pattern);
            assert(k > 0);
            assert(s.skip(k) == t.skip(k - 1));
        }
        if contains(t, pattern) {
            let k = choose|k: int|
                0 <= k <= t.len() && #[trigger] starts_with(t.skip(k), pattern);
            assert(s.skip(k + 1) == t.skip(k));
        }
    }
}

/// An occurrence with none before it is the one that [`find`] finds.
pub proof fn lemma_find_at(s: Seq<char>, pattern: Seq<char>, n: int)
    requires
        0 <= n <= s.len(),
        starts_with(s.skip(n), pattern),
        forall|k: int| 0 <= k < n ==> !starts_with(#[trigger] s.skip(k), pattern),
    ensures
        find(s, pattern) == Some(n as nat),
    decreases n,
{
    assert(s.skip(0) =~= s);
    if n > 0 {
        let t = s.drop_first();
        assert forall|k: int| 0 <= k < n - 1 implies !starts_with(
            #[trigger] t.skip(k),
            pattern,
        ) by {
            assert(t.skip(k) =~= s.skip(k + 1));
        }
        assert(t.skip(n - 1) =~= s.skip(n));
        assert(!starts_with(s.skip(0), pattern));
        lemma_find_at(t, pattern, n - 1);
    }
}

/// Whether `pattern` stands in `chars` at `at`.
pub fn matches_at(chars: &Vec<char>, at: usize, pattern: &Vec<char>) -> (r: bool)
    requires
        at <= chars@.len(),
    ensures
        r == starts_with(chars@.skip(at as int), pattern@),
{
    let ghost rest = chars@.skip(at as int);
    if chars.len() - at < pattern.len() {
        return false;
    }
    let mut i: usize = 0;
    while i < pattern.len()
        invariant
            at + pattern@.len() <= chars.len(),
            i <= pattern@.len(),
            rest == chars@.skip(at as int),
            forall|k: int| 0 <= k < i ==> rest[k] == pattern@[k],
        decreases pattern@.len() - i,
    {
        if chars[at + i] != pattern[i] {
            assert(rest.take(pattern@.len() as int)[i as int] != pattern@[i as int]);
            return false;
        }
        i = i + 1;
    }
    assert(rest.take(pattern@.len() as int) =~= pattern@);
    true
}

/// Where `pattern` first occurs in `chars` at or after `from`.
pub fn find_from(chars: &Vec<char>, from: usize, pattern: &Vec<char>) -> (r: Option<usize>)
    requires
        from <= chars@.len(),
    ensures
        match r {
            Some(i) => from <= i <= chars@.len() && find(chars@.skip(from as int), pattern@)
                == Some((i - from) as nat),
            None => find(chars@.skip(from as int), pattern@) is None,
        },
{
    let mut i: usize = from;
    loop
        invariant
            from <= i <= chars@.len(),
            find(chars@.skip(from as int), pattern@) == (match find(
                chars@.skip(i as int),
                pattern@,
            ) {
                Some(k) => Some((k + (i - from)) as nat),
                None => None::<nat>,
            }),
        decreases chars@.len() - i,
    {
        if matches_at(chars, i, pattern) {
            return Some(i);
        }
        if i >= chars.len() {
            return None;
        }
        assert(chars@.skip(i as int).drop_first() =~= chars@.skip(i + 1));
        i = i + 1;
    }
}

/// Whether `pattern` occurs in `s`.
pub fn has_text(s: &str, pattern: &str) -> (r: bool)
    ensures
        r == contains(s@, pattern@),
{
    let chars = to_chars(s);
    let wanted = to_chars(pattern);
    proof {
        assert(chars@.skip(0) =~= s@);
        lemma_find(s@, pattern@);
    }
    find_from(&chars, 0, &wanted).is_some()
}

/// Whether `c` occurs in `s`.
pub fn has_char(s: &str, c: char) -> (r: bool)
    ensures
        r == s@.contains(c),
{
    let chars = to_chars(s);
    proof {
        assert(chars@.skip(0) =~= s@);
        lemma_position(s@, c);
    }
    position_from(&chars, 0, c) < chars.len()
}

/// Whether `s` begins with `prefix`.
pub fn begins_with(s: &str, prefix: &str) -> (r: bool)
    ensures
        r == starts_with(s@, prefix@),
{
    let chars = to_chars(s);
    let wanted = to_chars(prefix);
    assert(chars@.skip(0) =~= s@);
    matches_at(&chars, 0, &wanted)
}

/// What follows `prefix` in `s`, if `s` begins with it.
pub fn after_prefix(s: &str, prefix: &str) -> (r: Option<String>)
    ensures
        match r {
            Some(rest) => starts_with(s@, prefix@) && rest@ == s@.skip(prefix@.len() as int),
            None => !starts_with(s@, prefix@),
        },
{
    let chars = to_chars(s);
    let wanted = to_chars(prefix);
    assert(chars@.skip(0) =~= s@);
    if matches_at(&chars, 0, &wanted) {
        let rest = from_chars(&chars, wanted.len(), chars.len());
        assert(rest@ =~= s@.skip(prefix@.len() as int));
        Some(rest)
    } else {
        None
    }
}

/// `s` with every occurrence of `from` replaced by `to`, from the left, without overlaps.
pub fn replaced(s: &str, from: &str, to: &str) -> (r: String)
    requires
        from@.len() > 0,
    ensures
        r@ == replace(s@, from@, to@),
{
    let chars = to_chars(s);
    let wanted = to_chars(from);
    let mut out = String::new();
    let mut i: usize = 0;
    assert(chars@.skip(0) =~= s@);
    assert(out@ + replace(s@, from@, to@) =~= replace(s@, from@, to@));
    while i < chars.len()
        invariant
            i <= chars@.len(),
            wanted@ == from@,
            from@.len() > 0,
            out@ + replace(chars@.skip(i as int), from@, to@) == replace(s@, from@, to@),
        decreases chars@.len() - i,
    {
        let ghost rest = chars@.skip(i as int);
        let ghost before = out@;
        if matches_at(&chars, i, &wanted) {
            out.append(to);
            assert(rest.skip(from@.len() as int) =~= chars@.skip(i + from@.len()));
            assert(out@ + replace(chars@.skip(i + from@.len()), from@, to@) =~= before + replace(
                rest,
                from@,
                to@,
            ));
            i = i + wanted.len();
        } else {
            out.push(chars[i]);
            assert(rest.drop_first() =~= chars@.skip(i + 1));
            assert(out@ + replace(chars@.skip(i + 1), from@, to@) =~= before + replace(
                rest,
                from@,
                to@,
            ));
            i = i + 1;
        }
    }
    assert(replace(chars@.skip(i as int), from@, to@) =~= seq![]);
    assert(out@ + replace(chars@.skip(i as int), from@, to@) =~= out@);
    out
}

// --------------------------------------------------------------------- laws

/// Trimming the start takes away the whitespace in front and nothing else.
pub proof fn law_trim_start(space: Seq<char>, kept: Seq<char>)
    requires
        forall|i: int| 0 <= i < space.len() ==> is_space(#[trigger] space[i]),
        kept.len() > 0 ==> !is_space(kept[0]),
    ensures
        trim_start(space + kept) == kept,
    decreases space.len(),
{
    let s = space + kept;
    if space.len() == 0 {
        assert(s =~= kept);
    } else {
        let rest = space.drop_first();
        assert(s[0] == space[0]);
        assert(s.drop_first() =~= rest + kept);
        assert forall|i: int| 0 <= i < rest.len() implies is_space(#[trigger] rest[i]) by {
            assert(rest[i] == space[i + 1]);
        }
        law_trim_start(rest, kept);
    }
}

/// Trimming the end takes away the whitespace behind and nothing else.
pub proof fn law_trim_end(kept: Seq<char>, space: Seq<char>)
    requires
        forall|i: int| 0 <= i < space.len() ==> is_space(#[trigger] space[i]),
        kept.len() > 0 ==> !is_space(kept.last()),
    ensures
        trim_end(kept + space) == kept,
    decreases space.len(),
{
    let s = kept + space;
    if space.len() == 0 {
        assert(s =~= kept);
    } else {
        let rest = space.drop_last();
        assert(s.last() == space.last());
        assert(is_space(space[space.len() - 1]));
        assert(s.drop_last() =~= kept + rest);
        assert forall|i: int| 0 <= i < rest.len() implies is_space(#[trigger] rest[i]) by {
            assert(rest[i] == space[i]);
        }
        law_trim_end(kept, rest);
    }
}

/// Trimming takes away the whitespace on both sides and nothing else: what stands between is kept,
/// character for character.
pub proof fn law_trim(before: Seq<char>, kept: Seq<char>, behind: Seq<char>)
    requires
        forall|i: int| 0 <= i < before.len() ==> is_space(#[trigger] before[i]),
        forall|i: int| 0 <= i < behind.len() ==> is_space(#[trigger] behind[i]),
        kept.len() > 0 ==> !is_space(kept[0]) && !is_space(kept.last()),
    ensures
        trim(before + kept + behind) == kept,
{
    if kept.len() == 0 {
        let all = before + behind;
        assert forall|i: int| 0 <= i < all.len() implies is_space(#[trigger] all[i]) by {
            if i < before.len() {
                assert(all[i] == before[i]);
            } else {
                assert(all[i] == behind[i - before.len()]);
            }
        }
        assert(before + kept + behind =~= all + kept);
        law_trim_start(all, kept);
        assert(trim_end(kept) =~= kept);
    } else {
        assert(before + kept + behind =~= before + (kept + behind));
        assert((kept + behind)[0] == kept[0]);
        law_trim_start(before, kept + behind);
        law_trim_end(kept, behind);
    }
}

/// Every text is what trimming keeps of it, with whitespace on both sides.
pub proof fn law_trimmed_text_stands_in_the_text(s: Seq<char>) -> (r: (int, int))
    ensures
        0 <= r.0 <= r.1 <= s.len(),
        trim(s) == s.subrange(r.0, r.1),
        forall|i: int| 0 <= i < r.0 ==> is_space(#[trigger] s[i]),
        forall|i: int| r.1 <= i < s.len() ==> is_space(#[trigger] s[i]),
        trim(s).len() > 0 ==> !is_space(trim(s)[0]) && !is_space(trim(s).last()),
    decreases s.len(),
{
    if s.len() > 0 && is_space(s[0]) {
        let (a, b) = law_trimmed_text_stands_in_the_text(s.drop_first());
        assert(s.drop_first().subrange(a, b) =~= s.subrange(a + 1, b + 1));
        assert forall|i: int| 0 <= i < a + 1 implies is_space(#[trigger] s[i]) by {
            if i > 0 {
                assert(s.drop_first()[i - 1] == s[i]);
            }
        }
        assert forall|i: int| b + 1 <= i < s.len() implies is_space(#[trigger] s[i]) by {
            assert(s.drop_first()[i - 1] == s[i]);
        }
        (a + 1, b + 1)
    } else if s.len() > 0 && is_space(s.last()) {
        let front = s.drop_last();
        if front.len() > 0 {
            assert(front[0] == s[0]);
        }
        let (a, b) = law_trimmed_text_stands_in_the_text(front);
        assert(front.subrange(a, b) =~= s.subrange(a, b));
        assert forall|i: int| 0 <= i < a implies is_space(#[trigger] s[i]) by {
            assert(front[i] == s[i]);
        }
        assert forall|i: int| b <= i < s.len() implies is_space(#[trigger] s[i]) by {
            if i < front.len() {
                assert(front[i] == s[i]);
            }
        }
        (a, b)
    } else {
        assert(s.subrange(0, s.len() as int) =~= s);
        (0, s.len() as int)
    }
}

/// Stripping takes away the run of a character at the end and nothing else.
pub proof fn law_strip_end(kept: Seq<char>, run: Seq<char>, c: char)
    requires
        forall|i: int| 0 <= i < run.len() ==> #[trigger] run[i] == c,
        kept.len() > 0 ==> kept.last() != c,
    ensures
        strip_end(kept + run, c) == kept,
    decreases run.len(),
{
    let s = kept + run;
    if run.len() == 0 {
        assert(s =~= kept);
    } else {
        assert(s.last() == run[run.len() - 1]);
        assert(s.drop_last() =~= kept + run.drop_last());
        assert forall|i: int| 0 <= i < run.drop_last().len() implies #[trigger] run.drop_last()[i]
            == c by {
            assert(run.drop_last()[i] == run[i]);
        }
        law_strip_end(kept, run.drop_last(), c);
    }
}

/// Splitting gives what stands before the first separator, and then the pieces of what stands
/// behind it; a text without a separator is one piece.
pub proof fn law_split(first: Seq<char>, rest: Seq<char>, sep: char)
    requires
        forall|i: int| 0 <= i < first.len() ==> #[trigger] first[i] != sep,
    ensures
        split(first, sep) == seq![first],
        split(first.push(sep) + rest, sep) == seq![first] + split(rest, sep),
{
    assert(!first.contains(sep));
    lemma_split_first(first, rest, sep);
}

/// Joining puts a separator between neighbours and nothing else.
pub proof fn law_join(first: Seq<char>, rest: Seq<Seq<char>>, sep: char)
    ensures
        join(seq![], sep) == Seq::<char>::empty(),
        join(seq![first], sep) == first,
        rest.len() > 0 ==> join(seq![first] + rest, sep) == first.push(sep) + join(rest, sep),
{
    if rest.len() > 0 {
        lemma_join_first(first, rest, sep);
    }
}

/// What is split is whole again when it is joined.
pub proof fn law_joining_undoes_splitting(s: Seq<char>, sep: char)
    ensures
        join(split(s, sep), sep) == s,
{
    lemma_join_split(s, sep);
}

/// Pieces are joined in order, each as it is.
pub proof fn law_concat(first: Seq<char>, rest: Seq<Seq<char>>)
    ensures
        concat(seq![]) == Seq::<char>::empty(),
        concat(seq![first]) == first,
        concat(seq![first] + rest) == first + concat(rest),
{
    lemma_concat_one(first);
    lemma_concat_add(seq![first], rest);
}

/// A line ends with a line feed, or with a carriage return and a line feed, which are not part of
/// it; the last line needs no ending.
pub proof fn law_lines(line: Seq<char>, rest: Seq<char>)
    requires
        forall|i: int| 0 <= i < line.len() ==> #[trigger] line[i] != '\n',
    ensures
        lines(seq![]) == Seq::<Seq<char>>::empty(),
        line.len() > 0 ==> lines(line) == seq![line],
        (line.len() == 0 || line.last() != '\r') ==> lines(line.push('\n') + rest) == seq![line]
            + lines(rest),
        lines(line.push('\r').push('\n') + rest) == seq![line] + lines(rest),
{
    lemma_position(line, '\n');
    assert(!line.contains('\n'));
    lemma_line(line, rest);
    let carried = line.push('\r');
    assert forall|i: int| 0 <= i < carried.len() implies #[trigger] carried[i] != '\n' by {
        if i < line.len() {
            assert(carried[i] == line[i]);
        }
    }
    lemma_line(carried, rest);
    assert(carried.drop_last() =~= line);
}

/// The first line of a text.
pub proof fn lemma_line(line: Seq<char>, rest: Seq<char>)
    requires
        forall|i: int| 0 <= i < line.len() ==> #[trigger] line[i] != '\n',
    ensures
        lines(line.push('\n') + rest) == seq![strip_return(line)] + lines(rest),
{
    let s = line.push('\n') + rest;
    let n = line.len() as int;
    lemma_position(s, '\n');
    assert(s[n] == '\n');
    assert forall|i: int| 0 <= i < n implies s[i] != '\n' by {
        assert(s[i] == line[i]);
    }
    assert(position(s, '\n') == n);
    assert(s.take(n) =~= line);
    assert(s.skip(n + 1) =~= rest);
}

/// A text begins with a prefix exactly where it is the prefix and something behind it.
pub proof fn law_starts_with(s: Seq<char>, prefix: Seq<char>, rest: Seq<char>)
    ensures
        starts_with(prefix + rest, prefix),
        starts_with(s, prefix) ==> s == prefix + s.skip(prefix.len() as int),
{
    assert((prefix + rest).take(prefix.len() as int) =~= prefix);
    if starts_with(s, prefix) {
        assert(s =~= s.take(prefix.len() as int) + s.skip(prefix.len() as int));
    }
}

/// A pattern that stands in a text is found, at its first place; what is found stands there.
pub proof fn law_find(before: Seq<char>, pattern: Seq<char>, behind: Seq<char>, s: Seq<char>)
    ensures
        contains(before + pattern + behind, pattern),
        find(s, pattern) is Some <==> contains(s, pattern),
        find(s, pattern) matches Some(i) ==> {
            &&& i + pattern.len() <= s.len()
            &&& s.subrange(i as int, i as int + pattern.len()) == pattern
            &&& forall|k: int|
                0 <= k < i ==> #[trigger] s.subrange(k, k + pattern.len()) != pattern
        },
{
    let whole = before + pattern + behind;
    let n = before.len() as int;
    assert(whole.skip(n).take(pattern.len() as int) =~= pattern);
    assert(starts_with(whole.skip(n), pattern));
    lemma_find(s, pattern);
    if let Some(i) = find(s, pattern) {
        let m = pattern.len() as int;
        assert(s.skip(i as int).take(m) =~= s.subrange(i as int, i + m));
        assert forall|k: int| 0 <= k < i implies #[trigger] s.subrange(k, k + m) != pattern by {
            assert(s.skip(k).take(m) =~= s.subrange(k, k + m));
            assert(!starts_with(s.skip(k), pattern));
        }
    }
}

/// A character occurs where it is found, and nowhere before.
pub proof fn law_position(before: Seq<char>, c: char, behind: Seq<char>)
    requires
        forall|i: int| 0 <= i < before.len() ==> #[trigger] before[i] != c,
    ensures
        position(before, c) == before.len(),
        position(before.push(c) + behind, c) == before.len(),
{
    let s = before.push(c) + behind;
    lemma_position(before, c);
    lemma_position(s, c);
    assert(!before.contains(c));
    assert(s[before.len() as int] == c);
    assert(s.contains(c));
    assert forall|i: int| 0 <= i < before.len() implies s[i] != c by {
        assert(s[i] == before[i]);
    }
}

/// Replacing changes the occurrences, one after the other from the left, and keeps what stands
/// between them as it is.
pub proof fn law_replace(before: Seq<char>, from: Seq<char>, behind: Seq<char>, to: Seq<char>)
    requires
        from.len() > 0,
        forall|k: int|
            0 <= k < before.len() ==> (#[trigger] (before + from + behind).skip(k)).take(
                from.len() as int,
            ) != from,
    ensures
        replace(before + from + behind, from, to) == before + to + replace(behind, from, to),
    decreases before.len(),
{
    let s = before + from + behind;
    let m = from.len() as int;
    if before.len() == 0 {
        assert(s.take(m) =~= from);
        assert(s.skip(m) =~= behind);
        assert(before + to =~= to);
    } else {
        let rest = before.drop_first();
        assert(s.skip(0) =~= s);
        assert(s.skip(0).take(m) != from);
        assert(s.drop_first() =~= rest + from + behind);
        assert forall|k: int| 0 <= k < rest.len() implies (#[trigger] (rest + from + behind).skip(
            k,
        )).take(m) != from by {
            assert((rest + from + behind).skip(k) =~= s.skip(k + 1));
        }
        law_replace(rest, from, behind, to);
        assert(seq![s[0]] + (rest + to + replace(behind, from, to)) =~= before + to + replace(
            behind,
            from,
            to,
        ));
    }
}

/// Where nothing is to be replaced, nothing changes.
pub proof fn law_replace_nothing(s: Seq<char>, from: Seq<char>, to: Seq<char>)
    requires
        from.len() > 0,
        forall|k: int|
            0 <= k <= s.len() - from.len() ==> (#[trigger] s.skip(k)).take(from.len() as int)
                != from,
    ensures
        replace(s, from, to) == s,
    decreases s.len(),
{
    let m = from.len() as int;
    if s.len() > 0 {
        assert(s.skip(0) =~= s);
        if m <= s.len() {
            assert(s.skip(0).take(m) != from);
        }
        let t = s.drop_first();
        assert forall|k: int| 0 <= k <= t.len() - m implies (#[trigger] t.skip(k)).take(m)
            != from by {
            assert(t.skip(k) =~= s.skip(k + 1));
        }
        law_replace_nothing(t, from, to);
        assert(seq![s[0]] + t =~= s);
    }
}

/// The texts of a list are those of its strings, one for one; an optional string's text is there
/// where the string is.
pub proof fn law_texts(v: Seq<String>, i: int, s: String, t: &str)
    requires
        0 <= i < v.len(),
    ensures
        texts(v).len() == v.len(),
        texts(v)[i] == v[i]@,
        opt_string(Some(s)) == Some(s@),
        opt_string(None) == None::<Seq<char>>,
        opt_text(Some(t)) == Some(t@),
        opt_text(None) == None::<Seq<char>>,
{
}

} // verus!
