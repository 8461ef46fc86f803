//! Text as a sequence of characters: trimming, searching, splitting, joining.

use vstd::prelude::*;
use vstd::slice::slice_subrange;

verus! {

/// The characters with the Unicode property `White_Space`.
pub open spec fn is_space(c: char) -> bool {
    ||| '\u{9}' <= c <= '\u{d}'
    ||| c == ' '
    ||| c == '\u{85}'
    ||| c == '\u{a0}'
    ||| c == '\u{1680}'
    ||| '\u{2000}' <= c <= '\u{200a}'
    ||| c == '\u{2028}'
    ||| c == '\u{2029}'
    ||| c == '\u{202f}'
    ||| c == '\u{205f}'
    ||| c == '\u{3000}'
}

/// First position at or after `i` that holds no white space, or the length.
pub open spec fn space_end(s: Seq<char>, i: int) -> int
    decreases s.len() - i,
{
    if 0 <= i < s.len() && is_space(s[i]) {
        space_end(s, i + 1)
    } else {
        i
    }
}

/// End of what is left of the first `j` characters without trailing white space.
pub open spec fn space_start(s: Seq<char>, j: int) -> int
    decreases j,
{
    if 0 < j <= s.len() && is_space(s[j - 1]) {
        space_start(s, j - 1)
    } else {
        j
    }
}

/// Text without leading white space.
pub open spec fn trim_start(s: Seq<char>) -> Seq<char> {
    s.skip(space_end(s, 0))
}

/// Text without trailing white space.
pub open spec fn trim_end(s: Seq<char>) -> Seq<char> {
    s.take(space_start(s, s.len() as int))
}

/// Text without surrounding white space.
pub open spec fn trimmed(s: Seq<char>) -> Seq<char> {
    trim_end(trim_start(s))
}

/// First position at or after `i` that holds `c`, or the length.
pub open spec fn find_char(s: Seq<char>, c: char, i: int) -> int
    decreases s.len() - i,
{
    if 0 <= i < s.len() && s[i] != c {
        find_char(s, c, i + 1)
    } else {
        i
    }
}

/// First position at or after `i` that holds something else than `c`, or the length.
pub open spec fn skip_char(s: Seq<char>, c: char, i: int) -> int
    decreases s.len() - i,
{
    if 0 <= i < s.len() && s[i] == c {
        skip_char(s, c, i + 1)
    } else {
        i
    }
}

/// Last position before `j` that holds `c`, or `-1`.
pub open spec fn find_last(s: Seq<char>, c: char, j: int) -> int
    decreases j,
{
    if 0 < j <= s.len() && s[j - 1] != c {
        find_last(s, c, j - 1)
    } else {
        j - 1
    }
}

/// Parts of a text between the occurrences of a separator.
pub open spec fn split(s: Seq<char>, sep: char) -> Seq<Seq<char>>
    decreases s.len(),
{
    let i = find_char(s, sep, 0);
    if 0 <= i < s.len() {
        seq![s.take(i)] + split(s.skip(i + 1), sep)
    } else {
        seq![s]
    }
}

/// The first `n` parts in a row with a separator between neighbours.
pub open spec fn joined(parts: Seq<Seq<char>>, sep: Seq<char>, n: int) -> Seq<char>
    decreases n,
{
    if n <= 0 {
        Seq::empty()
    } else if n == 1 {
        parts[0]
    } else {
        joined(parts, sep, n - 1) + sep + parts[n - 1]
    }
}

/// All parts in a row with a separator between neighbours.
pub open spec fn join(parts: Seq<Seq<char>>, sep: Seq<char>) -> Seq<char> {
    joined(parts, sep, parts.len() as int)
}

/// Texts of a sequence of strings.
pub open spec fn texts(v: Seq<String>) -> Seq<Seq<char>> {
    v.map_values(|s: String| s@)
}

/// Whether `part` occurs in `s`.
pub open spec fn has_part(s: Seq<char>, part: Seq<char>) -> bool {
    exists|i: int| occurs_at(s, part, i)
}

/// Whether `part` stands in `s` from position `i` on.
pub open spec fn occurs_at(s: Seq<char>, part: Seq<char>, i: int) -> bool {
    0 <= i && i + part.len() <= s.len() && s.subrange(i, i + part.len()) == part
}

/// Lines of a text: each ends with a line feed or with the text, a carriage
/// return right before the line feed belongs to the ending.
pub open spec fn lines(s: Seq<char>) -> Seq<Seq<char>>
    decreases s.len(),
{
    let i = find_char(s, '\n', 0);
    if s.len() == 0 {
        Seq::empty()
    } else if 0 <= i < s.len() {
        seq![line_body(s.take(i))] + lines(s.skip(i + 1))
    } else {
        seq![s]
    }
}

/// Text before a line feed without the carriage return that closes it.
pub open spec fn line_body(s: Seq<char>) -> Seq<char> {
    if s.len() > 0 && s.last() == '\r' {
        s.drop_last()
    } else {
        s
    }
}

/// Bounds of [`space_end`] and what it has passed.
pub proof fn lemma_space_end(s: Seq<char>, i: int)
    requires
        0 <= i <= s.len(),
    ensures
        i <= space_end(s, i) <= s.len(),
        forall|k: int| i <= k < space_end(s, i) ==> is_space(#[trigger] s[k]),
        space_end(s, i) < s.len() ==> !is_space(s[space_end(s, i)]),
    decreases s.len() - i,
{
    if i < s.len() && is_space(s[i]) {
        lemma_space_end(s, i + 1);
    }
}

/// Bounds of [`space_start`] and what it has passed.
pub proof fn lemma_space_start(s: Seq<char>, j: int)
    requires
        0 <= j <= s.len(),
    ensures
        0 <= space_start(s, j) <= j,
        forall|k: int| space_start(s, j) <= k < j ==> is_space(#[trigger] s[k]),
        space_start(s, j) > 0 ==> !is_space(s[space_start(s, j) - 1]),
    decreases j,
{
    if 0 < j && is_space(s[j - 1]) {
        lemma_space_start(s, j - 1);
    }
}

/// Bounds of [`find_char`] and what it has passed.
pub proof fn lemma_find_char(s: Seq<char>, c: char, i: int)
    requires
        0 <= i <= s.len(),
    ensures
        i <= find_char(s, c, i) <= s.len(),
        forall|k: int| i <= k < find_char(s, c, i) ==> #[trigger] s[k] != c,
        find_char(s, c, i) < s.len() ==> s[find_char(s, c, i)] == c,
    decreases s.len() - i,
{
    if i < s.len() && s[i] != c {
        lemma_find_char(s, c, i + 1);
    }
}

/// Bounds of [`find_last`] and what it has passed.
pub proof fn lemma_find_last(s: Seq<char>, c: char, j: int)
    requires
        0 <= j <= s.len(),
    ensures
        -1 <= find_last(s, c, j) < j || (j == 0 && find_last(s, c, j) == -1),
        forall|k: int| find_last(s, c, j) < k < j ==> #[trigger] s[k] != c,
        find_last(s, c, j) >= 0 ==> s[find_last(s, c, j)] == c,
    decreases j,
{
    if 0 < j && s[j - 1] != c {
        lemma_find_last(s, c, j - 1);
    }
}

/// Parts of two texts with a separator between them: the parts of the first, then
/// the parts of the second.
pub proof fn lemma_split_around(a: Seq<char>, b: Seq<char>, sep: char)
    ensures
        split(a + seq![sep] + b, sep) == split(a, sep) + split(b, sep),
    decreases a.len(),
{
    let s = a + seq![sep] + b;
    let i = find_char(a, sep, 0);
    lemma_find_char(a, sep, 0);
    lemma_find_char_in(a, seq![sep] + b, sep, 0);
    assert(s == a + (seq![sep] + b));
    if i < a.len() {
        lemma_split_around(a.skip(i + 1), b, sep);
        assert(s.take(i) == a.take(i));
        assert(s.skip(i + 1) == a.skip(i + 1) + seq![sep] + b);
        assert(split(a, sep) == seq![a.take(i)] + split(a.skip(i + 1), sep));
        assert(split(s, sep) == seq![a.take(i)] + (split(a.skip(i + 1), sep) + split(b, sep)));
    } else {
        assert(s[i] == sep);
        assert(find_char(s, sep, i) == i);
        assert(s.take(i) == a);
        assert(s.skip(i + 1) == b);
    }
}

proof fn lemma_find_char_in(a: Seq<char>, b: Seq<char>, c: char, i: int)
    requires
        0 <= i <= a.len(),
    ensures
        find_char(a, c, i) < a.len() ==> find_char(a + b, c, i) == find_char(a, c, i),
        find_char(a, c, i) == a.len() ==> find_char(a + b, c, i) == find_char(
            a + b,
            c,
            a.len() as int,
        ),
    decreases a.len() - i,
{
    if i < a.len() {
        assert((a + b)[i] == a[i]);
        if a[i] != c {
            lemma_find_char_in(a, b, c, i + 1);
        }
    }
}

/// Whether a character has the Unicode property `White_Space`.
pub(crate) fn is_white_space(c: char) -> (r: bool)
    ensures
        r == is_space(c),
{
    ('\u{9}' <= c && c <= '\u{d}') || c == ' ' || c == '\u{85}' || c == '\u{a0}' || c
        == '\u{1680}' || ('\u{2000}' <= c && c <= '\u{200a}') || c == '\u{2028}' || c == '\u{2029}'
        || c == '\u{202f}' || c == '\u{205f}' || c == '\u{3000}'
}

/// Characters of a text.
pub(crate) fn chars_of(s: &str) -> (v: Vec<char>)
    ensures
        v@ == s@,
{
    let mut v: Vec<char> = Vec::new();
    for c in it: s.chars()
        invariant
            v@ == it.seq().take(it.index() as int),
            it.seq() == s@,
    {
        v.push(c);
    }
    v
}

/// Copy of a run of characters.
pub(crate) fn chars_of_slice(chars: &[char]) -> (v: Vec<char>)
    ensures
        v@ == chars@,
{
    let mut v: Vec<char> = Vec::new();
    let n: usize = chars.len();
    let mut i: usize = 0;
    while i < n
        invariant
            i <= n,
            n == chars@.len(),
            v@ == chars@.take(i as int),
        decreases n - i,
    {
        v.push(chars[i]);
        i = i + 1;
    }
    v
}

/// Text made of characters.
pub(crate) fn text_of(chars: &[char]) -> (r: String)
    ensures
        r@ == chars@,
{
    let mut r = String::new();
    let n: usize = chars.len();
    let mut i: usize = 0;
    while i < n
        invariant
            i <= n,
            n == chars@.len(),
            r@ == chars@.take(i as int),
        decreases n - i,
    {
        r.push(chars[i]);
        i = i + 1;
    }
    r
}

/// Characters without surrounding white space.
pub(crate) fn trim<'a>(chars: &'a [char]) -> (r: &'a [char])
    ensures
        r@ == trimmed(chars@),
{
    let n: usize = chars.len();
    let mut i: usize = 0;
    while i < n && is_white_space(chars[i])
        invariant
            i <= n,
            n == chars@.len(),
            space_end(chars@, 0) == space_end(chars@, i as int),
        decreases n - i,
    {
        i = i + 1;
    }
    trim_tail(slice_subrange(chars, i, n))
}

/// Characters without trailing white space.
pub(crate) fn trim_tail<'a>(chars: &'a [char]) -> (r: &'a [char])
    ensures
        r@ == trim_end(chars@),
{
    let n: usize = chars.len();
    let mut j: usize = n;
    while j > 0 && is_white_space(chars[j - 1])
        invariant
            j <= n,
            n == chars@.len(),
            space_start(chars@, n as int) == space_start(chars@, j as int),
        decreases j,
    {
        j = j - 1;
    }
    slice_subrange(chars, 0, j)
}

/// Text without surrounding white space.
pub(crate) fn trim_text(s: &str) -> (r: String)
    ensures
        r@ == trimmed(s@),
{
    let v = chars_of(s);
    text_of(trim(v.as_slice()))
}

/// Position of the first `c` at or after `from`, or the length.
pub(crate) fn position_of(chars: &[char], c: char, from: usize) -> (r: usize)
    requires
        from <= chars@.len(),
    ensures
        r == find_char(chars@, c, from as int),
        from <= r <= chars@.len(),
{
    let n: usize = chars.len();
    let mut i: usize = from;
    while i < n && chars[i] != c
        invariant
            from <= i <= n,
            n == chars@.len(),
            find_char(chars@, c, from as int) == find_char(chars@, c, i as int),
        decreases n - i,
    {
        i = i + 1;
    }
    i
}

/// Whether a text holds a character.
pub(crate) fn has_char(s: &str, c: char) -> (r: bool)
    ensures
        r == s@.contains(c),
{
    let v = chars_of(s);
    let i: usize = position_of(v.as_slice(), c, 0);
    proof {
        lemma_find_char(s@, c, 0);
        if i < s@.len() {
            assert(s@.contains(s@[i as int]));
        }
    }
    i < v.len()
}

/// Characters without the leading run of `c`.
pub(crate) fn without_leading<'a>(chars: &'a [char], c: char) -> (r: &'a [char])
    ensures
        r@ == chars@.skip(skip_char(chars@, c, 0)),
{
    let n: usize = chars.len();
    let mut i: usize = 0;
    while i < n && chars[i] == c
        invariant
            i <= n,
            n == chars@.len(),
            skip_char(chars@, c, 0) == skip_char(chars@, c, i as int),
        decreases n - i,
    {
        i = i + 1;
    }
    slice_subrange(chars, i, n)
}

/// Whether two runs of characters are equal.
pub(crate) fn same_chars(a: &[char], b: &[char]) -> (r: bool)
    ensures
        r == (a@ == b@),
{
    if a.len() != b.len() {
        return false;
    }
    let n: usize = a.len();
    let mut i: usize = 0;
    while i < n
        invariant
            i <= n,
            n == a@.len(),
            n == b@.len(),
            a@.take(i as int) == b@.take(i as int),
        decreases n - i,
    {
        if a[i] != b[i] {
            return false;
        }
        assert(a@.take(i + 1) == a@.take(i as int).push(a@[i as int]));
        assert(b@.take(i + 1) == b@.take(i as int).push(b@[i as int]));
        i = i + 1;
    }
    assert(a@.take(n as int) == a@);
    assert(b@.take(n as int) == b@);
    true
}

/// Whether two texts are equal.
pub(crate) fn same_text(a: &str, b: &str) -> (r: bool)
    ensures
        r == (a@ == b@),
{
    *a == *b
}

/// Whether `chars` begins with `prefix`.
pub(crate) fn begins_with(chars: &[char], prefix: &str) -> (r: bool)
    ensures
        r == prefix@.is_prefix_of(chars@),
{
    let p = chars_of(prefix);
    if p.len() > chars.len() {
        return false;
    }
    let r = same_chars(slice_subrange(chars, 0, p.len()), p.as_slice());
    r
}

/// Whether `chars` ends with `suffix`.
pub(crate) fn ends_with(chars: &[char], suffix: &str) -> (r: bool)
    ensures
        r == suffix@.is_suffix_of(chars@),
{
    let p = chars_of(suffix);
    if p.len() > chars.len() {
        return false;
    }
    let n: usize = chars.len();
    let r = same_chars(slice_subrange(chars, n - p.len(), n), p.as_slice());
    r
}

/// Whether `part` occurs in `s`.
pub(crate) fn contains_part(s: &str, part: &str) -> (r: bool)
    ensures
        r == has_part(s@, part@),
{
    let v = chars_of(s);
    let p = chars_of(part);
    if p.len() > v.len() {
        return false;
    }
    let last: usize = v.len() - p.len();
    let mut i: usize = 0;
    while i <= last
        invariant
            i <= last + 1,
            last + p.len() == v.len(),
            v@ == s@,
            p@ == part@,
            forall|k: int| 0 <= k < i ==> !occurs_at(s@, part@, k),
        decreases last + 1 - i,
    {
        if same_chars(slice_subrange(v.as_slice(), i, i + p.len()), p.as_slice()) {
            assert(occurs_at(s@, part@, i as int));
            return true;
        }
        if i == last {
            assert forall|k: int| !occurs_at(s@, part@, k) by {}
            return false;
        }
        i = i + 1;
    }
    false
}

/// Whether a list of strings holds a text.
pub(crate) fn holds_text(list: &Vec<String>, s: &String) -> (r: bool)
    ensures
        r == texts(list@).contains(s@),
{
    let n: usize = list.len();
    let mut i: usize = 0;
    while i < n
        invariant
            i <= n,
            n == list@.len(),
            forall|k: int| 0 <= k < i ==> #[trigger] list@[k]@ != s@,
        decreases n - i,
    {
        if list[i] == *s {
            assert(texts(list@)[i as int] == s@);
            return true;
        }
        i = i + 1;
    }
    assert forall|k: int| 0 <= k < texts(list@).len() implies texts(list@)[k] != s@ by {
        assert(texts(list@)[k] == list@[k]@);
    }
    false
}

/// Parts of a run of characters between the occurrences of a separator.
pub(crate) fn split_chars(chars: &[char], sep: char) -> (r: Vec<String>)
    ensures
        texts(r@) == split(chars@, sep),
{
    let mut r: Vec<String> = Vec::new();
    let n: usize = chars.len();
    let mut from: usize = 0;
    assert(chars@.skip(0) == chars@);
    assert(texts(r@) =~= Seq::empty());
    loop
        invariant
            from <= n,
            n == chars@.len(),
            split(chars@, sep) == texts(r@) + split(chars@.skip(from as int), sep),
        decreases n - from,
    {
        let ghost rest = chars@.skip(from as int);
        let rest_chars = slice_subrange(chars, from, n);
        assert(rest_chars@ == rest);
        let i: usize = position_of(rest_chars, sep, 0);
        let part = slice_subrange(rest_chars, 0, i);
        let word = text_of(part);
        let ghost before = texts(r@);
        r.push(word);
        assert(texts(r@) == before.push(rest.take(i as int)));
        if i == rest_chars.len() {
            assert(rest.take(i as int) == rest);
            assert(before + seq![rest] == before.push(rest));
            return r;
        }
        proof {
            assert(rest.skip(i + 1) == chars@.skip(from + i + 1));
            assert(before + (seq![rest.take(i as int)] + split(rest.skip(i + 1), sep))
                == before.push(rest.take(i as int)) + split(rest.skip(i + 1), sep));
        }
        from = from + i + 1;
    }
}

/// Strings in a row with a separator between neighbours.
pub(crate) fn join_texts(parts: &Vec<String>, sep: &str) -> (r: String)
    ensures
        r@ == join(texts(parts@), sep@),
{
    let mut r = String::new();
    let n: usize = parts.len();
    let mut i: usize = 0;
    let ghost t = texts(parts@);
    while i < n
        invariant
            i <= n,
            n == parts@.len(),
            t == texts(parts@),
            r@ == joined(t, sep@, i as int),
        decreases n - i,
    {
        if i > 0 {
            r.append(sep);
        }
        r.append(parts[i].as_str());
        assert(t[i as int] == parts@[i as int]@);
        assert(r@ == joined(t, sep@, i + 1));
        i = i + 1;
    }
    r
}

/// Lines of a text.
pub(crate) fn text_lines(s: &str) -> (r: Vec<String>)
    ensures
        texts(r@) == lines(s@),
{
    let v = chars_of(s);
    let chars = v.as_slice();
    let mut r: Vec<String> = Vec::new();
    let n: usize = chars.len();
    let mut from: usize = 0;
    assert(s@.skip(0) == s@);
    assert(texts(r@) =~= Seq::empty());
    while from < n
        invariant
            from <= n,
            n == chars@.len(),
            chars@ == s@,
            lines(s@) == texts(r@) + lines(s@.skip(from as int)),
        decreases n - from,
    {
        let ghost rest = s@.skip(from as int);
        let ghost before = texts(r@);
        let tail = slice_subrange(chars, from, n);
        assert(tail@ == rest);
        let i: usize = position_of(tail, '\n', 0);
        if i == tail.len() {
            r.push(text_of(tail));
            assert(texts(r@) == before.push(rest));
            assert(before + seq![rest] == before.push(rest));
            return r;
        }
        let mut end: usize = i;
        if i > 0 && tail[i - 1] == '\r' {
            end = i - 1;
        }
        let line = slice_subrange(tail, 0, end);
        assert(line@ == line_body(rest.take(i as int)));
        r.push(text_of(line));
        proof {
            assert(texts(r@) == before.push(line@));
            assert(rest.skip(i + 1) == s@.skip(from + i + 1));
            assert(before + (seq![line@] + lines(rest.skip(i + 1))) == before.push(line@) + lines(
                rest.skip(i + 1),
            ));
        }
        from = from + i + 1;
    }
    assert(s@.skip(n as int).len() == 0);
    r
}

/// Whether a text consists of white space alone.
pub open spec fn all_space(s: Seq<char>) -> bool {
    forall|k: int| 0 <= k < s.len() ==> is_space(#[trigger] s[k])
}

/// Whether a text neither begins nor ends with white space.
pub open spec fn is_trim(s: Seq<char>) -> bool {
    s.len() > 0 ==> !is_space(s[0]) && !is_space(s.last())
}

proof fn lemma_space_end_is(s: Seq<char>, i: int, j: int)
    requires
        0 <= i <= j <= s.len(),
        forall|k: int| i <= k < j ==> is_space(#[trigger] s[k]),
        j < s.len() ==> !is_space(s[j]),
    ensures
        space_end(s, i) == j,
    decreases j - i,
{
    if i < j {
        assert(is_space(s[i]));
        lemma_space_end_is(s, i + 1, j);
    }
}

proof fn lemma_space_start_is(s: Seq<char>, i: int, j: int)
    requires
        0 <= i <= j <= s.len(),
        forall|k: int| i <= k < j ==> is_space(#[trigger] s[k]),
        i > 0 ==> !is_space(s[i - 1]),
    ensures
        space_start(s, j) == i,
    decreases j - i,
{
    if i < j {
        assert(is_space(s[j - 1]));
        lemma_space_start_is(s, i, j - 1);
    }
}

/// Trimming takes away all surrounding white space and nothing else.
pub proof fn law_trimmed(a: Seq<char>, s: Seq<char>, b: Seq<char>)
    requires
        all_space(a),
        all_space(b),
        is_trim(s),
    ensures
        trimmed(a + s + b) == s,
{
    let t = a + s + b;
    if s.len() == 0 {
        assert forall|k: int| 0 <= k < t.len() implies is_space(#[trigger] t[k]) by {
            if k < a.len() {
                assert(t[k] == a[k]);
            } else {
                assert(t[k] == b[k - a.len()]);
            }
        }
        lemma_space_end_is(t, 0, t.len() as int);
        assert(trim_start(t) =~= Seq::empty());
    } else {
        assert forall|k: int| 0 <= k < a.len() implies is_space(#[trigger] t[k]) by {
            assert(t[k] == a[k]);
        }
        assert(t[a.len() as int] == s[0]);
        lemma_space_end_is(t, 0, a.len() as int);
        let u = trim_start(t);
        assert(u =~= s + b);
        assert forall|k: int| s.len() <= k < u.len() implies is_space(#[trigger] u[k]) by {
            assert(u[k] == b[k - s.len()]);
        }
        assert(u[s.len() - 1] == s.last());
        lemma_space_start_is(u, s.len() as int, u.len() as int);
    }
    assert(trimmed(t) =~= s);
}

/// Every text is its trimmed form with white space around it.
pub proof fn law_trimmed_parts(s: Seq<char>)
    ensures
        is_trim(trimmed(s)),
        exists|i: int, j: int|
            0 <= i <= j <= s.len() && trimmed(s) == #[trigger] s.subrange(i, j) && all_space(
                s.take(i),
            ) && all_space(s.skip(j)),
{
    let i = space_end(s, 0);
    lemma_space_end(s, 0);
    let u = trim_start(s);
    let e = space_start(u, u.len() as int);
    lemma_space_start(u, u.len() as int);
    let j = i + e;
    assert(trimmed(s) =~= s.subrange(i, j));
    assert forall|k: int| 0 <= k < s.skip(j).len() implies is_space(#[trigger] s.skip(j)[k]) by {
        assert(s.skip(j)[k] == u[e + k]);
    }
    if e > 0 {
        assert(trimmed(s)[0] == s[i]);
        assert(trimmed(s).last() == u[e - 1]);
    }
}

proof fn lemma_joined_prefix(a: Seq<Seq<char>>, b: Seq<Seq<char>>, sep: Seq<char>, n: int)
    requires
        0 <= n <= a.len(),
        n <= b.len(),
        forall|k: int| 0 <= k < n ==> #[trigger] a[k] == b[k],
    ensures
        joined(a, sep, n) == joined(b, sep, n),
    decreases n,
{
    if n > 0 {
        lemma_joined_prefix(a, b, sep, n - 1);
        assert(a[n - 1] == b[n - 1]);
        assert(a[0] == b[0]);
    }
}

/// Nothing joined is nothing, one part joined is that part.
pub proof fn law_join_few(p: Seq<char>, sep: Seq<char>)
    ensures
        join(Seq::empty(), sep) == Seq::<char>::empty(),
        join(seq![p], sep) == p,
{
}

/// Two lists joined one behind the other stand with one separator between them.
pub proof fn law_join_around(a: Seq<Seq<char>>, b: Seq<Seq<char>>, sep: Seq<char>)
    requires
        a.len() > 0,
        b.len() > 0,
    ensures
        join(a + b, sep) == join(a, sep) + sep + join(b, sep),
    decreases b.len(),
{
    let t = a + b;
    let n = t.len() as int;
    if b.len() == 1 {
        lemma_joined_prefix(t, a, sep, n - 1);
        assert(t[n - 1] == b[0]);
    } else {
        let c = b.drop_last();
        law_join_around(a, c, sep);
        assert(a + c =~= t.drop_last());
        lemma_joined_prefix(t, a + c, sep, n - 1);
        lemma_joined_prefix(b, c, sep, b.len() - 1);
        assert(t[n - 1] == b.last());
        assert(join(t, sep) =~= join(a, sep) + sep + join(b, sep));
    }
}

/// The parts of a text hold no separator, and joined with it they give the text back.
pub proof fn law_split_joins_back(s: Seq<char>, sep: char)
    ensures
        split(s, sep).len() > 0,
        forall|k: int|
            0 <= k < split(s, sep).len() ==> !(#[trigger] split(s, sep)[k]).contains(sep),
        join(split(s, sep), seq![sep]) == s,
    decreases s.len(),
{
    let i = find_char(s, sep, 0);
    lemma_find_char(s, sep, 0);
    if i < s.len() {
        let rest = s.skip(i + 1);
        law_split_joins_back(rest, sep);
        let tail = split(rest, sep);
        let all = split(s, sep);
        assert(all =~= seq![s.take(i)] + tail);
        law_join_around(seq![s.take(i)], tail, seq![sep]);
        law_join_few(s.take(i), seq![sep]);
        assert(join(all, seq![sep]) =~= s);
        assert forall|k: int| 0 <= k < all.len() implies !(#[trigger] all[k]).contains(sep) by {
            if k > 0 {
                assert(all[k] == tail[k - 1]);
            }
        }
    } else {
        law_join_few(s, seq![sep]);
        assert(split(s, sep) =~= seq![s]);
    }
}

proof fn lemma_find_char_is(s: Seq<char>, c: char, i: int, j: int)
    requires
        0 <= i <= j <= s.len(),
        forall|k: int| i <= k < j ==> #[trigger] s[k] != c,
        j < s.len() ==> s[j] == c,
    ensures
        find_char(s, c, i) == j,
    decreases j - i,
{
    if i < j {
        assert(s[i] != c);
        lemma_find_char_is(s, c, i + 1, j);
    }
}

/// A line feed ends a line, with the carriage return before it if there is one; what
/// follows are further lines. The end of the text ends the last line.
pub proof fn law_lines(a: Seq<char>, b: Seq<char>)
    requires
        !a.contains('\n'),
    ensures
        lines(Seq::empty()) == Seq::<Seq<char>>::empty(),
        a.len() > 0 ==> lines(a) == seq![a],
        a.len() == 0 || a.last() != '\r' ==> lines(a + seq!['\n'] + b) == seq![a] + lines(b),
        lines(a + seq!['\r', '\n'] + b) == seq![a] + lines(b),
{
    let n = a.len() as int;
    assert forall|k: int| 0 <= k < a.len() implies #[trigger] a[k] != '\n' by {
        assert(a.contains(a[k]));
    }
    lemma_find_char_is(a, '\n', 0, a.len() as int);
    let s = a + seq!['\n'] + b;
    assert forall|k: int| 0 <= k < a.len() implies #[trigger] s[k] != '\n' by {
        assert(s[k] == a[k]);
    }
    lemma_find_char_is(s, '\n', 0, a.len() as int);
    assert(s.take(a.len() as int) =~= a);
    assert(s.skip(n + 1) =~= b);
    let r = a + seq!['\r'];
    let t = a + seq!['\r', '\n'] + b;
    assert forall|k: int| 0 <= k < a.len() + 1 implies #[trigger] t[k] != '\n' by {
        if k < a.len() {
            assert(t[k] == a[k]);
        } else {
            assert(t[k] == '\r');
        }
    }
    assert(t[n + 1] == '\n');
    lemma_find_char_is(t, '\n', 0, n + 1);
    assert(t.take(n + 1) =~= r);
    assert(r.drop_last() =~= a);
    assert(t.skip(n + 2) =~= b);
}

/// The white space characters, one by one.
pub proof fn law_white_space(c: char)
    ensures
        is_space(c) == seq![
            '\t',
            '\n',
            '\u{b}',
            '\u{c}',
            '\r',
            ' ',
            '\u{85}',
            '\u{a0}',
            '\u{1680}',
            '\u{2000}',
            '\u{2001}',
            '\u{2002}',
            '\u{2003}',
            '\u{2004}',
            '\u{2005}',
            '\u{2006}',
            '\u{2007}',
            '\u{2008}',
            '\u{2009}',
            '\u{200a}',
            '\u{2028}',
            '\u{2029}',
            '\u{202f}',
            '\u{205f}',
            '\u{3000}',
        ].contains(c),
{
    let all = seq![
        '\t',
        '\n',
        '\u{b}',
        '\u{c}',
        '\r',
        ' ',
        '\u{85}',
        '\u{a0}',
        '\u{1680}',
        '\u{2000}',
        '\u{2001}',
        '\u{2002}',
        '\u{2003}',
        '\u{2004}',
        '\u{2005}',
        '\u{2006}',
        '\u{2007}',
        '\u{2008}',
        '\u{2009}',
        '\u{200a}',
        '\u{2028}',
        '\u{2029}',
        '\u{202f}',
        '\u{205f}',
        '\u{3000}',
    ];
    if is_space(c) {
        let n = c as u32 as int;
        let k: int = if n <= 13 {
            n - 9
        } else if n == 32 {
            5
        } else if n == 0x85 {
            6
        } else if n == 0xa0 {
            7
        } else if n == 0x1680 {
            8
        } else if n <= 0x200a {
            n - 0x2000 + 9
        } else if n == 0x2028 {
            20
        } else if n == 0x2029 {
            21
        } else if n == 0x202f {
            22
        } else if n == 0x205f {
            23
        } else {
            24
        };
        assert(all[k] == c);
    }
}

/// A text holds a part exactly when it is that part with something before and behind it.
pub proof fn law_has_part(a: Seq<char>, part: Seq<char>, b: Seq<char>, s: Seq<char>)
    ensures
        has_part(a + part + b, part),
        has_part(s, part) ==> exists|x: Seq<char>, y: Seq<char>| s == #[trigger] (x + part + y),
{
    let t = a + part + b;
    assert(t.subrange(a.len() as int, a.len() as int + part.len()) =~= part);
    assert(occurs_at(t, part, a.len() as int));
    if has_part(s, part) {
        let i = choose|i: int| occurs_at(s, part, i);
        let x = s.take(i);
        let y = s.skip(i + part.len());
        assert(s =~= x + part + y);
    }
}

} // verus!
