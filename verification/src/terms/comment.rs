//! Comments of a module: the description of a procedure and the module header.
//!
//! Both are blocks of `//` lines. A line `@name value` is a meta tag; the values of
//! `@tags` and `@depends` are kept apart from the prose, other meta tags are dropped.

use vstd::prelude::*;
use vstd::slice::slice_subrange;

use super::identifier::{cyrillic, fold_text, folded, is_cyr};
use super::phrases::{
    add_phrase, add_phrases, distinct, is_phrase_list, law_phrase_list, law_one_more_phrase,
    law_phrases_complete, law_phrases_keep_order, with_phrases,
};
use crate::text::{
    all_space, begins_with, chars_of, chars_of_slice, find_char, find_last, is_space, is_trim,
    is_white_space, join, join_texts, law_join_around, law_join_few, law_lines,
    law_trimmed, lemma_find_char, lemma_find_last, lemma_space_start,
    lemma_split_around, lines, same_text, skip_char, split, split_chars, text_lines, text_of, texts,
    trim, trim_end, trim_tail, trim_text, trimmed, without_leading,
};
use crate::unicode::{alphanumeric, lower_text, text_lowered};

verus! {

/// Limit of the prose of a procedure comment, in characters.
pub const PROSE_LIMIT_CHARS: usize = 240;

/// Limit of the prose of a module header, in characters.
pub const HEADER_PROSE_LIMIT_CHARS: usize = 1000;

/// Limit of the first line of a description, in characters.
pub const HEAD_LIMIT_CHARS: usize = 160;

/// Text cut to `limit` characters. A longer text is cut at the end of a word if more
/// than half of the limit is left then.
pub open spec fn cut(s: Seq<char>, limit: int) -> Seq<char> {
    if s.len() <= limit {
        s
    } else {
        let head = s.take(limit);
        let space = find_last(head, ' ', limit);
        if space > limit / 2 {
            trim_end(head.take(space))
        } else {
            trim_end(head)
        }
    }
}

/// First line of a text, empty for an empty text.
pub open spec fn first_line(s: Seq<char>) -> Seq<char> {
    if lines(s).len() > 0 {
        lines(s)[0]
    } else {
        Seq::empty()
    }
}

/// First line of a text without surrounding white space, cut to the head limit.
pub open spec fn head_of(s: Seq<char>) -> Seq<char> {
    cut(trimmed(first_line(s)), HEAD_LIMIT_CHARS as int)
}

/// A cut text fits the limit and is the beginning of the whole text.
pub proof fn law_cut_fits(s: Seq<char>, limit: int)
    requires
        limit >= 0,
    ensures
        cut(s, limit).len() <= limit,
        cut(s, limit).is_prefix_of(s),
        s.len() <= limit ==> cut(s, limit) == s,
{
    if s.len() > limit {
        let head = s.take(limit);
        lemma_find_last(head, ' ', limit);
        let space = find_last(head, ' ', limit);
        let rest = if space > limit / 2 {
            head.take(space)
        } else {
            head
        };
        lemma_space_start(rest, rest.len() as int);
        assert(rest.is_prefix_of(s));
        assert(trim_end(rest).is_prefix_of(s));
    }
}

/// Cut a text to `limit` characters, at the end of a word where that leaves more than
/// half of the limit.
pub fn cut_chars(s: &str, limit: usize) -> (r: String)
    ensures
        r@ == cut(s@, limit as int),
{
    let v = chars_of(s);
    let chars = v.as_slice();
    if chars.len() <= limit {
        return text_of(chars);
    }
    let head = slice_subrange(chars, 0, limit);
    let mut j: usize = limit;
    while j > 0 && head[j - 1] != ' '
        invariant
            j <= limit,
            limit == head@.len(),
            find_last(head@, ' ', limit as int) == find_last(head@, ' ', j as int),
        decreases j,
    {
        j = j - 1;
    }
    // The last blank stands at `j - 1`.
    if j > 0 && j - 1 > limit / 2 {
        text_of(trim_tail(slice_subrange(head, 0, j - 1)))
    } else {
        text_of(trim_tail(head))
    }
}

/// First line of a text, cut to the head limit.
pub fn head_line(text: &str) -> (r: String)
    ensures
        r@ == head_of(text@),
{
    let v = text_lines(text);
    if v.len() == 0 {
        assert(texts(v@).len() == 0);
        let r = cut_chars("", HEAD_LIMIT_CHARS);
        proof {
            reveal_strlit("");
            assert(""@ =~= trimmed(first_line(text@)));
        }
        return r;
    }
    assert(texts(v@)[0] == v@[0]@);
    let line = chars_of(v[0].as_str());
    let trimmed_text = text_of(trim(line.as_slice()));
    cut_chars(trimmed_text.as_str(), HEAD_LIMIT_CHARS)
}



/// First position at or after `i` that cannot stand in the name of a meta tag.
pub open spec fn tag_name_end(s: Seq<char>, i: int) -> int
    decreases s.len() - i,
{
    if 0 <= i < s.len() && (alphanumeric(s[i]) || s[i] == '_') {
        tag_name_end(s, i + 1)
    } else {
        i
    }
}

/// Name and value of a meta tag line, given where the name ends: `@`, a name, white
/// space, a value.
pub open spec fn tag_parts(body: Seq<char>, name_end: int) -> Option<(Seq<char>, Seq<char>)> {
    if 0 < body.len() && body[0] == '@' && 1 < name_end < body.len() && is_space(body[name_end])
        && trimmed(body.skip(name_end)).len() > 0 {
        Some((body.subrange(1, name_end), trimmed(body.skip(name_end))))
    } else {
        None
    }
}

/// Name in lower case and value of a meta tag line, nothing for a line of prose.
pub open spec fn meta_tag(body: Seq<char>) -> Option<(Seq<char>, Seq<char>)> {
    match tag_parts(body, tag_name_end(body, 1)) {
        Some((name, value)) => Some((text_lowered(name), value)),
        None => None,
    }
}

/// Normalised form of one value of a meta tag.
pub open spec fn tag_value(s: Seq<char>) -> Seq<char> {
    trimmed(folded(trimmed(s)))
}

/// Values of a meta tag between separators: normalised, without blanks and
/// repetitions.
pub open spec fn value_list(value: Seq<char>, sep: char) -> Seq<Seq<char>> {
    distinct(split(value, sep).map_values(|p: Seq<char>| tag_value(p)))
}

/// Model of a [`BodyLine`].
pub enum BodyModel {
    Prose(Seq<char>),
    Tags(Seq<Seq<char>>),
    Depends(Seq<Seq<char>>),
    Ignored,
}

/// What a line of a comment means.
pub open spec fn body_line(body: Seq<char>) -> BodyModel {
    match meta_tag(body) {
        Some((name, value)) => if name == "tags"@ {
            BodyModel::Tags(value_list(value, ','))
        } else if name == "depends"@ {
            BodyModel::Depends(value_list(value, ';'))
        } else {
            BodyModel::Ignored
        },
        None => BodyModel::Prose(body),
    }
}

/// Model of a [`MetaBlock`].
#[verifier::ext_equal]
pub struct MetaModel {
    pub lines: Seq<Seq<char>>,
    pub tags: Seq<Seq<char>>,
    pub depends: Seq<Seq<char>>,
    pub len_chars: nat,
}

impl MetaModel {
    /// Block without lines.
    pub open spec fn empty() -> MetaModel {
        MetaModel {
            lines: Seq::empty(),
            tags: Seq::empty(),
            depends: Seq::empty(),
            len_chars: 0,
        }
    }

    /// Block with the content of one more line.
    pub open spec fn with_line(self, line: BodyModel) -> MetaModel {
        match line {
            BodyModel::Prose(s) => MetaModel { lines: self.lines.push(s), ..self },
            BodyModel::Tags(v) => MetaModel {
                tags: with_phrases(self.tags, v, v.len() as int),
                ..self
            },
            BodyModel::Depends(v) => MetaModel {
                depends: with_phrases(self.depends, v, v.len() as int),
                ..self
            },
            BodyModel::Ignored => self,
        }
    }

    /// Block with `n` more characters, and a blank before them unless they are the
    /// first ones.
    pub open spec fn longer(self, n: nat) -> MetaModel {
        MetaModel {
            len_chars: if self.len_chars > 0 {
                self.len_chars + 1 + n
            } else {
                n
            },
            ..self
        }
    }

    /// Block with one more line of a comment.
    pub open spec fn pushed(self, body: Seq<char>) -> MetaModel {
        self.longer(body.len()).with_line(body_line(body))
    }
}

/// Block of the first `n` lines of a comment.
pub open spec fn block(bodies: Seq<Seq<char>>, n: int) -> MetaModel
    decreases n,
{
    if n <= 0 {
        MetaModel::empty()
    } else {
        block(bodies, n - 1).pushed(bodies[n - 1])
    }
}

/// Block of all lines of a comment.
pub open spec fn block_of(bodies: Seq<Seq<char>>) -> MetaModel {
    block(bodies, bodies.len() as int)
}

/// Length of the first `n` lines of a comment with a blank between neighbours.
pub open spec fn total_length(bodies: Seq<Seq<char>>, n: int) -> nat
    decreases n,
{
    if n <= 0 {
        0
    } else if total_length(bodies, n - 1) > 0 {
        total_length(bodies, n - 1) + 1 + bodies[n - 1].len()
    } else {
        bodies[n - 1].len()
    }
}

/// Whether the length of a comment can be counted.
pub open spec fn comment_fits(bodies: Seq<Seq<char>>) -> bool {
    total_length(bodies, bodies.len() as int) <= usize::MAX
}

/// Whether a line is made of `=`, `-`, `*` and `/` alone.
pub open spec fn decorative(s: Seq<char>) -> bool {
    forall|k: int| 0 <= k < s.len() ==> #[trigger] s[k] == '=' || s[k] == '-' || s[k] == '*' || s[k]
        == '/'
}

/// Whether a trimmed line is a comment.
pub open spec fn is_comment(t: Seq<char>) -> bool {
    t.len() >= 2 && t[0] == '/' && t[1] == '/'
}

/// Whether a trimmed line is a compilation annotation.
pub open spec fn is_annotation(t: Seq<char>) -> bool {
    t.len() >= 1 && t[0] == '&'
}

/// Text of a comment line without the slashes and surrounding white space.
pub open spec fn comment_text(t: Seq<char>) -> Seq<char> {
    trimmed(t.skip(skip_char(t, '/', 0)))
}

/// Content of a trimmed line: the text of a comment line that is neither empty nor
/// decorative.
pub open spec fn content(t: Seq<char>) -> Option<Seq<char>> {
    if is_comment(t) && comment_text(t).len() > 0 && !decorative(comment_text(t)) {
        Some(comment_text(t))
    } else {
        None
    }
}

/// Contents of the trimmed lines `from` to `to`.
pub open spec fn contents(t: Seq<Seq<char>>, from: int, to: int) -> Seq<Seq<char>>
    decreases to - from,
{
    if from >= to {
        Seq::empty()
    } else {
        match content(t[to - 1]) {
            Some(body) => contents(t, from, to - 1).push(body),
            None => contents(t, from, to - 1),
        }
    }
}

/// First line of the block of comments and annotations that ends before line `i`.
pub open spec fn block_top(t: Seq<Seq<char>>, i: int) -> int
    decreases i,
{
    if 0 < i <= t.len() && (is_comment(t[i - 1]) || is_annotation(t[i - 1])) {
        block_top(t, i - 1)
    } else {
        i
    }
}

/// Contents of the comment right above line `line_start`, counted from 1.
pub open spec fn leading_bodies(v: Seq<Seq<char>>, line_start: int) -> Seq<Seq<char>> {
    if line_start < 2 || line_start - 1 > v.len() {
        Seq::empty()
    } else {
        contents(clean_lines(v), block_top(clean_lines(v), line_start - 1), line_start - 1)
    }
}

/// First line of a list, or nothing.
pub open spec fn first_of(v: Seq<Seq<char>>) -> Seq<char> {
    if v.len() > 0 {
        v[0]
    } else {
        Seq::empty()
    }
}

/// Model of a [`LeadingComment`].
#[verifier::ext_equal]
pub struct CommentModel {
    pub prose: Seq<char>,
    pub head: Seq<char>,
    pub tags: Seq<Seq<char>>,
    pub depends: Seq<Seq<char>>,
    pub len_chars: nat,
}

/// Comment that consists of the given lines.
pub open spec fn comment_of(bodies: Seq<Seq<char>>) -> Option<CommentModel> {
    if bodies.len() == 0 {
        None
    } else {
        let b = block_of(bodies);
        Some(
            CommentModel {
                prose: cut(join(b.lines, " "@), PROSE_LIMIT_CHARS as int),
                head: cut(first_of(b.lines), HEAD_LIMIT_CHARS as int),
                tags: b.tags,
                depends: b.depends,
                len_chars: b.len_chars,
            },
        )
    }
}

/// Comment right above line `line_start`, counted from 1.
pub open spec fn leading_comment(v: Seq<Seq<char>>, line_start: int) -> Option<CommentModel> {
    comment_of(leading_bodies(v, line_start))
}

/// Line `i` without the byte order marks before the first line and without
/// surrounding white space.
pub open spec fn clean_line(v: Seq<Seq<char>>, i: int) -> Seq<char> {
    if i == 0 {
        trimmed(v[0].skip(skip_char(v[0], '\u{feff}', 0)))
    } else {
        trimmed(v[i])
    }
}

/// All lines in the form of [`clean_line`].
pub open spec fn clean_lines(v: Seq<Seq<char>>) -> Seq<Seq<char>> {
    Seq::new(v.len(), |i: int| clean_line(v, i))
}

/// First line at or after `i` that is not empty, or the number of lines.
pub open spec fn blank_end(t: Seq<Seq<char>>, i: int) -> int
    decreases t.len() - i,
{
    if 0 <= i < t.len() && t[i].len() == 0 {
        blank_end(t, i + 1)
    } else {
        i
    }
}

/// First line at or after `i` that is no comment, or the number of lines.
pub open spec fn comment_end(t: Seq<Seq<char>>, i: int) -> int
    decreases t.len() - i,
{
    if 0 <= i < t.len() && is_comment(t[i]) {
        comment_end(t, i + 1)
    } else {
        i
    }
}

/// Contents of the comment that a module begins with.
pub open spec fn header_bodies(v: Seq<Seq<char>>) -> Seq<Seq<char>> {
    let t = clean_lines(v);
    contents(t, blank_end(t, 0), comment_end(t, blank_end(t, 0)))
}

/// The line right after the comment that a module begins with.
pub open spec fn line_after_header(v: Seq<Seq<char>>) -> Option<Seq<char>> {
    let t = clean_lines(v);
    let end = comment_end(t, blank_end(t, 0));
    if end < t.len() {
        Some(t[end])
    } else {
        None
    }
}

/// Whether a character can stand in a name.
pub open spec fn name_char(c: char) -> bool {
    'a' <= c <= 'z' || 'A' <= c <= 'Z' || '0' <= c <= '9' || c == '_' || cyrillic(c)
}

/// Whether a text begins with a word: no further character of a name follows.
pub open spec fn starts_with_word(s: Seq<char>, word: Seq<char>) -> bool {
    word.is_prefix_of(s) && (s.len() > word.len() ==> !name_char(s[word.len() as int]))
}

/// Whether a folded line is a preprocessor line with this word; white space may stand
/// behind the `#`.
pub open spec fn is_directive(s: Seq<char>, word: Seq<char>) -> bool {
    s.len() > 0 && s[0] == '#' && starts_with_word(trimmed(s.skip(1)), word)
}

/// Whether a folded line is a declaration with this keyword: the keyword alone or the
/// keyword and white space.
pub open spec fn is_declaration(s: Seq<char>, keyword: Seq<char>) -> bool {
    keyword.is_prefix_of(s) && (s.len() > keyword.len() ==> is_space(s[keyword.len() as int]))
}

/// Whether a folded line belongs to the module rather than to a procedure: the start of
/// a region or of a condition, or a variable declaration.
pub open spec fn module_level(s: Seq<char>) -> bool {
    ||| is_directive(s, "область"@)
    ||| is_directive(s, "region"@)
    ||| is_directive(s, "если"@)
    ||| is_directive(s, "if"@)
    ||| is_declaration(s, "перем"@)
    ||| is_declaration(s, "var"@)
}

/// Whether a comment followed by `after` is a module header.
pub open spec fn closes_header(after: Option<Seq<char>>) -> bool {
    match after {
        Some(t) => t.len() == 0 || module_level(folded(t)),
        None => true,
    }
}

/// Model of a [`ModuleHeader`].
#[verifier::ext_equal]
pub struct HeaderModel {
    pub prose: Seq<char>,
    pub tags: Seq<Seq<char>>,
    pub depends: Seq<Seq<char>>,
}

/// Header that consists of the given lines.
pub open spec fn header_of(bodies: Seq<Seq<char>>) -> HeaderModel {
    let b = block_of(bodies);
    HeaderModel {
        prose: cut(join(b.lines, "\n"@), HEADER_PROSE_LIMIT_CHARS as int),
        tags: b.tags,
        depends: b.depends,
    }
}

/// Header of a module.
pub open spec fn module_header(v: Seq<Seq<char>>) -> Option<HeaderModel> {
    if header_bodies(v).len() > 0 && closes_header(line_after_header(v)) {
        Some(header_of(header_bodies(v)))
    } else {
        None
    }
}

/// Name and value of a meta tag line, given where the name ends.
pub fn split_tag(body: &str, name_end: usize) -> (r: Option<(String, String)>)
    ensures
        match r {
            Some((name, value)) => tag_parts(body@, name_end as int) == Some((name@, value@)),
            None => tag_parts(body@, name_end as int) is None,
        },
{
    let v = chars_of(body);
    let chars = v.as_slice();
    let n: usize = chars.len();
    if n == 0 || chars[0] != '@' || name_end <= 1 || name_end >= n || !is_white_space(
        chars[name_end],
    ) {
        return None;
    }
    let tail = slice_subrange(chars, name_end, n);
    assert(tail@ == body@.skip(name_end as int));
    let value = trim(tail);
    if value.len() == 0 {
        return None;
    }
    Some((text_of(slice_subrange(chars, 1, name_end)), text_of(value)))
}

/// Read a comment line as a meta tag `@name value`; `None` for a line of prose.
pub fn parse_meta_tag(body: &str) -> (r: Option<(String, String)>)
    ensures
        match r {
            Some((name, value)) => meta_tag(body@) == Some((name@, value@)),
            None => meta_tag(body@) is None,
        },
{
    let v = chars_of(body);
    let n: usize = v.len();
    if n == 0 {
        return None;
    }
    let mut i: usize = 1;
    while i < n && (v[i].is_alphanumeric() || v[i] == '_')
        invariant
            1 <= i <= n,
            n == v@.len(),
            v@ == body@,
            tag_name_end(body@, 1) == tag_name_end(body@, i as int),
        decreases n - i,
    {
        i = i + 1;
    }
    match split_tag(body, i) {
        Some((name, value)) => Some((lower_text(name.as_str()), value)),
        None => None,
    }
}

/// Values of a meta tag between separators: normalised, without blanks and
/// repetitions.
pub fn split_values(value: &str, sep: char) -> (r: Vec<String>)
    ensures
        texts(r@) == value_list(value@, sep),
{
    let v = chars_of(value);
    let parts = split_chars(v.as_slice(), sep);
    let ghost t = texts(parts@);
    let ghost values = split(value@, sep).map_values(|p: Seq<char>| tag_value(p));
    let mut r: Vec<String> = Vec::new();
    let n: usize = parts.len();
    let mut i: usize = 0;
    assert(texts(r@) =~= Seq::empty());
    while i < n
        invariant
            i <= n,
            n == parts@.len(),
            t == texts(parts@),
            t == split(value@, sep),
            values == t.map_values(|p: Seq<char>| tag_value(p)),
            texts(r@) == with_phrases(Seq::empty(), values, i as int),
        decreases n - i,
    {
        assert(t[i as int] == parts@[i as int]@);
        let part = trim_text(parts[i].as_str());
        let low = fold_text(part.as_str());
        let p = trim_text(low.as_str());
        assert(values[i as int] == p@);
        add_phrase(&mut r, p);
        i = i + 1;
    }
    r
}

/// What a line of a comment means.
pub enum BodyLine {
    /// A line of the description.
    Prose(String),
    /// Values of `@tags`.
    Tags(Vec<String>),
    /// Values of `@depends`.
    Depends(Vec<String>),
    /// Any other meta tag.
    Ignored,
}

impl View for BodyLine {
    type V = BodyModel;

    open spec fn view(&self) -> BodyModel {
        match self {
            BodyLine::Prose(s) => BodyModel::Prose(s@),
            BodyLine::Tags(v) => BodyModel::Tags(texts(v@)),
            BodyLine::Depends(v) => BodyModel::Depends(texts(v@)),
            BodyLine::Ignored => BodyModel::Ignored,
        }
    }
}

/// Read one line of a comment.
pub fn read_body(body: &str) -> (r: BodyLine)
    ensures
        r@ == body_line(body@),
{
    match parse_meta_tag(body) {
        Some((name, value)) => {
            if same_text(name.as_str(), "tags") {
                BodyLine::Tags(split_values(value.as_str(), ','))
            } else if same_text(name.as_str(), "depends") {
                BodyLine::Depends(split_values(value.as_str(), ';'))
            } else {
                BodyLine::Ignored
            }
        },
        None => BodyLine::Prose(body.to_string()),
    }
}

/// Block of `//` lines: prose apart from the values of `@tags` and `@depends`.
pub struct MetaBlock {
    pub lines: Vec<String>,
    pub tags: Vec<String>,
    pub depends: Vec<String>,
    /// Length of all lines, meta tags included, with a blank between neighbours.
    pub len_chars: usize,
}

impl View for MetaBlock {
    type V = MetaModel;

    open spec fn view(&self) -> MetaModel {
        MetaModel {
            lines: texts(self.lines@),
            tags: texts(self.tags@),
            depends: texts(self.depends@),
            len_chars: self.len_chars as nat,
        }
    }
}

impl MetaBlock {
    /// Block without lines.
    pub fn new() -> (r: MetaBlock)
        ensures
            r@ == MetaModel::empty(),
    {
        let r = MetaBlock {
            lines: Vec::new(),
            tags: Vec::new(),
            depends: Vec::new(),
            len_chars: 0,
        };
        assert(r@ =~= MetaModel::empty());
        r
    }

    /// Add the content of a line without counting its length.
    pub fn note(&mut self, line: BodyLine)
        ensures
            final(self)@ == old(self)@.with_line(line@),
    {
        let ghost before = self@;
        match line {
            BodyLine::Prose(s) => {
                let ghost text = s@;
                self.lines.push(s);
                assert(texts(self.lines@) == before.lines.push(text));
            },
            BodyLine::Tags(v) => {
                add_phrases(&mut self.tags, &v);
            },
            BodyLine::Depends(v) => {
                add_phrases(&mut self.depends, &v);
            },
            BodyLine::Ignored => {},
        }
    }

    /// Add a line of a comment, already without slashes and surrounding white space.
    pub fn push(&mut self, body: &str)
        requires
            old(self)@.longer(body@.len()).len_chars <= usize::MAX,
        ensures
            final(self)@ == old(self)@.pushed(body@),
    {
        let chars = chars_of(body);
        if self.len_chars > 0 {
            self.len_chars = self.len_chars + 1;
        }
        self.len_chars = self.len_chars + chars.len();
        self.note(read_body(body));
    }

    /// Whether the block holds no characters.
    pub fn is_empty(&self) -> (r: bool)
        ensures
            r == (self@.len_chars == 0),
    {
        self.len_chars == 0
    }
}

/// Description above a procedure: prose and meta tags apart.
#[derive(Debug, Clone, PartialEq, Eq)]
pub struct LeadingComment {
    /// Lines of the description without meta tags, with a blank between neighbours,
    /// cut to [`PROSE_LIMIT_CHARS`].
    pub prose: String,
    /// First line of the description, cut to [`HEAD_LIMIT_CHARS`].
    pub head: String,
    /// Values of `@tags` in their normalised form and their order.
    pub tags: Vec<String>,
    /// Values of `@depends` in their normalised form and their order.
    pub depends: Vec<String>,
    /// Length of the whole comment, meta tags included, before cutting.
    pub len_chars: usize,
}

impl View for LeadingComment {
    type V = CommentModel;

    open spec fn view(&self) -> CommentModel {
        CommentModel {
            prose: self.prose@,
            head: self.head@,
            tags: texts(self.tags@),
            depends: texts(self.depends@),
            len_chars: self.len_chars as nat,
        }
    }
}

impl LeadingComment {
    /// Tags in one line with commas between them.
    pub fn tags_line(&self) -> (r: String)
        ensures
            r@ == join(self@.tags, ", "@),
    {
        join_texts(&self.tags, ", ")
    }
}

impl Default for LeadingComment {
    fn default() -> (r: Self)
        ensures
            r@ == (CommentModel {
                prose: Seq::empty(),
                head: Seq::empty(),
                tags: Seq::empty(),
                depends: Seq::empty(),
                len_chars: 0,
            }),
    {
        let r = LeadingComment {
            prose: String::new(),
            head: String::new(),
            tags: Vec::new(),
            depends: Vec::new(),
            len_chars: 0,
        };
        assert(r@.tags =~= Seq::empty());
        assert(r@.depends =~= Seq::empty());
        r
    }
}

/// Comment that a module begins with, before the first declaration.
#[derive(Debug, Clone, PartialEq, Eq)]
pub struct ModuleHeader {
    /// Lines of prose, cut to [`HEADER_PROSE_LIMIT_CHARS`].
    pub prose: String,
    /// Values of `@tags`.
    pub tags: Vec<String>,
    /// Values of `@depends`.
    pub depends: Vec<String>,
}

impl View for ModuleHeader {
    type V = HeaderModel;

    open spec fn view(&self) -> HeaderModel {
        HeaderModel { prose: self.prose@, tags: texts(self.tags@), depends: texts(self.depends@) }
    }
}

impl ModuleHeader {
    /// First line of the prose, cut to [`HEAD_LIMIT_CHARS`].
    pub fn head(&self) -> (r: String)
        ensures
            r@ == head_of(self@.prose),
    {
        head_line(self.prose.as_str())
    }

    /// Tags in one line with commas between them.
    pub fn tags_line(&self) -> (r: String)
        ensures
            r@ == join(self@.tags, ", "@),
    {
        join_texts(&self.tags, ", ")
    }

    /// Dependencies in one line with semicolons between them.
    pub fn depends_line(&self) -> (r: String)
        ensures
            r@ == join(self@.depends, "; "@),
    {
        join_texts(&self.depends, "; ")
    }
}

impl Default for ModuleHeader {
    fn default() -> (r: Self)
        ensures
            r@ == (HeaderModel {
                prose: Seq::empty(),
                tags: Seq::empty(),
                depends: Seq::empty(),
            }),
    {
        let r = ModuleHeader { prose: String::new(), tags: Vec::new(), depends: Vec::new() };
        assert(r@.tags =~= Seq::empty());
        assert(r@.depends =~= Seq::empty());
        r
    }
}

/// A line of text, owned or borrowed.
pub trait LineText {
    /// Characters of the line.
    spec fn text(&self) -> Seq<char>;

    /// The line as a string slice.
    fn as_text(&self) -> (r: &str)
        ensures
            r@ == self.text(),
    ;
}

impl LineText for String {
    open spec fn text(&self) -> Seq<char> {
        self@
    }

    fn as_text(&self) -> (r: &str) {
        self.as_str()
    }
}

impl<'a> LineText for &'a str {
    open spec fn text(&self) -> Seq<char> {
        self@
    }

    fn as_text(&self) -> (r: &str) {
        *self
    }
}

/// Texts of a sequence of lines.
pub open spec fn line_texts<S: LineText>(v: Seq<S>) -> Seq<Seq<char>> {
    v.map_values(|s: S| s.text())
}

/// Whether a line is made of `=`, `-`, `*` and `/` alone.
fn is_decorative(chars: &[char]) -> (r: bool)
    ensures
        r == decorative(chars@),
{
    let n: usize = chars.len();
    let mut i: usize = 0;
    while i < n
        invariant
            i <= n,
            n == chars@.len(),
            forall|k: int|
                0 <= k < i ==> #[trigger] chars@[k] == '=' || chars@[k] == '-' || chars@[k] == '*'
                    || chars@[k] == '/',
        decreases n - i,
    {
        let c = chars[i];
        if c != '=' && c != '-' && c != '*' && c != '/' {
            assert(chars@[i as int] == c);
            return false;
        }
        i = i + 1;
    }
    true
}

/// Whether a trimmed line is a comment.
fn is_comment_line(t: &[char]) -> (r: bool)
    ensures
        r == is_comment(t@),
{
    t.len() >= 2 && t[0] == '/' && t[1] == '/'
}

/// Content of a trimmed line.
fn line_content(t: &[char]) -> (r: Option<String>)
    ensures
        match r {
            Some(s) => content(t@) == Some(s@),
            None => content(t@) is None,
        },
{
    if !is_comment_line(t) {
        return None;
    }
    let body = trim(without_leading(t, '/'));
    if body.len() == 0 || is_decorative(body) {
        None
    } else {
        Some(text_of(body))
    }
}

/// Contents of the comment right above line `line_start`, counted from 1: comment
/// lines from there upwards, annotations skipped, up to the first other line.
pub fn comment_bodies<S: LineText>(v: &[S], line_start: usize) -> (r: Vec<String>)
    ensures
        texts(r@) == leading_bodies(line_texts(v@), line_start as int),
{
    let ghost t = clean_lines(line_texts(v@));
    let mut r: Vec<String> = Vec::new();
    assert(texts(r@) =~= Seq::empty());
    if line_start < 2 || line_start - 1 > v.len() {
        return r;
    }
    let end: usize = line_start - 1;
    let mut top: usize = end;
    let mut inside: bool = true;
    while inside
        invariant
            end <= v@.len(),
            top <= end,
            t == clean_lines(line_texts(v@)),
            inside ==> block_top(t, end as int) == block_top(t, top as int),
            !inside ==> block_top(t, end as int) == top,
        decreases top + if inside { 1int } else { 0int },
    {
        if top == 0 {
            inside = false;
        } else {
            let chars = clean_chars(v, top - 1);
            let line = chars.as_slice();
            assert(line@ == t[top - 1]);
            if is_comment_line(line) || (line.len() > 0 && line[0] == '&') {
                top = top - 1;
            } else {
                inside = false;
            }
        }
    }
    let mut i: usize = top;
    while i < end
        invariant
            top <= i <= end,
            end <= v@.len(),
            t == clean_lines(line_texts(v@)),
            texts(r@) == contents(t, top as int, i as int),
        decreases end - i,
    {
        let chars = clean_chars(v, i);
        assert(chars@ == t[i as int]);
        push_content(&mut r, chars.as_slice());
        i = i + 1;
    }
    r
}

/// Append the content of a trimmed line, if it has one.
fn push_content(out: &mut Vec<String>, line: &[char])
    ensures
        texts(final(out)@) == match content(line@) {
            Some(body) => texts(old(out)@).push(body),
            None => texts(old(out)@),
        },
{
    let ghost before = texts(out@);
    match line_content(line) {
        Some(body) => {
            let ghost text = body@;
            out.push(body);
            assert(texts(out@) == before.push(text));
        },
        None => {},
    }
}

/// Comment right above a procedure that starts at line `line_start`, counted from 1.
///
/// Meta tags are kept apart from the prose, so that they count however long the
/// prose before them is.
pub fn extract_leading_comment<S: LineText>(v: &[S], line_start: usize) -> (r: Option<
    LeadingComment,
>)
    requires
        comment_fits(leading_bodies(line_texts(v@), line_start as int)),
    ensures
        match r {
            Some(c) => leading_comment(line_texts(v@), line_start as int) == Some(c@),
            None => leading_comment(line_texts(v@), line_start as int) is None,
        },
{
    let bodies = comment_bodies(v, line_start);
    describe(&bodies)
}

/// Comment that consists of the given lines.
pub fn describe(bodies: &Vec<String>) -> (r: Option<LeadingComment>)
    requires
        comment_fits(texts(bodies@)),
    ensures
        match r {
            Some(c) => comment_of(texts(bodies@)) == Some(c@),
            None => comment_of(texts(bodies@)) is None,
        },
{
    let n: usize = bodies.len();
    if n == 0 {
        return None;
    }
    let ghost t = texts(bodies@);
    let mut b = MetaBlock::new();
    let mut i: usize = 0;
    while i < n
        invariant
            i <= n,
            n == bodies@.len(),
            t == texts(bodies@),
            comment_fits(t),
            b@ == block(t, i as int),
        decreases n - i,
    {
        assert(t[i as int] == bodies@[i as int]@);
        proof {
            lemma_length_grows(t, i + 1, n as int);
            lemma_block_length(t, i as int);
        }
        b.push(bodies[i].as_str());
        i = i + 1;
    }
    let prose = join_texts(&b.lines, " ");
    let head = if b.lines.len() > 0 {
        assert(texts(b.lines@)[0] == b.lines@[0]@);
        cut_chars(b.lines[0].as_str(), HEAD_LIMIT_CHARS)
    } else {
        proof {
            reveal_strlit("");
            assert(""@ =~= first_of(b@.lines));
        }
        cut_chars("", HEAD_LIMIT_CHARS)
    };
    Some(
        LeadingComment {
            prose: cut_chars(prose.as_str(), PROSE_LIMIT_CHARS),
            head,
            tags: b.tags,
            depends: b.depends,
            len_chars: b.len_chars,
        },
    )
}

proof fn lemma_length_grows(bodies: Seq<Seq<char>>, k: int, n: int)
    requires
        0 <= k <= n,
    ensures
        total_length(bodies, k) <= total_length(bodies, n),
    decreases n - k,
{
    if k < n {
        lemma_length_grows(bodies, k, n - 1);
    }
}

proof fn lemma_block_length(bodies: Seq<Seq<char>>, n: int)
    ensures
        block(bodies, n).len_chars == total_length(bodies, n),
    decreases n,
{
    if n > 0 {
        lemma_block_length(bodies, n - 1);
    }
}

/// Line `idx` without the byte order marks before the first line and without
/// surrounding white space.
pub fn trimmed_line<S: LineText>(v: &[S], idx: usize) -> (r: Option<String>)
    ensures
        match r {
            Some(s) => idx < v@.len() && s@ == clean_line(line_texts(v@), idx as int),
            None => idx >= v@.len(),
        },
{
    if idx >= v.len() {
        return None;
    }
    Some(text_of(clean_chars(v, idx).as_slice()))
}

/// Characters of line `idx` without the byte order marks before the first line and
/// without surrounding white space.
fn clean_chars<S: LineText>(v: &[S], idx: usize) -> (r: Vec<char>)
    requires
        idx < v@.len(),
    ensures
        r@ == clean_line(line_texts(v@), idx as int),
{
    let chars = chars_of(v[idx].as_text());
    assert(chars@ == line_texts(v@)[idx as int]);
    if idx == 0 {
        chars_of_slice(trim(without_leading(chars.as_slice(), '\u{feff}')))
    } else {
        chars_of_slice(trim(chars.as_slice()))
    }
}

/// Whether a character can stand in a name.
fn is_name_char(c: char) -> (r: bool)
    ensures
        r == name_char(c),
{
    ('a' <= c && c <= 'z') || ('A' <= c && c <= 'Z') || ('0' <= c && c <= '9') || c == '_'
        || is_cyr(c)
}

/// Whether a folded line is a preprocessor line with this word.
fn has_directive(chars: &[char], word: &str) -> (r: bool)
    ensures
        r == is_directive(chars@, word@),
{
    if chars.len() == 0 || chars[0] != '#' {
        return false;
    }
    let tail = slice_subrange(chars, 1, chars.len());
    assert(tail@ == chars@.skip(1));
    let rest = trim(tail);
    let n: usize = chars_of(word).len();
    begins_with(rest, word) && (rest.len() <= n || !is_name_char(rest[n]))
}

/// Whether a folded line is a declaration with this keyword.
fn has_declaration(chars: &[char], keyword: &str) -> (r: bool)
    ensures
        r == is_declaration(chars@, keyword@),
{
    let n: usize = chars_of(keyword).len();
    begins_with(chars, keyword) && (chars.len() <= n || is_white_space(chars[n]))
}

/// Whether a folded line belongs to the module rather than to a procedure: the start of
/// a region or of a condition, or a variable declaration.
pub fn is_module_level(low: &str) -> (r: bool)
    ensures
        r == module_level(low@),
{
    let v = chars_of(low);
    let chars = v.as_slice();
    has_directive(chars, "область") || has_directive(chars, "region") || has_directive(
        chars,
        "если",
    ) || has_directive(chars, "if") || has_declaration(chars, "перем") || has_declaration(
        chars,
        "var",
    )
}

/// Contents of the comment that a module begins with, and the number of the line
/// right after it.
pub fn header_comment<S: LineText>(v: &[S]) -> (r: (Vec<String>, usize))
    ensures
        texts(r.0@) == header_bodies(line_texts(v@)),
        r.1 == comment_end(clean_lines(line_texts(v@)), blank_end(clean_lines(line_texts(v@)), 0)),
        r.1 <= v@.len(),
{
    let ghost t = clean_lines(line_texts(v@));
    let n: usize = v.len();
    let mut out: Vec<String> = Vec::new();
    assert(texts(out@) =~= Seq::empty());
    let mut i: usize = 0;
    let mut skipping: bool = true;
    while skipping
        invariant
            i <= n,
            n == v@.len(),
            t == clean_lines(line_texts(v@)),
            skipping ==> blank_end(t, 0) == blank_end(t, i as int),
            !skipping ==> blank_end(t, 0) == i,
        decreases n - i + if skipping { 1int } else { 0int },
    {
        match trimmed_line(v, i) {
            Some(line) => {
                assert(line@ == t[i as int]);
                if line.is_empty() {
                    i = i + 1;
                } else {
                    skipping = false;
                }
            },
            None => {
                skipping = false;
            },
        }
    }
    let ghost start = i as int;
    let mut inside: bool = true;
    while inside
        invariant
            start <= i <= n,
            n == v@.len(),
            t == clean_lines(line_texts(v@)),
            texts(out@) == contents(t, start, i as int),
            inside ==> comment_end(t, start) == comment_end(t, i as int),
            !inside ==> comment_end(t, start) == i,
        decreases n - i + if inside { 1int } else { 0int },
    {
        match trimmed_line(v, i) {
            Some(line) => {
                assert(line@ == t[i as int]);
                let chars = chars_of(line.as_str());
                if is_comment_line(chars.as_slice()) {
                    push_content(&mut out, chars.as_slice());
                    i = i + 1;
                } else {
                    inside = false;
                }
            },
            None => {
                inside = false;
            },
        }
    }
    (out, i)
}

/// Header that consists of the given lines.
pub fn describe_module(bodies: &Vec<String>) -> (r: ModuleHeader)
    ensures
        r@ == header_of(texts(bodies@)),
{
    let ghost t = texts(bodies@);
    let n: usize = bodies.len();
    let mut b = MetaBlock::new();
    let mut i: usize = 0;
    while i < n
        invariant
            i <= n,
            n == bodies@.len(),
            t == texts(bodies@),
            b@.lines == block(t, i as int).lines,
            b@.tags == block(t, i as int).tags,
            b@.depends == block(t, i as int).depends,
        decreases n - i,
    {
        assert(t[i as int] == bodies@[i as int]@);
        b.note(read_body(bodies[i].as_str()));
        i = i + 1;
    }
    let prose = join_texts(&b.lines, "\n");
    ModuleHeader {
        prose: cut_chars(prose.as_str(), HEADER_PROSE_LIMIT_CHARS),
        tags: b.tags,
        depends: b.depends,
    }
}

/// Header of a module: the `//` lines that the module begins with, if an empty line,
/// the start of a region or of a condition, a variable declaration or the end of the
/// module follows.
///
/// A comment that goes straight over into a procedure describes the procedure and is
/// no header.
pub fn extract_module_header<S: LineText>(v: &[S]) -> (r: Option<ModuleHeader>)
    ensures
        match r {
            Some(h) => module_header(line_texts(v@)) == Some(h@),
            None => module_header(line_texts(v@)) is None,
        },
{
    let (bodies, end) = header_comment(v);
    if bodies.len() == 0 {
        assert(texts(bodies@).len() == 0);
        return None;
    }
    assert(texts(bodies@).len() > 0);
    match trimmed_line(v, end) {
        Some(t) => {
            assert(line_after_header(line_texts(v@)) == Some(t@));
            if !t.is_empty() && !is_module_level(fold_text(t.as_str()).as_str()) {
                return None;
            }
        },
        None => {},
    }
    Some(describe_module(&bodies))
}

/// A description keeps within the limits.
pub proof fn law_description_fits(bodies: Seq<Seq<char>>)
    requires
        bodies.len() > 0,
    ensures
        comment_of(bodies)->0.prose.len() <= PROSE_LIMIT_CHARS,
        comment_of(bodies)->0.head.len() <= HEAD_LIMIT_CHARS,
        header_of(bodies).prose.len() <= HEADER_PROSE_LIMIT_CHARS,
        head_of(header_of(bodies).prose).len() <= HEAD_LIMIT_CHARS,
{
    let b = block_of(bodies);
    law_cut_fits(join(b.lines, " "@), PROSE_LIMIT_CHARS as int);
    law_cut_fits(first_of(b.lines), HEAD_LIMIT_CHARS as int);
    law_cut_fits(join(b.lines, "\n"@), HEADER_PROSE_LIMIT_CHARS as int);
    law_cut_fits(trimmed(first_line(header_of(bodies).prose)), HEAD_LIMIT_CHARS as int);
}

/// No tag and no dependency of a comment is empty or repeated.
pub proof fn law_tags_are_distinct(bodies: Seq<Seq<char>>, n: int)
    requires
        0 <= n <= bodies.len(),
    ensures
        is_phrase_list(block(bodies, n).tags),
        is_phrase_list(block(bodies, n).depends),
    decreases n,
{
    if n > 0 {
        law_tags_are_distinct(bodies, n - 1);
        let before = block(bodies, n - 1);
        match body_line(bodies[n - 1]) {
            BodyModel::Tags(v) => {
                law_phrase_list(before.tags, v, v.len() as int);
            },
            BodyModel::Depends(v) => {
                law_phrase_list(before.depends, v, v.len() as int);
            },
            _ => {},
        }
    }
}

/// No meta tag gets into the prose of a comment: a line of prose is a line of the
/// comment that is no meta tag.
pub proof fn law_prose_without_meta_tags(bodies: Seq<Seq<char>>, n: int)
    requires
        0 <= n <= bodies.len(),
    ensures
        forall|k: int|
            0 <= k < block(bodies, n).lines.len() ==> meta_tag(
                #[trigger] block(bodies, n).lines[k],
            ) is None && bodies.contains(block(bodies, n).lines[k]),
    decreases n,
{
    if n > 0 {
        law_prose_without_meta_tags(bodies, n - 1);
        assert(bodies.contains(bodies[n - 1]));
    }
}

/// Prose takes nothing away from the tags: a line of prose, however long and wherever
/// it stands, leaves the tags and the dependencies of a comment as they are.
pub proof fn law_prose_keeps_tags(a: Seq<Seq<char>>, line: Seq<char>, b: Seq<Seq<char>>)
    requires
        meta_tag(line) is None,
    ensures
        block_of(a + seq![line] + b).tags == block_of(a + b).tags,
        block_of(a + seq![line] + b).depends == block_of(a + b).depends,
    decreases b.len(),
{
    let with = a + seq![line] + b;
    let without = a + b;
    if b.len() == 0 {
        assert(without == a);
        assert(with == a.push(line));
        lemma_block_prefix(a.push(line), a, a.len() as int);
    } else {
        let rest = b.drop_last();
        law_prose_keeps_tags(a, line, rest);
        assert(with.drop_last() == a + seq![line] + rest);
        assert(without.drop_last() == a + rest);
        assert(with.last() == b.last());
        assert(without.last() == b.last());
        lemma_block_prefix(with, with.drop_last(), with.len() - 1);
        lemma_block_prefix(without, without.drop_last(), without.len() - 1);
    }
}

proof fn lemma_block_prefix(v: Seq<Seq<char>>, p: Seq<Seq<char>>, n: int)
    requires
        0 <= n <= p.len(),
        p.is_prefix_of(v),
    ensures
        block(v, n) == block(p, n),
    decreases n,
{
    if n > 0 {
        lemma_block_prefix(v, p, n - 1);
    }
}

proof fn lemma_contents_not_empty(t: Seq<Seq<char>>, from: int, to: int)
    ensures
        forall|k: int|
            0 <= k < contents(t, from, to).len() ==> (#[trigger] contents(t, from, to)[k]).len()
                > 0,
    decreases to - from,
{
    if from < to {
        lemma_contents_not_empty(t, from, to - 1);
        let before = contents(t, from, to - 1);
        assert forall|k: int| 0 <= k < contents(t, from, to).len() implies (
        #[trigger] contents(t, from, to)[k]).len() > 0 by {
            if k < before.len() {
                assert(contents(t, from, to)[k] == before[k]);
            }
        }
    }
}

proof fn lemma_block_len(bodies: Seq<Seq<char>>, n: int)
    requires
        0 < n <= bodies.len(),
        bodies[0].len() > 0,
    ensures
        block(bodies, n).len_chars > 0,
    decreases n,
{
    if n > 1 {
        lemma_block_len(bodies, n - 1);
    } else {
        assert(block(bodies, 0) == MetaModel::empty());
    }
}

/// A description has a length above zero: zero stands for a procedure without a
/// description and for nothing else.
pub proof fn law_described_has_length(v: Seq<Seq<char>>, line_start: int)
    ensures
        match leading_comment(v, line_start) {
            Some(c) => c.len_chars > 0,
            None => leading_bodies(v, line_start).len() == 0,
        },
{
    let bodies = leading_bodies(v, line_start);
    if bodies.len() > 0 {
        let t = clean_lines(v);
        lemma_contents_not_empty(t, block_top(t, line_start - 1), line_start - 1);
        assert(bodies[0].len() > 0);
        lemma_block_len(bodies, bodies.len() as int);
    }
}

proof fn lemma_blank_end(t: Seq<Seq<char>>, i: int)
    requires
        0 <= i <= t.len(),
    ensures
        i <= blank_end(t, i) <= t.len(),
        forall|k: int| i <= k < blank_end(t, i) ==> (#[trigger] t[k]).len() == 0,
    decreases t.len() - i,
{
    if i < t.len() && t[i].len() == 0 {
        lemma_blank_end(t, i + 1);
    }
}

proof fn lemma_comment_end(t: Seq<Seq<char>>, i: int)
    requires
        0 <= i <= t.len(),
    ensures
        i <= comment_end(t, i) <= t.len(),
        forall|k: int| i <= k < comment_end(t, i) ==> is_comment(#[trigger] t[k]),
    decreases t.len() - i,
{
    if i < t.len() && is_comment(t[i]) {
        lemma_comment_end(t, i + 1);
    }
}

proof fn lemma_block_top(t: Seq<Seq<char>>, top: int, i: int)
    requires
        0 <= top <= i <= t.len(),
        forall|k: int| top <= k < i ==> is_comment(#[trigger] t[k]),
        top > 0 ==> !is_comment(t[top - 1]) && !is_annotation(t[top - 1]),
    ensures
        block_top(t, i) == top,
    decreases i - top,
{
    if top < i {
        assert(is_comment(t[i - 1]));
        lemma_block_top(t, top, i - 1);
    }
}

/// Number of the line, counted from 1, right after the comment that a module begins
/// with.
pub open spec fn line_behind_header(v: Seq<Seq<char>>) -> int {
    comment_end(clean_lines(v), blank_end(clean_lines(v), 0)) + 1
}

/// The comment that a module begins with is never lost: what follows it at once has it as
/// its description.
pub proof fn law_first_comment_describes(v: Seq<Seq<char>>)
    requires
        line_behind_header(v) > 1,
    ensures
        leading_bodies(v, line_behind_header(v)) == header_bodies(v),
{
    let t = clean_lines(v);
    let start = blank_end(t, 0);
    lemma_blank_end(t, 0);
    lemma_comment_end(t, start);
    if start > 0 {
        assert(t[start - 1].len() == 0);
    }
    lemma_block_top(t, start, comment_end(t, start));
}

/// A comment that goes straight over into a line which is neither empty nor of the module
/// level is no header: it is the description of what stands there.
pub proof fn law_description_is_no_header(v: Seq<Seq<char>>)
    requires
        line_behind_header(v) > 1,
        line_after_header(v) matches Some(t) && t.len() > 0 && !module_level(folded(t)),
    ensures
        module_header(v) is None,
        leading_bodies(v, line_behind_header(v)) == header_bodies(v),
        header_bodies(v).len() > 0 ==> leading_comment(v, line_behind_header(v)) is Some,
{
    law_first_comment_describes(v);
}

/// A header that ends with an empty line describes no procedure: the procedure behind
/// the empty line has no description.
pub proof fn law_header_describes_no_procedure(v: Seq<Seq<char>>)
    requires
        line_after_header(v) matches Some(t) && t.len() == 0,
        line_behind_header(v) > 1,
    ensures
        leading_comment(v, line_behind_header(v) + 1) is None,
{
    let t = clean_lines(v);
    lemma_blank_end(t, 0);
    lemma_comment_end(t, blank_end(t, 0));
    let end = comment_end(t, blank_end(t, 0));
    assert(block_top(t, end + 1) == end + 1);
}

proof fn lemma_block_top_bounds(t: Seq<Seq<char>>, i: int)
    requires
        0 <= i,
    ensures
        0 <= block_top(t, i) <= i,
    decreases i,
{
    if 0 < i <= t.len() && (is_comment(t[i - 1]) || is_annotation(t[i - 1])) {
        lemma_block_top_bounds(t, i - 1);
    }
}

proof fn lemma_same_block_top(s: Seq<Seq<char>>, t: Seq<Seq<char>>, i: int)
    requires
        0 <= i <= s.len(),
        i <= t.len(),
        forall|k: int| 0 <= k < i ==> #[trigger] s[k] == t[k],
    ensures
        block_top(s, i) == block_top(t, i),
    decreases i,
{
    if i > 0 {
        assert(s[i - 1] == t[i - 1]);
        lemma_same_block_top(s, t, i - 1);
    }
}

proof fn lemma_same_contents(s: Seq<Seq<char>>, t: Seq<Seq<char>>, from: int, to: int)
    requires
        0 <= from,
        to <= s.len(),
        to <= t.len(),
        forall|k: int| 0 <= k < to ==> #[trigger] s[k] == t[k],
    ensures
        contents(s, from, to) == contents(t, from, to),
    decreases to - from,
{
    if from < to {
        assert(s[to - 1] == t[to - 1]);
        lemma_same_contents(s, t, from, to - 1);
    }
}

/// The description of a procedure depends on the lines above it alone: neither its own
/// line nor any line below it matters.
pub proof fn law_only_lines_above_matter(
    a: Seq<Seq<char>>,
    b: Seq<Seq<char>>,
    line_start: int,
)
    requires
        1 <= line_start,
        line_start - 1 <= a.len(),
        line_start - 1 <= b.len(),
        a.take(line_start - 1) == b.take(line_start - 1),
    ensures
        leading_bodies(a, line_start) == leading_bodies(b, line_start),
        leading_comment(a, line_start) == leading_comment(b, line_start),
{
    let n = line_start - 1;
    let s = clean_lines(a);
    let t = clean_lines(b);
    assert forall|k: int| 0 <= k < n implies #[trigger] s[k] == t[k] by {
        assert(a.take(n)[k] == b.take(n)[k]);
    }
    lemma_block_top_bounds(s, n);
    lemma_same_block_top(s, t, n);
    lemma_same_contents(s, t, block_top(s, n), n);
}

/// Whether `r` is what is left of a text without its trailing white space.
pub open spec fn is_end_trimmed(r: Seq<char>, s: Seq<char>) -> bool {
    &&& r.is_prefix_of(s)
    &&& r.len() > 0 ==> !is_space(r.last())
    &&& forall|k: int| r.len() <= k < s.len() ==> is_space(#[trigger] s[k])
}

proof fn lemma_end_trimmed(s: Seq<char>)
    ensures
        is_end_trimmed(trim_end(s), s),
{
    lemma_space_start(s, s.len() as int);
}

proof fn lemma_find_last_is(s: Seq<char>, c: char, i: int, j: int)
    requires
        -1 <= i < j <= s.len() || (i == -1 && j == 0),
        i >= 0 ==> s[i] == c,
        forall|k: int| i < k < j ==> #[trigger] s[k] != c,
    ensures
        find_last(s, c, j) == i,
    decreases j - i,
{
    if i < j - 1 {
        assert(s[j - 1] != c);
        lemma_find_last_is(s, c, i, j - 1);
    }
}

/// Only what does not fit is cut off: of a text that is too long, the beginning up to the
/// limit stays, without the piece of a word at its end if the blank before that piece
/// stands behind the middle, and without trailing white space.
pub proof fn law_cut_keeps_words(s: Seq<char>, limit: int, blank: int)
    requires
        0 <= limit < s.len(),
        -1 <= blank < limit,
        blank >= 0 ==> s[blank] == ' ',
        forall|k: int| blank < k < limit ==> #[trigger] s[k] != ' ',
    ensures
        is_end_trimmed(
            cut(s, limit),
            if blank > limit / 2 {
                s.take(blank)
            } else {
                s.take(limit)
            },
        ),
{
    let head = s.take(limit);
    assert(blank >= 0 ==> head[blank] == ' ');
    assert forall|k: int| blank < k < limit implies #[trigger] head[k] != ' ' by {
        assert(head[k] == s[k]);
    }
    lemma_find_last_is(head, ' ', blank, limit);
    if blank > limit / 2 {
        assert(head.take(blank) =~= s.take(blank));
    }
    lemma_end_trimmed(head);
    lemma_end_trimmed(head.take(blank));
}

/// The prose of a comment is made of all its lines that are no meta tags, in their order.
pub proof fn law_lines_of_prose(bodies: Seq<Seq<char>>)
    ensures
        block_of(bodies).lines == bodies.filter(|b: Seq<char>| meta_tag(b) is None),
    decreases bodies.len(),
{
    reveal(Seq::filter);
    if bodies.len() > 0 {
        let rest = bodies.drop_last();
        law_lines_of_prose(rest);
        lemma_block_prefix(bodies, rest, rest.len() as int);
    } else {
        assert(block_of(bodies).lines =~= Seq::empty());
    }
}

/// The prose of a description is the beginning of all its lines of prose with a blank
/// between neighbours, and nothing but what does not fit into the limit is missing. Its
/// head is the beginning of the first of these lines in the same sense.
pub proof fn law_prose_is_all_lines(bodies: Seq<Seq<char>>, blank: int)
    requires
        bodies.len() > 0,
    ensures
        ({
            let prose_lines = bodies.filter(|b: Seq<char>| meta_tag(b) is None);
            let whole = join(prose_lines, " "@);
            let c = comment_of(bodies)->0;
            &&& comment_of(bodies) is Some
            &&& whole.len() <= 240 ==> c.prose == whole
            &&& whole.len() > 240 && -1 <= blank < 240 && (blank >= 0 ==> whole[blank] == ' ') && (
            forall|k: int| blank < k < 240 ==> #[trigger] whole[k] != ' ') ==> is_end_trimmed(
                c.prose,
                if blank > 120 {
                    whole.take(blank)
                } else {
                    whole.take(240)
                },
            )
            &&& prose_lines.len() == 0 ==> c.head.len() == 0
            &&& prose_lines.len() > 0 && prose_lines[0].len() <= 160 ==> c.head == prose_lines[0]
            &&& prose_lines.len() > 0 && prose_lines[0].len() > 160 && -1 <= blank < 160 && (blank
                >= 0 ==> prose_lines[0][blank] == ' ') && (forall|k: int|
                blank < k < 160 ==> #[trigger] prose_lines[0][k] != ' ') ==> is_end_trimmed(
                c.head,
                if blank > 80 {
                    prose_lines[0].take(blank)
                } else {
                    prose_lines[0].take(160)
                },
            )
        }),
{
    law_lines_of_prose(bodies);
    let prose_lines = bodies.filter(|b: Seq<char>| meta_tag(b) is None);
    let whole = join(prose_lines, " "@);
    if whole.len() > 240 && -1 <= blank < 240 && (blank >= 0 ==> whole[blank] == ' ') && (forall|
        k: int,
    |
        blank < k < 240 ==> #[trigger] whole[k] != ' ') {
        law_cut_keeps_words(whole, 240, blank);
    }
    if prose_lines.len() > 0 && prose_lines[0].len() > 160 && -1 <= blank < 160 && (blank >= 0
        ==> prose_lines[0][blank] == ' ') && (forall|k: int|
        blank < k < 160 ==> #[trigger] prose_lines[0][k] != ' ') {
        law_cut_keeps_words(prose_lines[0], 160, blank);
    }
}

/// Lines of prose that end before the place of the cut are in the prose of a description
/// as a whole.
pub proof fn law_prose_keeps_lines(bodies: Seq<Seq<char>>, n: int, blank: int)
    requires
        ({
            let prose_lines = bodies.filter(|b: Seq<char>| meta_tag(b) is None);
            let whole = join(prose_lines, " "@);
            &&& bodies.len() > 0
            &&& 0 < n <= prose_lines.len()
            &&& prose_lines[n - 1].len() > 0
            &&& !is_space(prose_lines[n - 1].last())
            &&& join(prose_lines.take(n), " "@).len() <= 240
            &&& whole.len() > 240 ==> -1 <= blank < 240 && (blank >= 0 ==> whole[blank] == ' ')
                && (forall|k: int| blank < k < 240 ==> #[trigger] whole[k] != ' ') && (blank > 120
                ==> join(prose_lines.take(n), " "@).len() <= blank)
        }),
    ensures
        join(
            bodies.filter(|b: Seq<char>| meta_tag(b) is None).take(n),
            " "@,
        ).is_prefix_of(comment_of(bodies)->0.prose),
{
    let prose_lines = bodies.filter(|b: Seq<char>| meta_tag(b) is None);
    let whole = join(prose_lines, " "@);
    let first = join(prose_lines.take(n), " "@);
    let prose = comment_of(bodies)->0.prose;
    law_prose_is_all_lines(bodies, blank);
    let a = prose_lines.take(n);
    if n < prose_lines.len() {
        let b = prose_lines.skip(n);
        assert(prose_lines =~= a + b);
        law_join_around(a, b, " "@);
        assert(whole == first + " "@ + join(b, " "@));
    } else {
        assert(a =~= prose_lines);
    }
    assert(first.is_prefix_of(whole));
    let last = a.last();
    if n > 1 {
        law_join_around(a.drop_last(), seq![last], " "@);
        assert(a.drop_last() + seq![last] =~= a);
        law_join_few(last, " "@);
    } else {
        assert(a =~= seq![last]);
        law_join_few(last, " "@);
    }
    assert(first.last() == last.last());
    if whole.len() > 240 {
        let end = if blank > 120 {
            whole.take(blank)
        } else {
            whole.take(240)
        };
        assert(is_end_trimmed(prose, end));
        if prose.len() < first.len() {
            assert(end[first.len() - 1] == whole[first.len() - 1]);
            assert(whole[first.len() - 1] == first.last());
            assert(is_space(end[first.len() - 1]));
        }
        assert(first.is_prefix_of(prose));
    }
}

/// The prose of a module header is the beginning of all its lines of prose, each in a line
/// of its own, and nothing but what does not fit into the limit is missing. Its tags and
/// dependencies are those of a description with the same lines.
pub proof fn law_header_is_all_lines(bodies: Seq<Seq<char>>, blank: int)
    ensures
        ({
            let whole = join(bodies.filter(|b: Seq<char>| meta_tag(b) is None), "\n"@);
            let h = header_of(bodies);
            &&& whole.len() <= 1000 ==> h.prose == whole
            &&& whole.len() > 1000 && -1 <= blank < 1000 && (blank >= 0 ==> whole[blank] == ' ')
                && (forall|k: int| blank < k < 1000 ==> #[trigger] whole[k] != ' ')
                ==> is_end_trimmed(
                h.prose,
                if blank > 500 {
                    whole.take(blank)
                } else {
                    whole.take(1000)
                },
            )
            &&& bodies.len() > 0 ==> h.tags == comment_of(bodies)->0.tags && h.depends
                == comment_of(bodies)->0.depends
        }),
{
    law_lines_of_prose(bodies);
    let whole = join(bodies.filter(|b: Seq<char>| meta_tag(b) is None), "\n"@);
    if whole.len() > 1000 && -1 <= blank < 1000 && (blank >= 0 ==> whole[blank] == ' ') && (forall|
        k: int,
    |
        blank < k < 1000 ==> #[trigger] whole[k] != ' ') {
        law_cut_keeps_words(whole, 1000, blank);
    }
}

proof fn lemma_tag_name_end(s: Seq<char>, i: int, j: int)
    requires
        0 <= i <= j <= s.len(),
        forall|k: int| i <= k < j ==> alphanumeric(#[trigger] s[k]) || s[k] == '_',
        j < s.len() ==> !alphanumeric(s[j]) && s[j] != '_',
    ensures
        tag_name_end(s, i) == j,
    decreases j - i,
{
    if i < j {
        assert(alphanumeric(s[i]) || s[i] == '_');
        lemma_tag_name_end(s, i + 1, j);
    }
}

proof fn lemma_tag_name_bounds(s: Seq<char>, i: int)
    requires
        0 <= i <= s.len(),
    ensures
        i <= tag_name_end(s, i) <= s.len(),
        forall|k: int| i <= k < tag_name_end(s, i) ==> alphanumeric(#[trigger] s[k]) || s[k] == '_',
    decreases s.len() - i,
{
    if i < s.len() && (alphanumeric(s[i]) || s[i] == '_') {
        lemma_tag_name_bounds(s, i + 1);
    }
}

/// A line of a commercial at, a name, white space and a value is a meta tag: the name
/// counts in lower case, the value as it is.
pub proof fn law_meta_tag(name: Seq<char>, gap: Seq<char>, value: Seq<char>)
    requires
        name.len() > 0,
        forall|k: int| 0 <= k < name.len() ==> alphanumeric(#[trigger] name[k]) || name[k] == '_',
        gap.len() > 0,
        all_space(gap),
        !alphanumeric(gap[0]),
        value.len() > 0,
        is_trim(value),
    ensures
        meta_tag(seq!['@'] + name + gap + value) == Some((text_lowered(name), value)),
{
    let body = seq!['@'] + name + gap + value;
    let n = name.len() + 1;
    assert forall|k: int| 1 <= k < n implies alphanumeric(#[trigger] body[k]) || body[k]
        == '_' by {
        assert(body[k] == name[k - 1]);
    }
    assert(body[n as int] == gap[0]);
    assert(is_space(gap[0]));
    lemma_tag_name_end(body, 1, n as int);
    assert(body.subrange(1, n as int) =~= name);
    assert(body.skip(n as int) =~= gap + value + Seq::<char>::empty());
    law_trimmed(gap, value, Seq::empty());
}

/// No other line is a meta tag: one that is has a name right behind a commercial at, white
/// space right behind the name, and a value.
pub proof fn law_meta_tag_shape(body: Seq<char>, name: Seq<char>, value: Seq<char>)
    requires
        meta_tag(body) == Some((name, value)),
    ensures
        body[0] == '@',
        exists|i: int|
            1 < i < body.len() && name == text_lowered(
                #[trigger] body.subrange(1, i),
            ) && value == trimmed(body.skip(i)) && is_space(body[i]) && (forall|
                k: int,
            |
                1 <= k < i ==> alphanumeric(#[trigger] body[k]) || body[k] == '_'),
        value.len() > 0,
{
    lemma_tag_name_bounds(body, 1);
    let i = tag_name_end(body, 1);
    assert(name == text_lowered(body.subrange(1, i)));
}

/// What one more line does to a comment: a line `@tags` adds its values between commas to
/// the tags, a line `@depends` its values between semicolons to the dependencies, another
/// meta tag adds nothing, and any other line is one more line of prose.
pub proof fn law_one_more_line(bodies: Seq<Seq<char>>, body: Seq<char>, p: Seq<char>)
    ensures
        ({
            let a = block_of(bodies);
            let b = block_of(bodies.push(body));
            match meta_tag(body) {
                None => b.lines == a.lines.push(body) && b.tags == a.tags && b.depends
                    == a.depends,
                Some((name, value)) => {
                    &&& b.lines == a.lines
                    &&& name != "tags"@ ==> b.tags == a.tags
                    &&& name != "depends"@ ==> b.depends == a.depends
                    &&& name == "tags"@ ==> a.tags.is_prefix_of(b.tags) && (b.tags.contains(p)
                        <==> a.tags.contains(p) || p.len() > 0 && exists|k: int|
                        0 <= k < split(value, ',').len() && p == trimmed(
                            folded(trimmed(#[trigger] split(value, ',')[k])),
                        ))
                    &&& name == "depends"@ ==> a.depends.is_prefix_of(b.depends) && (
                    b.depends.contains(p) <==> a.depends.contains(p) || p.len() > 0 && exists|
                        k: int,
                    |
                        0 <= k < split(value, ';').len() && p == trimmed(
                            folded(trimmed(#[trigger] split(value, ';')[k])),
                        ))
                },
            }
        }),
{
    reveal_strlit("tags");
    reveal_strlit("depends");
    assert("tags"@.len() != "depends"@.len());
    let n = bodies.len() as int;
    lemma_block_prefix(bodies.push(body), bodies, n);
    let a = block_of(bodies);
    if let Some((name, value)) = meta_tag(body) {
        if name == "tags"@ {
            let v = value_list(value, ',');
            lemma_value_list(value, ',', p);
            law_phrases_complete(a.tags, v, v.len() as int, p);
            law_phrases_keep_order(a.tags, v, 0, v.len() as int);
            assert(v.take(v.len() as int) =~= v);
        } else if name == "depends"@ {
            let v = value_list(value, ';');
            lemma_value_list(value, ';', p);
            law_phrases_complete(a.depends, v, v.len() as int, p);
            law_phrases_keep_order(a.depends, v, 0, v.len() as int);
            assert(v.take(v.len() as int) =~= v);
        }
    }
}

proof fn lemma_value_list(value: Seq<char>, sep: char, p: Seq<char>)
    ensures
        value_list(value, sep).contains(p) <==> p.len() > 0 && exists|k: int|
            0 <= k < split(value, sep).len() && p == trimmed(
                folded(trimmed(#[trigger] split(value, sep)[k])),
            ),
{
    let parts = split(value, sep);
    let all = parts.map_values(|p: Seq<char>| tag_value(p));
    law_phrases_complete(Seq::empty(), all, all.len() as int, p);
    assert(all.take(all.len() as int) =~= all);
    if all.contains(p) {
        let k = choose|k: int| 0 <= k < all.len() && all[k] == p;
        assert(p == trimmed(folded(trimmed(parts[k]))));
    }
    if exists|k: int| 0 <= k < parts.len() && p == trimmed(folded(trimmed(#[trigger] parts[k]))) {
        let k = choose|k: int|
            0 <= k < parts.len() && p == trimmed(folded(trimmed(#[trigger] parts[k])));
        assert(all[k] == p);
    }
}

proof fn lemma_skip_char_is(s: Seq<char>, c: char, i: int, j: int)
    requires
        0 <= i <= j <= s.len(),
        forall|k: int| i <= k < j ==> #[trigger] s[k] == c,
        j < s.len() ==> s[j] != c,
    ensures
        skip_char(s, c, i) == j,
    decreases j - i,
{
    if i < j {
        assert(s[i] == c);
        lemma_skip_char_is(s, c, i + 1, j);
    }
}

/// A comment line counts with its text, however far it is indented, however many slashes
/// it begins with and whatever white space stands around the text. A line of `=`, `-`, `*`
/// and `/` alone does not count.
pub proof fn law_comment_line(
    indent: Seq<char>,
    slashes: Seq<char>,
    gap: Seq<char>,
    text: Seq<char>,
    trail: Seq<char>,
)
    requires
        all_space(indent),
        all_space(gap),
        all_space(trail),
        slashes.len() >= 2,
        forall|k: int| 0 <= k < slashes.len() ==> #[trigger] slashes[k] == '/',
        text.len() > 0,
        is_trim(text),
        gap.len() == 0 ==> text[0] != '/',
    ensures
        content(trimmed(indent + slashes + gap + text + trail)) == if (forall|k: int|
            0 <= k < text.len() ==> #[trigger] text[k] == '=' || text[k] == '-' || text[k] == '*'
                || text[k] == '/') {
            None
        } else {
            Some(text)
        },
{
    let t = slashes + gap + text;
    let n = slashes.len() as int;
    assert(slashes[0] == '/' && slashes[1] == '/');
    assert(t[0] == '/' && t[1] == '/');
    assert(t.last() == text.last());
    law_trimmed(indent, t, trail);
    assert(indent + t + trail =~= indent + slashes + gap + text + trail);
    assert forall|k: int| 0 <= k < n implies #[trigger] t[k] == '/' by {
        assert(t[k] == slashes[k]);
    }
    if gap.len() > 0 {
        assert(t[n] == gap[0]);
        assert(is_space(gap[0]));
    } else {
        assert(t[n] == text[0]);
    }
    lemma_skip_char_is(t, '/', 0, n);
    assert(t.skip(n) =~= gap + text + Seq::<char>::empty());
    law_trimmed(gap, text, Seq::empty());
    assert(comment_text(t) == text);
}

/// A line that does not begin with two slashes has no content, and one of slashes alone has
/// none either.
pub proof fn law_line_without_content(t: Seq<char>)
    requires
        t.len() < 2 || t[0] != '/' || t[1] != '/' || forall|k: int|
            0 <= k < t.len() ==> #[trigger] t[k] == '/',
    ensures
        content(t) is None,
{
    if is_comment(t) {
        lemma_skip_char_is(t, '/', 0, t.len() as int);
        let none = Seq::<char>::empty();
        assert(t.skip(t.len() as int) =~= none);
        assert(none + none + none =~= none);
        law_trimmed(none, none, none);
    }
}

proof fn lemma_block_top_is(t: Seq<Seq<char>>, top: int, i: int)
    requires
        0 <= top <= i <= t.len(),
        forall|k: int| top <= k < i ==> is_comment(#[trigger] t[k]) || is_annotation(t[k]),
        top > 0 ==> !is_comment(t[top - 1]) && !is_annotation(t[top - 1]),
    ensures
        block_top(t, i) == top,
    decreases i - top,
{
    if top < i {
        assert(is_comment(t[i - 1]) || is_annotation(t[i - 1]));
        lemma_block_top_is(t, top, i - 1);
    }
}

/// Whether `at` are the numbers of the lines with content among the lines `from` to `to`,
/// in their order.
pub open spec fn are_contents(t: Seq<Seq<char>>, from: int, to: int, at: Seq<int>) -> bool {
    &&& forall|k: int| 0 <= k < at.len() ==> from <= #[trigger] at[k] < to
    &&& forall|k: int, l: int| 0 <= k < l < at.len() ==> #[trigger] at[k] < #[trigger] at[l]
    &&& forall|i: int| from <= i < to ==> (content(#[trigger] t[i]) is Some <==> at.contains(i))
}

proof fn lemma_contents_are(t: Seq<Seq<char>>, from: int, at: Seq<int>, to: int)
    requires
        0 <= from <= to <= t.len(),
        are_contents(t, from, to, at),
    ensures
        contents(t, from, to) == at.map_values(|i: int| content(t[i])->0),
    decreases to - from,
{
    let want = at.map_values(|i: int| content(t[i])->0);
    if from < to {
        if content(t[to - 1]) is Some {
            assert(at.contains(to - 1));
            let k = choose|k: int| 0 <= k < at.len() && at[k] == to - 1;
            if k < at.len() - 1 {
                assert(at[k] < at[at.len() - 1]);
            }
            assert(at.last() == to - 1);
            let rest = at.drop_last();
            assert forall|j: int| 0 <= j < rest.len() implies from <= #[trigger] rest[j] < to
                - 1 by {
                assert(at[j] < at[at.len() - 1]);
            }
            assert forall|i: int| from <= i < to - 1 implies (content(#[trigger] t[i]) is Some
                <==> rest.contains(i)) by {
                assert(content(t[i]) is Some <==> at.contains(i));
                if at.contains(i) {
                    let j = choose|j: int| 0 <= j < at.len() && at[j] == i;
                    assert(rest[j] == i);
                }
                if rest.contains(i) {
                    let j = choose|j: int| 0 <= j < rest.len() && rest[j] == i;
                    assert(at[j] == i);
                }
            }
            assert(are_contents(t, from, to - 1, rest));
            lemma_contents_are(t, from, rest, to - 1);
            assert(want =~= rest.map_values(|i: int| content(t[i])->0).push(content(t[to - 1])->0));
        } else {
            assert forall|j: int| 0 <= j < at.len() implies from <= #[trigger] at[j] < to - 1 by {
                assert(at.contains(at[j]));
                assert(content(t[at[j]]) is Some);
            }
            assert(are_contents(t, from, to - 1, at));
            lemma_contents_are(t, from, at, to - 1);
        }
    } else {
        if at.len() > 0 {
            assert(from <= at[0] < to);
        }
        assert(want =~= Seq::empty());
    }
}

/// The comment above a line reaches up to the first line that begins neither with two
/// slashes nor with `&`. It holds the contents of all lines that have one, in their order,
/// and nothing else: `at` are the numbers of these lines, counted from 0.
pub proof fn law_comment_above(v: Seq<Seq<char>>, top: int, end: int, at: Seq<int>)
    requires
        0 <= top <= end <= v.len(),
        forall|k: int|
            top <= k < end ==> ("//"@.is_prefix_of(#[trigger] clean_line(v, k))
                || "&"@.is_prefix_of(clean_line(v, k))),
        top > 0 ==> !"//"@.is_prefix_of(clean_line(v, top - 1)) && !"&"@.is_prefix_of(
            clean_line(v, top - 1),
        ),
        are_contents(clean_lines(v), top, end, at),
    ensures
        leading_bodies(v, end + 1) == at.map_values(|i: int| content(clean_lines(v)[i])->0),
        leading_comment(v, end + 1) is Some <==> at.len() > 0,
{
    let t = clean_lines(v);
    assert forall|k: int| top <= k < end implies is_comment(#[trigger] t[k]) || is_annotation(
        t[k],
    ) by {
        assert(t[k] == clean_line(v, k));
        lemma_line_marks(t[k]);
    }
    if top > 0 {
        assert(t[top - 1] == clean_line(v, top - 1));
        lemma_line_marks(t[top - 1]);
    }
    lemma_contents_are(t, top, at, end);
    if end >= 1 {
        lemma_block_top_is(t, top, end);
    }
}

proof fn lemma_comment_marks()
    ensures
        "//"@ == seq!['/', '/'],
        "&"@ == seq!['&'],
{
    reveal_strlit("//");
    reveal_strlit("&");
}

proof fn lemma_line_marks(t: Seq<char>)
    ensures
        is_comment(t) == "//"@.is_prefix_of(t),
        is_annotation(t) == "&"@.is_prefix_of(t),
{
    lemma_comment_marks();
    if is_comment(t) {
        assert(t.take(2) =~= "//"@);
    }
    if "//"@.is_prefix_of(t) {
        assert(t.take(2)[0] == '/' && t.take(2)[1] == '/');
    }
    if is_annotation(t) {
        assert(t.take(1) =~= "&"@);
    }
    if "&"@.is_prefix_of(t) {
        assert(t.take(1)[0] == '&');
    }
}

/// No line stands above the first one, and none above a line behind the end of the module.
pub proof fn law_nothing_above(v: Seq<Seq<char>>, line_start: int)
    requires
        line_start < 2 || line_start - 1 > v.len(),
    ensures
        leading_comment(v, line_start) is None,
{
}

proof fn lemma_blank_end_is(t: Seq<Seq<char>>, i: int, j: int)
    requires
        0 <= i <= j <= t.len(),
        forall|k: int| i <= k < j ==> (#[trigger] t[k]).len() == 0,
        j < t.len() ==> t[j].len() > 0,
    ensures
        blank_end(t, i) == j,
    decreases j - i,
{
    if i < j {
        assert(t[i].len() == 0);
        lemma_blank_end_is(t, i + 1, j);
    }
}

proof fn lemma_comment_end_is(t: Seq<Seq<char>>, i: int, j: int)
    requires
        0 <= i <= j <= t.len(),
        forall|k: int| i <= k < j ==> is_comment(#[trigger] t[k]),
        j < t.len() ==> !is_comment(t[j]),
    ensures
        comment_end(t, i) == j,
    decreases j - i,
{
    if i < j {
        assert(is_comment(t[i]));
        lemma_comment_end_is(t, i + 1, j);
    }
}

/// A module header is the run of comment lines that the module begins with, empty lines
/// before it aside, up to the first line that is no comment. It counts exactly when it has
/// content and the line behind it is empty, of the module level or not there at all. `at`
/// are the numbers of the lines with content, counted from 0.
pub proof fn law_module_header(v: Seq<Seq<char>>, start: int, end: int, at: Seq<int>)
    requires
        0 <= start <= end <= v.len(),
        forall|k: int| 0 <= k < start ==> (#[trigger] clean_line(v, k)).len() == 0,
        start < v.len() ==> clean_line(v, start).len() > 0,
        forall|k: int| start <= k < end ==> "//"@.is_prefix_of(#[trigger] clean_line(v, k)),
        end < v.len() ==> !"//"@.is_prefix_of(clean_line(v, end)),
        are_contents(clean_lines(v), start, end, at),
    ensures
        header_bodies(v) == at.map_values(|i: int| content(clean_lines(v)[i])->0),
        line_after_header(v) == if end < v.len() {
            Some(clean_line(v, end))
        } else {
            None
        },
        module_header(v) == if at.len() > 0 && (end == v.len() || clean_line(v, end).len() == 0
            || module_level(folded(clean_line(v, end)))) {
            Some(header_of(at.map_values(|i: int| content(clean_lines(v)[i])->0)))
        } else {
            None
        },
{
    lemma_header_place(v, start, end);
    lemma_contents_are(clean_lines(v), start, at, end);
}

proof fn lemma_header_place(v: Seq<Seq<char>>, start: int, end: int)
    requires
        0 <= start <= end <= v.len(),
        forall|k: int| 0 <= k < start ==> (#[trigger] clean_line(v, k)).len() == 0,
        start < v.len() ==> clean_line(v, start).len() > 0,
        forall|k: int| start <= k < end ==> "//"@.is_prefix_of(#[trigger] clean_line(v, k)),
        end < v.len() ==> !"//"@.is_prefix_of(clean_line(v, end)),
    ensures
        blank_end(clean_lines(v), 0) == start,
        comment_end(clean_lines(v), start) == end,
{
    let t = clean_lines(v);
    assert forall|k: int| start <= k < end implies is_comment(#[trigger] t[k]) by {
        assert(t[k] == clean_line(v, k));
        lemma_line_marks(t[k]);
    }
    if end < v.len() {
        assert(t[end] == clean_line(v, end));
        lemma_line_marks(t[end]);
    }
    assert forall|k: int| 0 <= k < start implies (#[trigger] t[k]).len() == 0 by {
        assert(t[k] == clean_line(v, k));
    }
    if start < v.len() {
        assert(t[start] == clean_line(v, start));
    }
    lemma_blank_end_is(t, 0, start);
    lemma_comment_end_is(t, start, end);
}

/// Surrounding white space of a line does not matter, nor do byte order marks before the
/// first line.
pub proof fn law_clean_line(v: Seq<Seq<char>>, i: int, marks: Seq<char>, rest: Seq<char>)
    requires
        0 <= i < v.len(),
    ensures
        clean_lines(v).len() == v.len(),
        clean_lines(v)[i] == clean_line(v, i),
        i > 0 ==> clean_line(v, i) == trimmed(v[i]),
        i == 0 && v[0] == marks + rest && (forall|k: int|
            0 <= k < marks.len() ==> #[trigger] marks[k] == '\u{feff}') && (rest.len() > 0
            ==> rest[0] != '\u{feff}') ==> clean_line(v, 0) == trimmed(rest),
{
    if i == 0 && v[0] == marks + rest && (forall|k: int|
        0 <= k < marks.len() ==> #[trigger] marks[k] == '\u{feff}') && (rest.len() > 0 ==> rest[0]
        != '\u{feff}') {
        assert forall|k: int| 0 <= k < marks.len() implies #[trigger] v[0][k] == '\u{feff}' by {
            assert(v[0][k] == marks[k]);
        }
        if rest.len() > 0 {
            assert(v[0][marks.len() as int] == rest[0]);
        }
        lemma_skip_char_is(v[0], '\u{feff}', 0, marks.len() as int);
        assert(v[0].skip(marks.len() as int) =~= rest);
    }
}

/// Whether a word opens a region or a condition.
pub open spec fn is_opening_word(word: Seq<char>) -> bool {
    word == "область"@ || word == "region"@ || word == "если"@ || word == "if"@
}

/// A folded preprocessor line with the word of a region or of a condition is of the module
/// level, whatever white space stands behind the `#` and whatever follows the word, unless
/// it makes the word longer.
pub proof fn law_regions_and_conditions(gap: Seq<char>, word: Seq<char>, rest: Seq<char>)
    requires
        is_opening_word(word),
        all_space(gap),
        rest.len() > 0 ==> !name_char(rest[0]) && !is_space(rest.last()),
    ensures
        module_level(seq!['#'] + gap + word + rest),
{
    reveal_strlit("область");
    reveal_strlit("region");
    reveal_strlit("если");
    reveal_strlit("if");
    let s = seq!['#'] + gap + word + rest;
    let t = word + rest;
    assert(s.skip(1) =~= gap + t + Seq::<char>::empty());
    assert(t[0] == word[0]);
    if rest.len() > 0 {
        assert(t.last() == rest.last());
        assert(t[word.len() as int] == rest[0]);
    } else {
        assert(t.last() == word.last());
    }
    law_trimmed(gap, t, Seq::empty());
    assert(word.is_prefix_of(t));
    assert(is_directive(s, word));
}

/// A folded line of the keyword of a variable declaration, alone or with white space behind
/// it, is of the module level.
pub proof fn law_declarations(keyword: Seq<char>, rest: Seq<char>)
    requires
        keyword == "перем"@ || keyword == "var"@,
        rest.len() > 0 ==> is_space(rest[0]),
    ensures
        module_level(keyword + rest),
{
    let s = keyword + rest;
    assert(keyword.is_prefix_of(s));
    if rest.len() > 0 {
        assert(s[keyword.len() as int] == rest[0]);
    }
    assert(is_declaration(s, keyword));
}

/// A folded line with which a procedure, a function or its annotation begins is not of the
/// module level, and neither is any line that begins with none of the marks of that level.
pub proof fn law_procedures_are_no_module_level(s: Seq<char>)
    requires
        s.len() == 0 || s[0] != '#',
        "перем"@.is_prefix_of(s) ==> s.len() > 5 && !is_space(s[5]),
        "var"@.is_prefix_of(s) ==> s.len() > 3 && !is_space(s[3]),
    ensures
        !module_level(s),
{
    reveal_strlit("перем");
    reveal_strlit("var");
}

/// Words of procedures and functions and the mark of an annotation begin no line of the
/// module level.
pub proof fn law_what_opens_a_procedure(s: Seq<char>)
    requires
        "процедура"@.is_prefix_of(s) || "функция"@.is_prefix_of(s) || "procedure"@.is_prefix_of(s)
            || "function"@.is_prefix_of(s) || "&"@.is_prefix_of(s),
    ensures
        !module_level(s),
{
    reveal_strlit("процедура");
    reveal_strlit("функция");
    reveal_strlit("procedure");
    reveal_strlit("function");
    reveal_strlit("&");
    reveal_strlit("перем");
    reveal_strlit("var");
    assert(s[0] == 'п' || s[0] == 'ф' || s[0] == 'p' || s[0] == 'f' || s[0] == '&') by {
        if "процедура"@.is_prefix_of(s) {
            assert(s.take(9)[0] == s[0]);
        } else if "функция"@.is_prefix_of(s) {
            assert(s.take(7)[0] == s[0]);
        } else if "procedure"@.is_prefix_of(s) {
            assert(s.take(9)[0] == s[0]);
        } else if "function"@.is_prefix_of(s) {
            assert(s.take(8)[0] == s[0]);
        } else {
            assert(s.take(1)[0] == s[0]);
        }
    }
    if "перем"@.is_prefix_of(s) {
        assert(s.take(5)[0] == s[0] && s.take(5)[1] == s[1]);
        assert(s[0] == 'п' && s[1] == 'е');
        assert("процедура"@.is_prefix_of(s));
        assert(s.take(9)[1] == s[1]);
        assert(false);
    }
    if "var"@.is_prefix_of(s) {
        assert(s.take(3)[0] == s[0]);
    }
    law_procedures_are_no_module_level(s);
}

/// The length of a comment is that of all its lines, meta tags included, with a blank
/// between neighbours.
pub proof fn law_length_counts_all(bodies: Seq<Seq<char>>)
    requires
        bodies.len() > 0,
        bodies[0].len() > 0,
    ensures
        comment_of(bodies)->0.len_chars == join(bodies, " "@).len(),
    decreases bodies.len(),
{
    reveal_strlit(" ");
    if bodies.len() > 1 {
        let rest = bodies.drop_last();
        law_length_counts_all(rest);
        lemma_block_prefix(bodies, rest, rest.len() as int);
        lemma_block_len(rest, rest.len() as int);
        law_join_around(rest, seq![bodies.last()], " "@);
        law_join_few(bodies.last(), " "@);
        assert(rest + seq![bodies.last()] =~= bodies);
    } else {
        assert(block(bodies, 0) == MetaModel::empty());
        law_join_few(bodies[0], " "@);
        assert(seq![bodies[0]] =~= bodies);
    }
}

/// The first line of a text, without surrounding white space, is its head; what follows the
/// line does not matter.
pub proof fn law_head_is_first_line(line: Seq<char>, rest: Seq<char>)
    requires
        !line.contains('\n'),
        trimmed(line).len() <= 160,
    ensures
        head_of(line) == trimmed(line),
        line.len() == 0 || line.last() != '\r' ==> head_of(line + seq!['\n'] + rest) == trimmed(
            line,
        ),
{
    law_lines(line, rest);
    if line.len() == 0 {
        assert(line =~= Seq::empty());
    }
}

/// A word that only begins like that of a region or of a condition is another word.
pub proof fn law_longer_words(word: Seq<char>, rest: Seq<char>)
    requires
        is_opening_word(word),
        rest.len() > 0,
        !is_space(rest.last()),
        'a' <= rest[0] <= 'z' || '0' <= rest[0] <= '9' || rest[0] == '_' || 'а' <= rest[0] <= 'я',
    ensures
        !module_level(seq!['#'] + word + rest),
{
    reveal_strlit("область");
    reveal_strlit("region");
    reveal_strlit("если");
    reveal_strlit("if");
    reveal_strlit("перем");
    reveal_strlit("var");
    let s = seq!['#'] + word + rest;
    let t = word + rest;
    let none = Seq::<char>::empty();
    assert(s.skip(1) =~= none + t + none);
    assert(t[0] == word[0]);
    assert(t.last() == rest.last());
    law_trimmed(none, t, none);
    assert(t[word.len() as int] == rest[0]);
    assert forall|other: Seq<char>| #[trigger] is_opening_word(other) implies !is_directive(
        s,
        other,
    ) by {
        if other.is_prefix_of(t) {
            assert(t.take(other.len() as int)[0] == t[0]);
            assert(other[0] == word[0]);
            assert(other == word);
        }
    }
    assert(is_opening_word("область"@) && is_opening_word("region"@) && is_opening_word("если"@)
        && is_opening_word("if"@));
    assert(s[0] == '#');
    if "перем"@.is_prefix_of(s) {
        assert(s.take(5)[0] == s[0]);
    }
    if "var"@.is_prefix_of(s) {
        assert(s.take(3)[0] == s[0]);
    }
}

/// The values of a meta tag stand in the order of the line: one more value behind a
/// separator goes to the end of the list, unless it is blank or stands there already.
pub proof fn law_one_more_value(value: Seq<char>, sep: char, part: Seq<char>)
    requires
        !part.contains(sep),
    ensures
        ({
            let before = value_list(value, sep);
            let p = trimmed(folded(trimmed(part)));
            value_list(value + seq![sep] + part, sep) == if p.len() > 0 && !before.contains(p) {
                before.push(p)
            } else {
                before
            }
        }),
{
    lemma_split_around(value, part, sep);
    lemma_split_one(part, sep);
    let a = split(value, sep).map_values(|p: Seq<char>| tag_value(p));
    let all = split(value + seq![sep] + part, sep).map_values(|p: Seq<char>| tag_value(p));
    assert(all =~= a.push(tag_value(part)));
    law_one_more_phrase(Seq::empty(), a, tag_value(part));
}

proof fn lemma_split_one(s: Seq<char>, sep: char)
    requires
        !s.contains(sep),
    ensures
        split(s, sep) == seq![s],
{
    lemma_find_char(s, sep, 0);
    if find_char(s, sep, 0) < s.len() {
        assert(s.contains(s[find_char(s, sep, 0)]));
    }
}

/// A long first line is cut to the limit of a head, whatever follows it.
pub proof fn law_head_is_cut(line: Seq<char>, rest: Seq<char>)
    requires
        !line.contains('\n'),
        line.len() == 0 || line.last() != '\r',
    ensures
        head_of(line) == cut(trimmed(line), 160),
        head_of(line + seq!['\n'] + rest) == cut(trimmed(line), 160),
{
    law_lines(line, rest);
    if line.len() == 0 {
        assert(line =~= Seq::empty());
    }
}

/// No other line is of the module level: one that is opens a region or a condition behind a
/// `#`, or declares variables.
pub proof fn law_module_level_shape(s: Seq<char>)
    requires
        module_level(s),
    ensures
        (s[0] == '#' && exists|word: Seq<char>| #[trigger]
            is_opening_word(word) && word.is_prefix_of(trimmed(s.skip(1))))
            || "перем"@.is_prefix_of(s) || "var"@.is_prefix_of(s),
{
    assert(is_opening_word("область"@) && is_opening_word("region"@) && is_opening_word("если"@)
        && is_opening_word("if"@));
}

/// A line taken apart at a given place is a meta tag exactly when it begins with a
/// commercial at, has a name up to the place, white space there and something behind it.
pub proof fn law_tag_parts(body: Seq<char>, i: int)
    ensures
        tag_parts(body, i) is Some <==> 1 < i < body.len() && body[0] == '@' && is_space(body[i])
            && trimmed(body.skip(i)).len() > 0,
        tag_parts(body, i) matches Some((name, value)) ==> name == body.subrange(1, i) && value
            == trimmed(body.skip(i)),
{
}

} // verus!
