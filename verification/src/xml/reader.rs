//! Reading XML: what the pull parser yields, and what the library makes of it.
//!
//! The parser itself is the outside crate `quick_xml`. Names and texts come as bytes;
//! decoding, unescaping and the choice of attributes happen here.

use quick_xml::events::Event;
use vstd::prelude::*;
use vstd::slice::slice_subrange;
use vstd::utf8::{
    decode_utf8, encode_utf8, encode_utf8_decode_utf8, encode_utf8_valid_utf8, valid_utf8,
};

use crate::text::{chars_of, find_char, position_of, same_text, text_of};

verus! {

/// A pull parser over a text.
#[verifier::external_type_specification]
#[verifier::external_body]
#[verifier::reject_recursive_types(R)]
pub struct ExReader<R>(quick_xml::Reader<R>);

/// One step of the pull parser.
pub enum XmlEvent {
    /// Opening tag: its name, and the keys and raw values of its attributes.
    Start(Vec<u8>, Vec<(Vec<u8>, Vec<u8>)>),
    /// Closing tag: its name.
    End(Vec<u8>),
    /// Raw text between tags.
    Text(Vec<u8>),
    /// Content of a `CDATA` section.
    CData(Vec<u8>),
    /// Anything else: an empty element, a comment, a declaration.
    Other,
    /// End of the text.
    Eof,
    /// The text is no XML; the parser's own words.
    Failed(String),
}

/// Model of an [`XmlEvent`].
pub enum EventModel {
    Start(Seq<u8>, Seq<(Seq<u8>, Seq<u8>)>),
    End(Seq<u8>),
    Text(Seq<u8>),
    CData(Seq<u8>),
    Other,
    Eof,
    Failed(Seq<char>),
}

/// Keys and values of attributes.
pub open spec fn attributes(v: Seq<(Vec<u8>, Vec<u8>)>) -> Seq<(Seq<u8>, Seq<u8>)> {
    v.map_values(|a: (Vec<u8>, Vec<u8>)| (a.0@, a.1@))
}

impl View for XmlEvent {
    type V = EventModel;

    open spec fn view(&self) -> EventModel {
        match self {
            XmlEvent::Start(name, list) => EventModel::Start(name@, attributes(list@)),
            XmlEvent::End(name) => EventModel::End(name@),
            XmlEvent::Text(raw) => EventModel::Text(raw@),
            XmlEvent::CData(raw) => EventModel::CData(raw@),
            XmlEvent::Other => EventModel::Other,
            XmlEvent::Eof => EventModel::Eof,
            XmlEvent::Failed(detail) => EventModel::Failed(detail@),
        }
    }
}

impl EventModel {
    /// Whether nothing is read after this event.
    pub open spec fn is_terminal(self) -> bool {
        self is Eof || self is Failed
    }
}

/// One step of the pull parser together with the position right after it.
pub struct XmlRead {
    pub event: EventModel,
    pub position: nat,
}

/// Steps that end with the first end of text or failure.
pub open spec fn is_reading(s: Seq<XmlRead>) -> bool {
    &&& s.len() > 0
    &&& s.last().event.is_terminal()
    &&& forall|k: int| 0 <= k < s.len() - 1 ==> !(#[trigger] s[k]).event.is_terminal()
}

/// How reading ended: nothing at the end of the text, else the position of the failure
/// and the parser's words about it.
pub open spec fn ending(s: Seq<XmlRead>) -> Option<(nat, Seq<char>)> {
    match s.last().event {
        EventModel::Failed(detail) => Some((s.last().position, detail)),
        _ => None,
    }
}

/// Every opening tag comes from a `<` of the text.
pub open spec fn tags_opened(s: Seq<XmlRead>, bytes: Seq<u8>) -> bool {
    forall|k: int| 0 <= k < s.len() && (#[trigger] s[k]).event is Start ==> bytes.contains(60u8)
}

/// Steps of a parser made by `quick_xml::Reader::from_str` for a text, with
/// `trim_text` set as given, up to and with the first end of text or failure.
pub uninterp spec fn xml_reads(content: Seq<char>, trim: bool) -> Seq<XmlRead>;

/// Steps that a parser has not made yet, up to and with the first end of text or
/// failure.
pub uninterp spec fn pending(reader: quick_xml::Reader<&[u8]>) -> Seq<XmlRead>;

/// Position of a parser in its text.
pub uninterp spec fn reader_position(reader: quick_xml::Reader<&[u8]>) -> nat;

/// `quick_xml::Reader::from_str`, with `Config::trim_text` set for it.
///
/// Nothing is read yet. Each step that is neither the end of the text nor a failure
/// consumes at least one byte, so the steps come to an end, and there are no more of
/// them than bytes, plus one. An opening tag begins with `<`.
#[verifier::external_body]
pub(crate) fn open_reader<'a>(content: &'a str, trim: bool) -> (r: quick_xml::Reader<&'a [u8]>)
    ensures
        pending(r) == xml_reads(content@, trim),
        is_reading(pending(r)),
        pending(r).len() <= encode_utf8(content@).len() + 1,
        tags_opened(pending(r), encode_utf8(content@)),
{
    let mut reader = quick_xml::Reader::from_str(content);
    reader.config_mut().trim_text(trim);
    reader
}

/// `quick_xml::Reader::read_event_into`: makes one step and moves the position.
/// Attributes that the parser cannot read are left out, repeated ones are kept.
#[verifier::external_body]
pub(crate) fn read_event(reader: &mut quick_xml::Reader<&[u8]>) -> (r: XmlEvent)
    requires
        pending(*old(reader)).len() > 0,
    ensures
        r@ == pending(*old(reader))[0].event,
        reader_position(*final(reader)) == pending(*old(reader))[0].position,
        pending(*final(reader)) == pending(*old(reader)).drop_first(),
{
    match reader.read_event_into(&mut Vec::new()) {
        Ok(Event::Start(e)) => XmlEvent::Start(
            e.name().0.to_vec(),
            e.attributes().with_checks(false).flatten()
                .map(|a| (a.key.0.to_vec(), a.value.to_vec())).collect(),
        ),
        Ok(Event::End(e)) => XmlEvent::End(e.name().0.to_vec()),
        Ok(Event::Text(t)) => XmlEvent::Text(t.to_vec()),
        Ok(Event::CData(c)) => XmlEvent::CData(c.to_vec()),
        Ok(Event::Eof) => XmlEvent::Eof,
        Ok(_) => XmlEvent::Other,
        Err(e) => XmlEvent::Failed(e.to_string()),
    }
}

/// `quick_xml::Reader::buffer_position`.
#[verifier::external_body]
pub(crate) fn buffer_position(reader: &quick_xml::Reader<&[u8]>) -> (r: u64)
    ensures
        r == reader_position(*reader),
{
    reader.buffer_position()
}

/// Text that `String::from_utf8_lossy` makes of bytes.
pub uninterp spec fn lossy(bytes: Seq<u8>) -> Seq<char>;

/// `String::from_utf8_lossy`: the text of valid UTF-8; what comes of other bytes only
/// has a name.
#[verifier::external_body]
pub(crate) fn lossy_text(bytes: &[u8]) -> (r: String)
    ensures
        r@ == lossy(bytes@),
        forall|s: Seq<char>| #[trigger] encode_utf8(s) == bytes@ ==> r@ == s,
{
    String::from_utf8_lossy(bytes).into_owned()
}

/// `std::str::from_utf8`: the text of valid UTF-8, nothing for other bytes.
#[verifier::external_body]
pub(crate) fn utf8_text(bytes: &[u8]) -> (r: Option<String>)
    ensures
        match r {
            Some(s) => encode_utf8(s@) == bytes@,
            None => !valid_utf8(bytes@),
        },
{
    std::str::from_utf8(bytes).ok().map(|s| s.to_string())
}

/// Text that `quick_xml::escape::unescape` gives, nothing where it fails.
pub uninterp spec fn xml_unescaped(raw: Seq<char>) -> Option<Seq<char>>;

/// `quick_xml::escape::unescape`: entities and character references replaced. A text
/// without `&` holds none and comes back as it is.
#[verifier::external_body]
pub(crate) fn unescape(raw: &str) -> (r: Option<String>)
    ensures
        match r {
            Some(s) => xml_unescaped(raw@) == Some(s@),
            None => xml_unescaped(raw@) is None,
        },
        !raw@.contains('&') ==> r is Some && r->0@ == raw@,
{
    quick_xml::escape::unescape(raw).ok().map(|s| s.into_owned())
}

/// Text that raw bytes stand for: empty where they are no UTF-8 or cannot be
/// unescaped.
pub open spec fn plain_text(raw: Seq<u8>) -> Seq<char> {
    if valid_utf8(raw) {
        match xml_unescaped(decode_utf8(raw)) {
            Some(s) => s,
            None => Seq::empty(),
        }
    } else {
        Seq::empty()
    }
}

/// Name without its namespace prefix.
pub open spec fn without_prefix(s: Seq<char>) -> Seq<char> {
    let i = find_char(s, ':', 0);
    if i < s.len() {
        s.skip(i + 1)
    } else {
        s
    }
}

/// Local name of a tag or an attribute.
pub open spec fn local(name: Seq<u8>) -> Seq<char> {
    without_prefix(lossy(name))
}

/// Value of the first attribute `name` at or after position `i`.
pub open spec fn first_name(list: Seq<(Seq<u8>, Seq<u8>)>, i: int) -> Option<Seq<char>>
    decreases list.len() - i,
{
    if i < 0 || i >= list.len() {
        None
    } else if local(list[i].0) == "name"@ {
        Some(plain_text(list[i].1))
    } else {
        first_name(list, i + 1)
    }
}

/// Value of the last attribute `name` before position `j`.
pub open spec fn last_name(list: Seq<(Seq<u8>, Seq<u8>)>, j: int) -> Option<Seq<char>>
    decreases j,
{
    if j <= 0 || j > list.len() {
        None
    } else if local(list[j - 1].0) == "name"@ {
        Some(plain_text(list[j - 1].1))
    } else {
        last_name(list, j - 1)
    }
}

/// Text that raw bytes stand for.
pub(crate) fn read_text(raw: &[u8]) -> (r: String)
    ensures
        r@ == plain_text(raw@),
        forall|s: Seq<char>|
            #[trigger] encode_utf8(s) == raw@ && !s.contains('&') ==> r@ == s,
{
    broadcast use {encode_utf8_decode_utf8, encode_utf8_valid_utf8};

    match utf8_text(raw) {
        Some(s) => match unescape(s.as_str()) {
            Some(t) => t,
            None => String::new(),
        },
        None => String::new(),
    }
}

/// Name without its namespace prefix.
pub fn strip_prefix(s: &str) -> (r: String)
    ensures
        r@ == without_prefix(s@),
{
    let v = chars_of(s);
    let chars = v.as_slice();
    let i: usize = position_of(chars, ':', 0);
    if i < chars.len() {
        text_of(slice_subrange(chars, i + 1, chars.len()))
    } else {
        text_of(chars)
    }
}

/// Local name of a tag or an attribute.
pub(crate) fn local_name(name: &[u8]) -> (r: String)
    ensures
        r@ == local(name@),
{
    strip_prefix(lossy_text(name).as_str())
}

/// Value of the first attribute `name`.
pub(crate) fn attr_name(list: &Vec<(Vec<u8>, Vec<u8>)>) -> (r: Option<String>)
    ensures
        match r {
            Some(s) => first_name(attributes(list@), 0) == Some(s@),
            None => first_name(attributes(list@), 0) is None,
        },
{
    let ghost m = attributes(list@);
    let n: usize = list.len();
    let mut i: usize = 0;
    while i < n
        invariant
            i <= n,
            n == list@.len(),
            m == attributes(list@),
            first_name(m, 0) == first_name(m, i as int),
        decreases n - i,
    {
        assert(m[i as int] == (list@[i as int].0@, list@[i as int].1@));
        if same_text(local_name(list[i].0.as_slice()).as_str(), "name") {
            return Some(read_text(list[i].1.as_slice()));
        }
        i = i + 1;
    }
    None
}

/// Value of the last attribute `name`.
pub(crate) fn last_attr_name(list: &Vec<(Vec<u8>, Vec<u8>)>) -> (r: Option<String>)
    ensures
        match r {
            Some(s) => last_name(attributes(list@), list@.len() as int) == Some(s@),
            None => last_name(attributes(list@), list@.len() as int) is None,
        },
{
    let ghost m = attributes(list@);
    let n: usize = list.len();
    let mut j: usize = n;
    while j > 0
        invariant
            j <= n,
            n == list@.len(),
            m == attributes(list@),
            last_name(m, n as int) == last_name(m, j as int),
        decreases j,
    {
        assert(m[j - 1] == (list@[j - 1].0@, list@[j - 1].1@));
        if same_text(local_name(list[j - 1].0.as_slice()).as_str(), "name") {
            return Some(read_text(list[j - 1].1.as_slice()));
        }
        j = j - 1;
    }
    None
}

/// Line feeds among the first `n` bytes.
pub open spec fn line_feeds(bytes: Seq<u8>, n: int) -> nat
    decreases n,
{
    if n <= 0 || n > bytes.len() {
        0
    } else if bytes[n - 1] == 10u8 {
        line_feeds(bytes, n - 1) + 1
    } else {
        line_feeds(bytes, n - 1)
    }
}

/// Length of the byte order mark at the start of a text, 0 without one.
pub open spec fn mark_length(bytes: Seq<u8>) -> nat {
    if bytes.len() >= 3 && bytes[0] == 0xef && bytes[1] == 0xbb && bytes[2] == 0xbf {
        3
    } else {
        0
    }
}

/// Number, counted from 1, of the line that holds a position; positions behind the end
/// count as the end. The parser takes a byte order mark away without counting it, so
/// positions are counted from behind the mark.
pub open spec fn line_number(bytes: Seq<u8>, pos: nat) -> nat {
    let end = mark_length(bytes) + pos;
    line_feeds(bytes, if end <= bytes.len() { end as int } else { bytes.len() as int }) + 1
}

proof fn lemma_line_feeds(bytes: Seq<u8>, n: int)
    requires
        0 <= n <= bytes.len(),
    ensures
        line_feeds(bytes, n) <= n,
    decreases n,
{
    if n > 0 {
        lemma_line_feeds(bytes, n - 1);
    }
}

proof fn lemma_line_feeds_below(bytes: Seq<u8>, n: int, k: int)
    requires
        0 <= n <= bytes.len(),
        0 <= k < bytes.len(),
        bytes[k] != 10u8,
    ensures
        line_feeds(bytes, n) < bytes.len(),
    decreases n,
{
    lemma_line_feeds(bytes, n);
    if n == bytes.len() {
        if k == n - 1 {
            lemma_line_feeds(bytes, n - 1);
        } else {
            lemma_line_feeds_before(bytes, n, k);
        }
    }
}

proof fn lemma_line_feeds_before(bytes: Seq<u8>, n: int, k: int)
    requires
        0 <= k < n <= bytes.len(),
        bytes[k] != 10u8,
    ensures
        line_feeds(bytes, n) < n,
    decreases n,
{
    if k < n - 1 {
        lemma_line_feeds_before(bytes, n - 1, k);
    } else {
        lemma_line_feeds(bytes, n - 1);
    }
}

/// Number, counted from 1, of the line that holds position `pos` of a text that has a tag
/// in it.
pub(crate) fn line_at(content: &str, pos: u64) -> (r: usize)
    requires
        encode_utf8(content@).contains(60u8),
    ensures
        r == line_number(encode_utf8(content@), pos as nat),
{
    let bytes = content.as_bytes();
    let ghost b = encode_utf8(content@);
    let n: usize = bytes.len();
    let mark: usize = if n >= 3 && bytes[0] == 0xef && bytes[1] == 0xbb && bytes[2] == 0xbf {
        3
    } else {
        0
    };
    let mut i: usize = 0;
    let mut line: usize = 1;
    while i < n && (i < mark || ((i - mark) as u64) < pos)
        invariant
            i <= n,
            n == bytes@.len(),
            bytes@ == b,
            mark == mark_length(b),
            mark <= n,
            i <= mark + pos,
            line == line_feeds(b, i as int) + 1,
            b.contains(60u8),
        decreases n - i,
    {
        proof {
            let k = choose|k: int| 0 <= k < b.len() && b[k] == 60u8;
            lemma_line_feeds_below(b, i + 1, k);
        }
        if bytes[i] == 10u8 {
            line = line + 1;
        }
        i = i + 1;
    }
    line
}

/// A name loses all up to its first colon, a name without one stays as it is.
pub proof fn law_prefix_is_dropped(prefix: Seq<char>, name: Seq<char>)
    requires
        !prefix.contains(':'),
    ensures
        without_prefix(prefix + seq![':'] + name) == name,
        without_prefix(prefix) == prefix,
{
    let s = prefix + seq![':'] + name;
    let n = prefix.len() as int;
    assert forall|k: int| 0 <= k < n implies #[trigger] s[k] != ':' && prefix[k] != ':' by {
        assert(s[k] == prefix[k]);
        assert(prefix.contains(prefix[k]));
    }
    assert(s[n] == ':');
    lemma_colon_at(s, 0, n);
    lemma_colon_at(prefix, 0, n);
    assert(s.skip(n + 1) =~= name);
}

proof fn lemma_colon_at(s: Seq<char>, i: int, j: int)
    requires
        0 <= i <= j <= s.len(),
        forall|k: int| i <= k < j ==> #[trigger] s[k] != ':',
        j < s.len() ==> s[j] == ':',
    ensures
        find_char(s, ':', i) == j,
    decreases j - i,
{
    if i < j {
        assert(s[i] != ':');
        lemma_colon_at(s, i + 1, j);
    }
}

/// Of several attributes `name` the first is taken for references and the last for events,
/// whatever their namespaces; without one there is no name.
pub proof fn law_attribute_name(list: Seq<(Seq<u8>, Seq<u8>)>, k: int)
    requires
        0 <= k < list.len(),
        without_prefix(lossy(list[k].0)) == "name"@,
    ensures
        (forall|j: int|
            0 <= j < k ==> without_prefix(lossy((#[trigger] list[j]).0)) != "name"@)
            ==> first_name(list, 0) == Some(plain_text(list[k].1)),
        (forall|j: int|
            k < j < list.len() ==> without_prefix(lossy((#[trigger] list[j]).0)) != "name"@)
            ==> last_name(list, list.len() as int) == Some(plain_text(list[k].1)),
{
    if forall|j: int| 0 <= j < k ==> without_prefix(lossy((#[trigger] list[j]).0)) != "name"@ {
        lemma_first_name(list, 0, k);
    }
    if forall|j: int|
        k < j < list.len() ==> without_prefix(lossy((#[trigger] list[j]).0)) != "name"@ {
        lemma_last_name(list, k, list.len() as int);
    }
}

/// A tag without an attribute `name` has no name.
pub proof fn law_tag_without_name(list: Seq<(Seq<u8>, Seq<u8>)>)
    requires
        forall|j: int|
            0 <= j < list.len() ==> without_prefix(lossy((#[trigger] list[j]).0)) != "name"@,
    ensures
        first_name(list, 0) is None,
        last_name(list, list.len() as int) is None,
{
    lemma_first_name(list, 0, list.len() as int);
    lemma_last_name(list, -1, list.len() as int);
}

proof fn lemma_first_name(list: Seq<(Seq<u8>, Seq<u8>)>, i: int, k: int)
    requires
        0 <= i <= k <= list.len(),
        k < list.len() ==> without_prefix(lossy(list[k].0)) == "name"@,
        forall|j: int|
            i <= j < k ==> without_prefix(lossy((#[trigger] list[j]).0)) != "name"@,
    ensures
        first_name(list, i) == if k < list.len() {
            Some(plain_text(list[k].1))
        } else {
            None
        },
    decreases k - i,
{
    if i < k {
        assert(without_prefix(lossy(list[i].0)) != "name"@);
        lemma_first_name(list, i + 1, k);
    }
}

proof fn lemma_last_name(list: Seq<(Seq<u8>, Seq<u8>)>, k: int, n: int)
    requires
        -1 <= k < n <= list.len() || (k == -1 && n == 0),
        k >= 0 ==> without_prefix(lossy(list[k].0)) == "name"@,
        forall|j: int|
            k < j < n ==> without_prefix(lossy((#[trigger] list[j]).0)) != "name"@,
    ensures
        last_name(list, n) == if k >= 0 {
            Some(plain_text(list[k].1))
        } else {
            None
        },
    decreases n - k,
{
    if k < n - 1 {
        assert(without_prefix(lossy(list[n - 1].0)) != "name"@);
        lemma_last_name(list, k, n - 1);
    }
}

/// The line of a position is the number of line feeds before it, and one. A byte order mark
/// before the text does not count, neither as bytes nor as lines.
pub proof fn law_line_of_position(before: Seq<u8>, behind: Seq<u8>)
    ensures
        !seq![0xefu8, 0xbbu8, 0xbfu8].is_prefix_of(before + behind) ==> line_number(
            before + behind,
            before.len(),
        ) == before.filter(|b: u8| b == 10).len() + 1,
        line_number(seq![0xefu8, 0xbbu8, 0xbfu8] + before + behind, before.len())
            == before.filter(|b: u8| b == 10).len() + 1,
{
    let s = before + behind;
    let n = before.len() as int;
    lemma_feeds_filter(s, n);
    assert(s.take(n) =~= before);
    if mark_length(s) > 0 {
        assert(s.take(3) =~= seq![0xefu8, 0xbbu8, 0xbfu8]);
    }
    let mark = seq![0xefu8, 0xbbu8, 0xbfu8];
    let t = mark + before + behind;
    assert(t[0] == 0xef && t[1] == 0xbb && t[2] == 0xbf);
    lemma_feeds_filter(t, n + 3);
    assert(t.take(n + 3) =~= mark + before);
    lemma_filter_behind(mark, before);
}

proof fn lemma_feeds_filter(bytes: Seq<u8>, n: int)
    requires
        0 <= n <= bytes.len(),
    ensures
        line_feeds(bytes, n) == bytes.take(n).filter(|b: u8| b == 10).len(),
    decreases n,
{
    reveal(Seq::filter);
    if n > 0 {
        lemma_feeds_filter(bytes, n - 1);
        assert(bytes.take(n).drop_last() =~= bytes.take(n - 1));
        assert(bytes.take(n).last() == bytes[n - 1]);
    } else {
        assert(bytes.take(0).len() == 0);
    }
}

proof fn lemma_filter_behind(mark: Seq<u8>, s: Seq<u8>)
    requires
        mark == seq![0xefu8, 0xbbu8, 0xbfu8],
    ensures
        (mark + s).filter(|b: u8| b == 10).len() == s.filter(|b: u8| b == 10).len(),
    decreases s.len(),
{
    reveal(Seq::filter);
    if s.len() > 0 {
        lemma_filter_behind(mark, s.drop_last());
        assert((mark + s).drop_last() =~= mark + s.drop_last());
        assert((mark + s).last() == s.last());
    } else {
        assert(mark + s =~= mark);
        assert(mark.drop_last() =~= seq![0xefu8, 0xbbu8]);
        assert(mark.drop_last().drop_last() =~= seq![0xefu8]);
        assert(mark.drop_last().drop_last().drop_last() =~= Seq::empty());
        reveal_with_fuel(Seq::filter, 5);
    }
}

/// Raw text that is no UTF-8, or that cannot be unescaped, stands for nothing.
pub proof fn law_plain_text(raw: Seq<u8>)
    ensures
        !valid_utf8(raw) ==> plain_text(raw).len() == 0,
        valid_utf8(raw) && xml_unescaped(decode_utf8(raw)) is None ==> plain_text(raw).len() == 0,
        valid_utf8(raw) && xml_unescaped(decode_utf8(raw)) is Some ==> plain_text(raw)
            == xml_unescaped(decode_utf8(raw))->0,
{
}

/// Reading ends well exactly when the parser comes to the end of the text; else the failure
/// keeps its place and its words.
pub proof fn law_ending(s: Seq<XmlRead>)
    requires
        is_reading(s),
    ensures
        ending(s) is None <==> s.last().event is Eof,
        s.last().event matches EventModel::Failed(detail) ==> ending(s) == Some(
            (s.last().position, detail),
        ),
{
}

} // verus!
