//! Data composition schemas: the texts of their queries.
//!
//! Every `query` element counts, at whatever depth it stands. Its text is kept as it
//! is in the file, leading line feeds included, so that lines inside the text count
//! from the line where the text begins.

use vstd::prelude::*;
use vstd::utf8::encode_utf8;

use super::error::{XmlError, XmlPart};
use super::reader::{
    buffer_position, ending, is_reading, line_at, line_number, local, local_name, lossy, lossy_text,
    open_reader, pending, plain_text, read_event, read_text, tags_opened, xml_reads, EventModel, XmlEvent,
    XmlRead,
};
use crate::text::{contains_part, has_part, same_text};

verus! {

/// Whether the beginning of a file looks like a data composition schema.
pub fn is_dcs_template(head: &str) -> (r: bool)
    ensures
        r == has_part(head@, "<DataCompositionSchema"@),
{
    contains_part(head, "<DataCompositionSchema")
}

/// Texts with the numbers of their lines.
pub open spec fn numbered(v: Seq<(usize, String)>) -> Seq<(nat, Seq<char>)> {
    v.map_values(|q: (usize, String)| (q.0 as nat, q.1@))
}

/// Queries with one more piece of text of the open query: a piece of the last entry if
/// that is the entry of the open query, else an entry of its own with the given line.
pub open spec fn glued(
    out: Seq<(nat, Seq<char>)>,
    has_entry: bool,
    line: nat,
    text: Seq<char>,
) -> Seq<(nat, Seq<char>)> {
    if has_entry && out.len() > 0 {
        out.drop_last().push((out.last().0, out.last().1 + text))
    } else {
        out.push((line, text))
    }
}

/// Add a piece of text of the open query. The text of one query can come in several
/// pieces, which make up one entry; `has_entry` tells whether the last entry is that of
/// the open query.
pub fn push_text(out: &mut Vec<(usize, String)>, has_entry: bool, line: usize, text: &str)
    ensures
        numbered(final(out)@) == glued(numbered(old(out)@), has_entry, line as nat, text@),
{
    let ghost before = numbered(out@);
    if has_entry && out.len() > 0 {
        let (l, mut q) = out.pop().unwrap();
        assert(before.last() == (l as nat, q@));
        assert(numbered(out@) == before.drop_last());
        q.append(text);
        let ghost whole = q@;
        out.push((l, q));
        assert(numbered(out@) == before.drop_last().push((l as nat, whole)));
    } else {
        let q = text.to_string();
        out.push((line, q));
        assert(numbered(out@) == before.push((line as nat, text@)));
    }
}

/// A step through a schema.
pub enum QueryStep {
    /// Opening tag: its local name and its line.
    Open(String, usize),
    /// Closing tag.
    Close,
    /// Text.
    Text(String),
    /// Anything else.
    Skip,
}

/// Model of a [`QueryStep`].
pub enum QueryStepModel {
    Open(Seq<char>, nat),
    Close,
    Text(Seq<char>),
    Skip,
}

impl View for QueryStep {
    type V = QueryStepModel;

    open spec fn view(&self) -> QueryStepModel {
        match self {
            QueryStep::Open(name, line) => QueryStepModel::Open(name@, *line as nat),
            QueryStep::Close => QueryStepModel::Close,
            QueryStep::Text(s) => QueryStepModel::Text(s@),
            QueryStep::Skip => QueryStepModel::Skip,
        }
    }
}

/// Queries found so far and the place in the schema.
#[verifier::ext_equal]
pub struct QueriesModel {
    pub out: Seq<(nat, Seq<char>)>,
    /// Line of the open query.
    pub line: Option<nat>,
    /// Number of elements that are open inside the open query.
    pub depth: nat,
    /// Whether the last entry is that of the open query.
    pub has_entry: bool,
}

impl QueriesModel {
    /// Nothing found, no query open.
    pub open spec fn start() -> QueriesModel {
        QueriesModel { out: Seq::empty(), line: None, depth: 0, has_entry: false }
    }

    /// Whether an opening tag of this name opens a query.
    pub open spec fn opens(self, name: Seq<char>) -> bool {
        self.line is None && name == "query"@
    }

    /// One step further.
    pub open spec fn step(self, s: QueryStepModel) -> QueriesModel {
        match s {
            QueryStepModel::Open(name, line) => if self.opens(name) {
                QueriesModel { line: Some(line), depth: 0, has_entry: false, ..self }
            } else if self.line is Some {
                QueriesModel { depth: self.depth + 1, ..self }
            } else {
                self
            },
            QueryStepModel::Close => if self.line is None {
                self
            } else if self.depth == 0 {
                QueriesModel { line: None, has_entry: false, ..self }
            } else {
                QueriesModel { depth: (self.depth - 1) as nat, ..self }
            },
            QueryStepModel::Text(text) => match self.line {
                Some(line) => QueriesModel {
                    out: glued(self.out, self.has_entry, line, text),
                    has_entry: true,
                    ..self
                },
                None => self,
            },
            QueryStepModel::Skip => self,
        }
    }

    /// The first `n` of a run of steps further.
    pub open spec fn run(self, steps: Seq<QueryStepModel>, n: int) -> QueriesModel
        decreases n,
    {
        if n <= 0 {
            self
        } else {
            self.run(steps, n - 1).step(steps[n - 1])
        }
    }
}

/// What a step of the parser means for the queries of a schema.
pub open spec fn query_step(read: XmlRead, bytes: Seq<u8>) -> QueryStepModel {
    match read.event {
        EventModel::Start(name, _) => QueryStepModel::Open(
            local(name),
            line_number(bytes, read.position),
        ),
        EventModel::End(_) => QueryStepModel::Close,
        EventModel::Text(raw) => QueryStepModel::Text(plain_text(raw)),
        EventModel::CData(raw) => QueryStepModel::Text(lossy(raw)),
        _ => QueryStepModel::Skip,
    }
}

/// What the steps of the parser mean for the queries of a schema.
pub open spec fn query_steps(reads: Seq<XmlRead>, bytes: Seq<u8>) -> Seq<QueryStepModel> {
    reads.map_values(|r: XmlRead| query_step(r, bytes))
}

/// Queries of a schema that reads as given.
pub open spec fn schema_queries(reads: Seq<XmlRead>, bytes: Seq<u8>) -> Seq<(nat, Seq<char>)> {
    QueriesModel::start().run(query_steps(reads, bytes), reads.len() - 1).out
}

/// Collects the queries of a schema step by step.
pub struct QueryCollector {
    pub out: Vec<(usize, String)>,
    /// Line of the open query.
    pub line: Option<usize>,
    /// Number of elements that are open inside the open query.
    pub depth: usize,
    /// Whether the last entry is that of the open query.
    pub has_entry: bool,
}

impl View for QueryCollector {
    type V = QueriesModel;

    open spec fn view(&self) -> QueriesModel {
        QueriesModel {
            out: numbered(self.out@),
            line: match self.line {
                Some(line) => Some(line as nat),
                None => None,
            },
            depth: self.depth as nat,
            has_entry: self.has_entry,
        }
    }
}

impl QueryCollector {
    /// Nothing found, no query open.
    pub fn new() -> (r: QueryCollector)
        ensures
            r@ == QueriesModel::start(),
    {
        let r = QueryCollector { out: Vec::new(), line: None, depth: 0, has_entry: false };
        assert(r@ =~= QueriesModel::start());
        r
    }

    /// Whether an opening tag of this name opens a query.
    pub fn opens(&self, name: &str) -> (r: bool)
        ensures
            r == self@.opens(name@),
    {
        self.line.is_none() && same_text(name, "query")
    }

    /// One step further.
    pub fn step(&mut self, s: QueryStep)
        requires
            old(self)@.step(s@).depth <= usize::MAX,
        ensures
            final(self)@ == old(self)@.step(s@),
    {
        match s {
            QueryStep::Open(name, line) => {
                if self.opens(name.as_str()) {
                    self.line = Some(line);
                    self.depth = 0;
                    self.has_entry = false;
                } else if self.line.is_some() {
                    self.depth = self.depth + 1;
                }
            },
            QueryStep::Close => {
                if self.line.is_some() {
                    if self.depth == 0 {
                        self.line = None;
                        self.has_entry = false;
                    } else {
                        self.depth = self.depth - 1;
                    }
                }
            },
            QueryStep::Text(text) => match self.line {
                Some(line) => {
                    push_text(&mut self.out, self.has_entry, line, text.as_str());
                    self.has_entry = true;
                },
                None => {},
            },
            QueryStep::Skip => {},
        }
    }
}

proof fn lemma_depth(m: QueriesModel, steps: Seq<QueryStepModel>, n: int)
    requires
        0 <= n,
    ensures
        m.run(steps, n).depth <= m.depth + n,
    decreases n,
{
    if n > 0 {
        lemma_depth(m, steps, n - 1);
    }
}

/// Queries of a data composition schema: for each the line of the file where its text
/// begins, right behind the opening tag, counted from 1, and the text.
pub fn parse_dcs_queries(content: &str) -> (r: Result<Vec<(usize, String)>, XmlError>)
    ensures
        match r {
            Ok(v) => ending(xml_reads(content@, false)) is None && numbered(v@) == schema_queries(
                xml_reads(content@, false),
                encode_utf8(content@),
            ),
            Err(e) => e.part == XmlPart::Schema && ending(xml_reads(content@, false)) == Some(
                (e.position as nat, e.detail@),
            ),
        },
{
    let ghost reads = xml_reads(content@, false);
    let ghost bytes = encode_utf8(content@);
    let ghost steps = query_steps(reads, bytes);
    let ghost mut n: int = 0;
    let limit: usize = content.as_bytes().len();
    let mut reader = open_reader(content, false);
    let mut state = QueryCollector::new();
    assert(pending(reader) == reads.skip(0));
    loop
        invariant
            0 <= n < reads.len(),
            reads == xml_reads(content@, false),
            bytes == encode_utf8(content@),
            steps == query_steps(reads, bytes),
            limit == bytes.len(),
            reads.len() <= limit + 1,
            is_reading(reads),
            tags_opened(reads, bytes),
            pending(reader) == reads.skip(n),
            state@ == QueriesModel::start().run(steps, n),
        decreases reads.len() - n,
    {
        let event = read_event(&mut reader);
        let ghost read = reads[n];
        assert(event@ == read.event);
        let position: u64 = buffer_position(&reader);
        let step = match event {
            XmlEvent::Start(name, _) => {
                let tag = local_name(name.as_slice());
                if state.opens(tag.as_str()) {
                    QueryStep::Open(tag, line_at(content, position))
                } else {
                    QueryStep::Open(tag, 0)
                }
            },
            XmlEvent::End(_) => QueryStep::Close,
            XmlEvent::Text(raw) => QueryStep::Text(read_text(raw.as_slice())),
            XmlEvent::CData(raw) => QueryStep::Text(lossy_text(raw.as_slice())),
            XmlEvent::Other => QueryStep::Skip,
            XmlEvent::Eof => {
                assert(n == reads.len() - 1);
                return Ok(state.out);
            },
            XmlEvent::Failed(detail) => {
                assert(n == reads.len() - 1);
                return Err(XmlError { part: XmlPart::Schema, position, detail });
            },
        };
        proof {
            lemma_depth(QueriesModel::start(), steps, n);
            assert(steps[n] == query_step(read, bytes));
            assert(state@.step(step@) == state@.step(steps[n]));
            assert(pending(reader) == reads.skip(n + 1));
        }
        state.step(step);
        proof {
            n = n + 1;
        }
    }
}

/// Opening tags minus closing tags among the first `n` steps.
pub open spec fn query_level(steps: Seq<QueryStepModel>, n: int) -> int
    decreases n,
{
    if n <= 0 {
        0
    } else {
        match steps[n - 1] {
            QueryStepModel::Open(_, _) => query_level(steps, n - 1) + 1,
            QueryStepModel::Close => query_level(steps, n - 1) - 1,
            _ => query_level(steps, n - 1),
        }
    }
}

/// Pieces of text as steps.
pub open spec fn text_steps(pieces: Seq<Seq<char>>) -> Seq<QueryStepModel> {
    pieces.map_values(|p: Seq<char>| QueryStepModel::Text(p))
}

/// An open query stays open over the elements inside it: it is closed by its own
/// closing tag and by no other.
pub proof fn law_query_stays_open(m: QueriesModel, steps: Seq<QueryStepModel>, n: int)
    requires
        0 <= n <= steps.len(),
        m.line is Some,
        forall|k: int| 0 <= k <= n ==> #[trigger] query_level(steps, k) + m.depth >= 0,
    ensures
        m.run(steps, n).line == m.line,
        m.run(steps, n).depth == m.depth + query_level(steps, n),
    decreases n,
{
    if n > 0 {
        assert forall|k: int| 0 <= k <= n - 1 implies #[trigger] query_level(steps, k) + m.depth
            >= 0 by {}
        assert(query_level(steps, n) + m.depth >= 0);
        law_query_stays_open(m, steps, n - 1);
    }
}

/// Outside a query nothing but the opening tag of a query counts.
pub proof fn law_outside_is_ignored(m: QueriesModel, s: QueryStepModel)
    requires
        m.line is None,
        s matches QueryStepModel::Open(name, _) ==> name != "query"@,
    ensures
        m.step(s) == m,
{
}

/// Number of entries that cannot grow any more: all but that of the open query.
pub open spec fn settled(m: QueriesModel) -> int {
    if m.has_entry {
        m.out.len() - 1
    } else {
        m.out.len() as int
    }
}

/// Queries that were found stay found; only that of the open query can still grow.
pub proof fn law_queries_stay(m: QueriesModel, steps: Seq<QueryStepModel>, n: int)
    requires
        0 <= n <= steps.len(),
    ensures
        m.out.len() <= m.run(steps, n).out.len(),
        settled(m) <= settled(m.run(steps, n)),
        forall|k: int| 0 <= k < settled(m) ==> #[trigger] m.run(steps, n).out[k] == m.out[k],
    decreases n,
{
    if n > 0 {
        law_queries_stay(m, steps, n - 1);
    }
}

proof fn lemma_pieces(m: QueriesModel, pieces: Seq<Seq<char>>, line: nat, n: int)
    requires
        m.line == Some(line),
        !m.has_entry,
        0 < n <= pieces.len(),
    ensures
        m.run(text_steps(pieces), n) == (QueriesModel {
            out: m.out.push((line, pieces.take(n).flatten())),
            has_entry: true,
            ..m
        }),
    decreases n,
{
    let steps = text_steps(pieces);
    assert(steps[n - 1] == QueryStepModel::Text(pieces[n - 1]));
    assert(pieces.take(n) == pieces.take(n - 1).push(pieces[n - 1]));
    pieces.take(n - 1).lemma_flatten_push(pieces[n - 1]);
    if n == 1 {
        assert(m.run(steps, 0) == m);
        assert(pieces.take(0).flatten() == Seq::<char>::empty());
        assert(pieces.take(1).flatten() == pieces[0]);
    } else {
        lemma_pieces(m, pieces, line, n - 1);
        let before = m.run(steps, n - 1);
        assert(before.out.drop_last() == m.out);
        assert(before.out.last().1 + pieces[n - 1] == pieces.take(n).flatten());
    }
}

/// A query element gives one entry of its own: the line where its text begins and all
/// pieces of the text in a row. Afterwards no query is open.
pub proof fn law_query_element(m: QueriesModel, line: nat, pieces: Seq<Seq<char>>)
    requires
        m.line is None,
        pieces.len() > 0,
    ensures
        m.step(QueryStepModel::Open("query"@, line)).run(
            text_steps(pieces),
            pieces.len() as int,
        ).step(QueryStepModel::Close) == (QueriesModel {
            out: m.out.push((line, pieces.flatten())),
            line: None,
            depth: 0,
            has_entry: false,
        }),
{
    let open = m.step(QueryStepModel::Open("query"@, line));
    lemma_pieces(open, pieces, line, pieces.len() as int);
    assert(pieces.take(pieces.len() as int) == pieces);
}

/// Text inside a query belongs to it at whatever depth it stands: it goes behind the text
/// that the query has already, or begins its entry with the line of the query.
pub proof fn law_text_inside_a_query(m: QueriesModel, line: nat, text: Seq<char>)
    requires
        m.line == Some(line),
        m.has_entry ==> m.out.len() > 0,
    ensures
        ({
            let a = m.step(QueryStepModel::Text(text));
            &&& a.line == m.line && a.depth == m.depth
            &&& m.has_entry ==> a.out == m.out.update(
                m.out.len() - 1,
                (m.out.last().0, m.out.last().1 + text),
            )
            &&& !m.has_entry ==> a.out == m.out.push((line, text))
            &&& a.has_entry
        }),
        m.step(QueryStepModel::Skip) == m,
{
    let a = m.step(QueryStepModel::Text(text));
    if m.has_entry {
        assert(a.out =~= m.out.update(m.out.len() - 1, (m.out.last().0, m.out.last().1 + text)));
    }
}

/// An element inside a query leaves the text of the query as it was: what stands before,
/// inside and behind the element makes up one text, even if the element is named like a
/// query.
pub proof fn law_element_inside_a_query(
    m: QueriesModel,
    line: nat,
    tag: Seq<char>,
    l: nat,
    a: Seq<char>,
    b: Seq<char>,
    c: Seq<char>,
)
    requires
        m.line is None,
    ensures
        m.step(QueryStepModel::Open("query"@, line)).step(QueryStepModel::Text(a)).step(
            QueryStepModel::Open(tag, l),
        ).step(QueryStepModel::Text(b)).step(QueryStepModel::Close).step(
            QueryStepModel::Text(c),
        ).step(QueryStepModel::Close).out == m.out.push((line, a + b + c)),
{
    let s = m.step(QueryStepModel::Open("query"@, line)).step(QueryStepModel::Text(a));
    assert(s.out == m.out.push((line, a)));
    let t = s.step(QueryStepModel::Open(tag, l)).step(QueryStepModel::Text(b));
    assert(t.out =~= m.out.push((line, a + b)));
    let u = t.step(QueryStepModel::Close).step(QueryStepModel::Text(c));
    assert(u.out =~= m.out.push((line, a + b + c)));
}

/// A query element without text has no entry.
pub proof fn law_empty_query(m: QueriesModel, line: nat)
    requires
        m.line is None,
        !m.has_entry,
    ensures
        m.step(QueryStepModel::Open("query"@, line)).step(QueryStepModel::Close).out == m.out,
        m.step(QueryStepModel::Open("query"@, line)).step(QueryStepModel::Close).line is None,
{
}

/// What the parser reads is what the schema is made of, from the first step to the last
/// before the end: opening tags by their local names with the line of the position behind
/// them, closing tags, texts in the form that escapes stand for, character data as it is.
/// Anything else is passed over.
pub proof fn law_query_steps(reads: Seq<XmlRead>, last: XmlRead, bytes: Seq<u8>, k: int)
    requires
        0 <= k < reads.len(),
    ensures
        query_steps(reads, bytes).len() == reads.len(),
        match reads[k].event {
            EventModel::Start(name, _) => query_steps(reads, bytes)[k] == QueryStepModel::Open(
                local(name),
                line_number(bytes, reads[k].position),
            ),
            EventModel::End(_) => query_steps(reads, bytes)[k] == QueryStepModel::Close,
            EventModel::Text(raw) => query_steps(reads, bytes)[k] == QueryStepModel::Text(
                plain_text(raw),
            ),
            EventModel::CData(raw) => query_steps(reads, bytes)[k] == QueryStepModel::Text(
                lossy(raw),
            ),
            _ => query_steps(reads, bytes)[k] == QueryStepModel::Skip,
        },
        QueriesModel::start().out.len() == 0,
        QueriesModel::start().line is None,
        !QueriesModel::start().has_entry,
        schema_queries(reads.push(last), bytes) == QueriesModel::start().run(
            query_steps(reads, bytes),
            reads.len() as int,
        ).out,
{
    lemma_query_run(
        QueriesModel::start(),
        query_steps(reads.push(last), bytes),
        query_steps(reads, bytes),
        reads.len() as int,
    );
}

proof fn lemma_query_run(
    m: QueriesModel,
    x: Seq<QueryStepModel>,
    y: Seq<QueryStepModel>,
    n: int,
)
    requires
        0 <= n <= y.len(),
        n <= x.len(),
        forall|k: int| 0 <= k < n ==> #[trigger] x[k] == y[k],
    ensures
        m.run(x, n) == m.run(y, n),
    decreases n,
{
    if n > 0 {
        lemma_query_run(m, x, y, n - 1);
        assert(x[n - 1] == y[n - 1]);
    }
}

/// Steps are made one after the other: what comes of two runs is what the second makes of
/// what the first has left.
pub proof fn law_queries_in_order(m: QueriesModel, x: Seq<QueryStepModel>, s: QueryStepModel)
    ensures
        m.run(x, 0) == m,
        m.run(x.push(s), x.len() as int + 1) == m.run(x, x.len() as int).step(s),
{
    lemma_query_run(m, x.push(s), x, x.len() as int);
}

} // verus!
