//! References of managed forms to the objects of a configuration.
//!
//! The types of attributes, parameters and table columns of a form, the main table of
//! a dynamic list and its hand-written query all refer to objects that neither the
//! file of the owner nor a module mentions.

use vstd::prelude::*;
use vstd::slice::slice_subrange;
use vstd::utf8::encode_utf8;

use super::dcs::{glued, numbered, push_text};
use super::error::{XmlError, XmlPart};
use super::file::{file_text, text_of_file, FileError, FormFile};
use super::forms::{maybe_text, named};
use super::reader::{
    attr_name, buffer_position, ending, first_name, is_reading, line_at, line_number, local,
    local_name, lossy, lossy_text, open_reader, pending, plain_text, read_event, read_text,
    tags_opened, xml_reads, EventModel, XmlEvent, XmlRead,
};
use crate::text::{
    all_space, begins_with, chars_of, ends_with, find_char, has_char, is_space, is_trim,
    law_trimmed, lemma_find_char, lemma_space_end, lemma_space_start, position_of, same_text,
    space_end, space_start, text_of, texts, trim, trim_start, trim_text, trimmed,
};

verus! {

/// Kinds of the edges that forms give rise to.
pub const FORM_LINK_KINDS: [&'static str; 3] = ["form_attr", "form_param", "form_main_table"];

/// Head of a type without a suffix, unless nothing is left then.
pub open spec fn without_suffix(head: Seq<char>, suffix: Seq<char>) -> Option<Seq<char>> {
    if suffix.is_suffix_of(head) && suffix.len() < head.len() {
        Some(head.take(head.len() - suffix.len()))
    } else {
        None
    }
}

/// Kind of object that the head of an object type speaks of, nothing for another type.
/// Long suffixes come before the short ones that they contain.
pub open spec fn object_kind(head: Seq<char>) -> Option<Seq<char>> {
    if without_suffix(head, "RecordSet"@) is Some {
        without_suffix(head, "RecordSet"@)
    } else if without_suffix(head, "RecordManager"@) is Some {
        without_suffix(head, "RecordManager"@)
    } else if without_suffix(head, "RecordKey"@) is Some {
        without_suffix(head, "RecordKey"@)
    } else if without_suffix(head, "Record"@) is Some {
        without_suffix(head, "Record"@)
    } else if without_suffix(head, "Object"@) is Some {
        without_suffix(head, "Object"@)
    } else if without_suffix(head, "Manager"@) is Some {
        without_suffix(head, "Manager"@)
    } else if without_suffix(head, "List"@) is Some {
        without_suffix(head, "List"@)
    } else {
        without_suffix(head, "Selection"@)
    }
}

/// Type of a form attribute as a reference type: an object type of the configuration
/// becomes the reference to that object, another type only loses surrounding white
/// space.
pub open spec fn ref_type(t: Seq<char>) -> Seq<char> {
    let s = trimmed(t);
    let rest = s.skip(4);
    let dot = find_char(rest, '.', 0);
    if "cfg:"@.is_prefix_of(s) && dot < rest.len() && object_kind(rest.take(dot)) is Some {
        "cfg:"@ + object_kind(rest.take(dot))->0 + "Ref."@ + rest.skip(dot + 1)
    } else {
        s
    }
}

/// Head of a type without a suffix, unless nothing is left then.
fn strip_type_suffix(head: &[char], suffix: &str) -> (r: Option<String>)
    ensures
        maybe_text(r) == without_suffix(head@, suffix@),
{
    let s = chars_of(suffix);
    if s.len() < head.len() && ends_with(head, suffix) {
        Some(text_of(slice_subrange(head, 0, head.len() - s.len())))
    } else {
        None
    }
}

/// Kind of object that the head of an object type speaks of.
fn find_object_kind(head: &[char]) -> (r: Option<String>)
    ensures
        maybe_text(r) == object_kind(head@),
{
    if let Some(kind) = strip_type_suffix(head, "RecordSet") {
        return Some(kind);
    }
    if let Some(kind) = strip_type_suffix(head, "RecordManager") {
        return Some(kind);
    }
    if let Some(kind) = strip_type_suffix(head, "RecordKey") {
        return Some(kind);
    }
    if let Some(kind) = strip_type_suffix(head, "Record") {
        return Some(kind);
    }
    if let Some(kind) = strip_type_suffix(head, "Object") {
        return Some(kind);
    }
    if let Some(kind) = strip_type_suffix(head, "Manager") {
        return Some(kind);
    }
    if let Some(kind) = strip_type_suffix(head, "List") {
        return Some(kind);
    }
    strip_type_suffix(head, "Selection")
}

/// Type of a form attribute as a reference type.
pub fn form_type_to_ref(t: &str) -> (r: String)
    ensures
        r@ == ref_type(t@),
{
    let v = chars_of(t);
    let s = trim(v.as_slice());
    if begins_with(s, "cfg:") {
        proof {
            reveal_strlit("cfg:");
        }
        let rest = slice_subrange(s, 4, s.len());
        assert(rest@ == s@.skip(4));
        let dot: usize = position_of(rest, '.', 0);
        if dot < rest.len() {
            let head = slice_subrange(rest, 0, dot);
            assert(head@ == rest@.take(dot as int));
            if let Some(kind) = find_object_kind(head) {
                let name = text_of(slice_subrange(rest, dot + 1, rest.len()));
                assert(name@ == rest@.skip(dot + 1));
                let mut r = "cfg:".to_string();
                r.append(kind.as_str());
                r.append("Ref.");
                r.append(name.as_str());
                return r;
            }
        }
    }
    text_of(s)
}

/// Edge from an object to an object of the configuration.
#[derive(Debug, Clone, PartialEq, Eq)]
pub struct DataLinkEdge {
    /// Place of the reference in the object that refers.
    pub from_path: String,
    /// Full name of the object that is referred to.
    pub to_object: String,
    /// Kind of the reference.
    pub link_kind: &'static str,
    /// Whether the reference is one of several types.
    pub is_composite: bool,
    /// Whether the reference is to any object of a kind.
    pub is_universal: bool,
}

/// Model of a [`DataLinkEdge`].
#[verifier::ext_equal]
pub struct EdgeModel {
    pub from_path: Seq<char>,
    pub to_object: Seq<char>,
    pub link_kind: Seq<char>,
    pub is_composite: bool,
    pub is_universal: bool,
}

impl View for DataLinkEdge {
    type V = EdgeModel;

    open spec fn view(&self) -> EdgeModel {
        EdgeModel {
            from_path: self.from_path@,
            to_object: self.to_object@,
            link_kind: self.link_kind@,
            is_composite: self.is_composite,
            is_universal: self.is_universal,
        }
    }
}

/// References of a form.
#[derive(Debug, Clone, PartialEq, Eq)]
pub struct FormRefs {
    /// Edges to objects; the path is the name of the attribute or parameter, for a
    /// column of a table `attribute.column`.
    pub edges: Vec<DataLinkEdge>,
    /// Hand-written queries of dynamic lists: the line where the text begins, counted
    /// from 1, and the text as it is in the file.
    pub queries: Vec<(usize, String)>,
}

/// Attribute, parameter or column of a form with its types.
#[derive(Debug, Clone, PartialEq, Eq)]
pub struct FormField {
    pub from_path: String,
    /// Kind of the edges that the types give.
    pub kind: &'static str,
    pub types: Vec<String>,
}

/// Model of a [`FormField`].
#[verifier::ext_equal]
pub struct FieldModel {
    pub from_path: Seq<char>,
    pub kind: Seq<char>,
    pub types: Seq<Seq<char>>,
}

impl View for FormField {
    type V = FieldModel;

    open spec fn view(&self) -> FieldModel {
        FieldModel { from_path: self.from_path@, kind: self.kind@, types: texts(self.types@) }
    }
}

/// Models of fields.
pub open spec fn fields(v: Seq<FormField>) -> Seq<FieldModel> {
    v.map_values(|f: FormField| f@)
}

/// A reference of a form before objects are looked up.
pub enum FormLink {
    /// A field with its types.
    Field(FormField),
    /// Attribute of a dynamic list and the main table of the list.
    MainTable(String, String),
}

/// Model of a [`FormLink`].
pub enum LinkModel {
    Field(FieldModel),
    MainTable(Seq<char>, Seq<char>),
}

impl View for FormLink {
    type V = LinkModel;

    open spec fn view(&self) -> LinkModel {
        match self {
            FormLink::Field(f) => LinkModel::Field(f@),
            FormLink::MainTable(attr, table) => LinkModel::MainTable(attr@, table@),
        }
    }
}

/// Models of links.
pub open spec fn links(v: Seq<FormLink>) -> Seq<LinkModel> {
    v.map_values(|l: FormLink| l@)
}

/// An open element.
pub struct OpenTag {
    /// Local name.
    pub tag: String,
    /// Attribute `name`.
    pub name: Option<String>,
    /// Whether types inside belong to a field of this element.
    pub is_field: bool,
}

/// Model of an [`OpenTag`].
#[verifier::ext_equal]
pub struct OpenModel {
    pub tag: Seq<char>,
    pub name: Option<Seq<char>>,
    pub is_field: bool,
}

impl View for OpenTag {
    type V = OpenModel;

    open spec fn view(&self) -> OpenModel {
        OpenModel { tag: self.tag@, name: maybe_text(self.name), is_field: self.is_field }
    }
}

/// Models of open elements.
pub open spec fn open_tags(v: Seq<OpenTag>) -> Seq<OpenModel> {
    v.map_values(|t: OpenTag| t@)
}

/// Whether the innermost open element has this name.
pub open spec fn within(stack: Seq<OpenModel>, tag: Seq<char>) -> bool {
    stack.len() > 0 && stack.last().tag == tag
}

/// Whether an element of this name is open.
pub open spec fn is_inside(stack: Seq<OpenModel>, tag: Seq<char>) -> bool {
    exists|k: int| 0 <= k < stack.len() && (#[trigger] stack[k]).tag == tag
}

/// Attribute `name` of the innermost element of this name among the first `n` whose
/// attribute is not empty.
pub open spec fn nearest(stack: Seq<OpenModel>, tag: Seq<char>, n: int) -> Option<Seq<char>>
    decreases n,
{
    if n <= 0 || n > stack.len() {
        None
    } else if stack[n - 1].tag == tag && named(stack[n - 1].name) is Some {
        stack[n - 1].name
    } else {
        nearest(stack, tag, n - 1)
    }
}

/// Whether text among the first `n` open elements stands in type elements alone, the
/// innermost element around them being that of a field. `seen` tells whether a type
/// element has been passed.
pub open spec fn is_field_type(stack: Seq<OpenModel>, n: int, seen: bool) -> bool
    decreases n,
{
    if n <= 0 || n > stack.len() {
        false
    } else if stack[n - 1].tag == "Type"@ {
        is_field_type(stack, n - 1, true)
    } else {
        seen && stack[n - 1].is_field
    }
}

/// Field that an opening tag starts: an attribute and a parameter on their own level,
/// a column inside an attribute that is a table. Tags of the same names in the settings
/// of a dynamic list start none.
pub open spec fn new_field(
    stack: Seq<OpenModel>,
    tag: Seq<char>,
    name: Option<Seq<char>>,
) -> Option<FieldModel> {
    match named(name) {
        Some(s) => if is_inside(stack, "Settings"@) {
            None
        } else if tag == "Attribute"@ && within(stack, "Attributes"@) {
            Some(FieldModel { from_path: s, kind: "form_attr"@, types: Seq::empty() })
        } else if tag == "Parameter"@ && within(stack, "Parameters"@) {
            Some(FieldModel { from_path: s, kind: "form_param"@, types: Seq::empty() })
        } else if tag == "Column"@ && within(stack, "Columns"@) {
            match nearest(stack, "Attribute"@, stack.len() as int) {
                Some(attr) => Some(
                    FieldModel {
                        from_path: attr + "."@ + s,
                        kind: "form_attr"@,
                        types: Seq::empty(),
                    },
                ),
                None => None,
            }
        } else {
            None
        },
        None => None,
    }
}

/// A step through a form.
pub enum RefStep {
    /// Opening tag: its local name, its attribute `name` and its line.
    Open(String, Option<String>, usize),
    /// Closing tag.
    Close,
    /// Text.
    Text(String),
    /// Anything else.
    Skip,
}

/// Model of a [`RefStep`].
pub enum RefStepModel {
    Open(Seq<char>, Option<Seq<char>>, nat),
    Close,
    Text(Seq<char>),
    Skip,
}

impl View for RefStep {
    type V = RefStepModel;

    open spec fn view(&self) -> RefStepModel {
        match self {
            RefStep::Open(tag, name, line) => RefStepModel::Open(
                tag@,
                maybe_text(*name),
                *line as nat,
            ),
            RefStep::Close => RefStepModel::Close,
            RefStep::Text(s) => RefStepModel::Text(s@),
            RefStep::Skip => RefStepModel::Skip,
        }
    }
}

/// References found so far and the place in the form.
#[verifier::ext_equal]
pub struct RefsModel {
    pub links: Seq<LinkModel>,
    pub queries: Seq<(nat, Seq<char>)>,
    /// Open elements.
    pub stack: Seq<OpenModel>,
    /// Fields whose elements are open.
    pub fields: Seq<FieldModel>,
    /// Line of the open query.
    pub line: Option<nat>,
    /// Whether the last entry is that of the open query.
    pub has_entry: bool,
}

impl RefsModel {
    /// Nothing found, no element open.
    pub open spec fn start() -> RefsModel {
        RefsModel {
            links: Seq::empty(),
            queries: Seq::empty(),
            stack: Seq::empty(),
            fields: Seq::empty(),
            line: None,
            has_entry: false,
        }
    }

    /// Whether an opening tag of this name opens the query of a dynamic list.
    pub open spec fn opens_query(self, tag: Seq<char>) -> bool {
        tag == "QueryText"@ && is_inside(self.stack, "Settings"@)
    }

    /// After an opening tag.
    pub open spec fn opened(self, tag: Seq<char>, name: Option<Seq<char>>, line: nat) -> RefsModel {
        let field = new_field(self.stack, tag, name);
        RefsModel {
            stack: self.stack.push(OpenModel { tag, name, is_field: field is Some }),
            fields: match field {
                Some(f) => self.fields.push(f),
                None => self.fields,
            },
            line: if self.opens_query(tag) {
                Some(line)
            } else {
                self.line
            },
            has_entry: self.has_entry && !self.opens_query(tag),
            ..self
        }
    }

    /// After a closing tag: the field of the closed element is complete.
    pub open spec fn closed(self) -> RefsModel {
        if self.stack.len() == 0 {
            self
        } else {
            let top = self.stack.last();
            let done = top.is_field && self.fields.len() > 0;
            RefsModel {
                links: if done {
                    self.links.push(LinkModel::Field(self.fields.last()))
                } else {
                    self.links
                },
                fields: if done {
                    self.fields.drop_last()
                } else {
                    self.fields
                },
                stack: self.stack.drop_last(),
                line: if top.tag == "QueryText"@ {
                    None
                } else {
                    self.line
                },
                has_entry: self.has_entry && top.tag != "QueryText"@,
                ..self
            }
        }
    }

    /// After a text: a type of the innermost field, the main table of a dynamic list or
    /// a piece of its query.
    pub open spec fn collected(self, text: Seq<char>) -> RefsModel {
        if within(self.stack, "Type"@) {
            if is_field_type(self.stack, self.stack.len() as int, false) && self.fields.len() > 0
                && trimmed(text).len() > 0 {
                let f = self.fields.last();
                RefsModel {
                    fields: self.fields.drop_last().push(
                        FieldModel { types: f.types.push(ref_type(trimmed(text))), ..f },
                    ),
                    ..self
                }
            } else {
                self
            }
        } else if within(self.stack, "MainTable"@) && is_inside(self.stack, "Settings"@) {
            match nearest(self.stack, "Attribute"@, self.stack.len() as int) {
                Some(attr) => RefsModel {
                    links: self.links.push(LinkModel::MainTable(attr, trimmed(text))),
                    ..self
                },
                None => self,
            }
        } else if within(self.stack, "QueryText"@) {
            match self.line {
                Some(line) => RefsModel {
                    queries: glued(self.queries, self.has_entry, line, text),
                    has_entry: true,
                    ..self
                },
                None => self,
            }
        } else {
            self
        }
    }

    /// One step further.
    pub open spec fn step(self, s: RefStepModel) -> RefsModel {
        match s {
            RefStepModel::Open(tag, name, line) => self.opened(tag, name, line),
            RefStepModel::Close => self.closed(),
            RefStepModel::Text(text) => self.collected(text),
            RefStepModel::Skip => self,
        }
    }

    /// The first `n` of a run of steps further.
    pub open spec fn run(self, steps: Seq<RefStepModel>, n: int) -> RefsModel
        decreases n,
    {
        if n <= 0 {
            self
        } else {
            self.run(steps, n - 1).step(steps[n - 1])
        }
    }
}

/// What a step of the parser means for the references of a form.
pub open spec fn ref_step(read: XmlRead, bytes: Seq<u8>) -> RefStepModel {
    match read.event {
        EventModel::Start(name, list) => RefStepModel::Open(
            local(name),
            first_name(list, 0),
            line_number(bytes, read.position),
        ),
        EventModel::End(_) => RefStepModel::Close,
        EventModel::Text(raw) => RefStepModel::Text(plain_text(raw)),
        EventModel::CData(raw) => RefStepModel::Text(lossy(raw)),
        _ => RefStepModel::Skip,
    }
}

/// What the steps of the parser mean for the references of a form.
pub open spec fn ref_steps(reads: Seq<XmlRead>, bytes: Seq<u8>) -> Seq<RefStepModel> {
    reads.map_values(|r: XmlRead| ref_step(r, bytes))
}

/// References of a form that reads as given.
pub open spec fn form_refs(reads: Seq<XmlRead>, bytes: Seq<u8>) -> RefsModel {
    RefsModel::start().run(ref_steps(reads, bytes), reads.len() - 1)
}

/// Whether the innermost open element has this name.
pub fn parent_is(stack: &Vec<OpenTag>, tag: &str) -> (r: bool)
    ensures
        r == within(open_tags(stack@), tag@),
{
    let n: usize = stack.len();
    if n == 0 {
        return false;
    }
    assert(open_tags(stack@).last() == stack@[n - 1]@);
    same_text(stack[n - 1].tag.as_str(), tag)
}

/// Whether an element of this name is open.
pub fn inside(stack: &Vec<OpenTag>, tag: &str) -> (r: bool)
    ensures
        r == is_inside(open_tags(stack@), tag@),
{
    let ghost m = open_tags(stack@);
    let n: usize = stack.len();
    let mut i: usize = 0;
    while i < n
        invariant
            i <= n,
            n == stack@.len(),
            m == open_tags(stack@),
            forall|k: int| 0 <= k < i ==> (#[trigger] m[k]).tag != tag@,
        decreases n - i,
    {
        assert(m[i as int].tag == stack@[i as int].tag@);
        if same_text(stack[i].tag.as_str(), tag) {
            return true;
        }
        i = i + 1;
    }
    false
}

/// Attribute `name` of the innermost open element of this name whose attribute is not
/// empty.
pub fn nearest_named(stack: &Vec<OpenTag>, tag: &str) -> (r: Option<String>)
    ensures
        maybe_text(r) == nearest(open_tags(stack@), tag@, stack@.len() as int),
{
    let ghost m = open_tags(stack@);
    let n: usize = stack.len();
    let mut j: usize = n;
    while j > 0
        invariant
            j <= n,
            n == stack@.len(),
            m == open_tags(stack@),
            nearest(m, tag@, n as int) == nearest(m, tag@, j as int),
        decreases j,
    {
        assert(m[j - 1] == stack@[j - 1]@);
        if same_text(stack[j - 1].tag.as_str(), tag) {
            match &stack[j - 1].name {
                Some(name) => {
                    if !name.is_empty() {
                        return Some(name.clone());
                    }
                },
                None => {},
            }
        }
        j = j - 1;
    }
    None
}

/// Whether text stands directly in the type of the innermost field: between the text
/// and the element of the field there are type elements only.
pub fn type_belongs_to_field(stack: &Vec<OpenTag>) -> (r: bool)
    ensures
        r == is_field_type(open_tags(stack@), stack@.len() as int, false),
{
    let ghost m = open_tags(stack@);
    let n: usize = stack.len();
    let mut seen: bool = false;
    let mut j: usize = n;
    while j > 0
        invariant
            j <= n,
            n == stack@.len(),
            m == open_tags(stack@),
            is_field_type(m, n as int, false) == is_field_type(m, j as int, seen),
        decreases j,
    {
        assert(m[j - 1] == stack@[j - 1]@);
        if !same_text(stack[j - 1].tag.as_str(), "Type") {
            return seen && stack[j - 1].is_field;
        }
        seen = true;
        j = j - 1;
    }
    false
}

/// Collects the references of a form step by step.
pub struct RefCollector {
    pub links: Vec<FormLink>,
    pub queries: Vec<(usize, String)>,
    /// Open elements.
    pub stack: Vec<OpenTag>,
    /// Fields whose elements are open.
    pub fields: Vec<FormField>,
    /// Line of the open query.
    pub line: Option<usize>,
    /// Whether the last entry is that of the open query.
    pub has_entry: bool,
}

impl View for RefCollector {
    type V = RefsModel;

    open spec fn view(&self) -> RefsModel {
        RefsModel {
            links: links(self.links@),
            queries: numbered(self.queries@),
            stack: open_tags(self.stack@),
            fields: fields(self.fields@),
            line: match self.line {
                Some(line) => Some(line as nat),
                None => None,
            },
            has_entry: self.has_entry,
        }
    }
}

/// Field that an opening tag starts.
fn start_field(stack: &Vec<OpenTag>, tag: &str, name: &Option<String>) -> (r: Option<FormField>)
    ensures
        match r {
            Some(f) => new_field(open_tags(stack@), tag@, maybe_text(*name)) == Some(f@),
            None => new_field(open_tags(stack@), tag@, maybe_text(*name)) is None,
        },
{
    let name = match name {
        Some(name) => name,
        None => {
            return None;
        },
    };
    if name.is_empty() || inside(stack, "Settings") {
        return None;
    }
    let types: Vec<String> = Vec::new();
    assert(texts(types@) =~= Seq::empty());
    if same_text(tag, "Attribute") && parent_is(stack, "Attributes") {
        Some(FormField { from_path: name.clone(), kind: "form_attr", types })
    } else if same_text(tag, "Parameter") && parent_is(stack, "Parameters") {
        Some(FormField { from_path: name.clone(), kind: "form_param", types })
    } else if same_text(tag, "Column") && parent_is(stack, "Columns") {
        match nearest_named(stack, "Attribute") {
            Some(attr) => {
                let mut from_path = attr;
                from_path.append(".");
                from_path.append(name.as_str());
                Some(FormField { from_path, kind: "form_attr", types })
            },
            None => None,
        }
    } else {
        None
    }
}

impl RefCollector {
    /// Nothing found, no element open.
    pub fn new() -> (r: RefCollector)
        ensures
            r@ == RefsModel::start(),
    {
        let r = RefCollector {
            links: Vec::new(),
            queries: Vec::new(),
            stack: Vec::new(),
            fields: Vec::new(),
            line: None,
            has_entry: false,
        };
        assert(r@ =~= RefsModel::start());
        r
    }

    /// Whether an opening tag of this name opens the query of a dynamic list.
    pub fn opens_query(&self, tag: &str) -> (r: bool)
        ensures
            r == self@.opens_query(tag@),
    {
        same_text(tag, "QueryText") && inside(&self.stack, "Settings")
    }

    /// After an opening tag.
    fn open(&mut self, tag: String, name: Option<String>, line: usize)
        ensures
            final(self)@ == old(self)@.opened(tag@, maybe_text(name), line as nat),
    {
        let ghost before = self@;
        let ghost tag_text = tag@;
        let ghost name_text = maybe_text(name);
        if self.opens_query(tag.as_str()) {
            self.line = Some(line);
            self.has_entry = false;
        }
        let field = start_field(&self.stack, tag.as_str(), &name);
        let is_field = field.is_some();
        match field {
            Some(f) => {
                let ghost model = f@;
                self.fields.push(f);
                assert(fields(self.fields@) == before.fields.push(model));
            },
            None => {},
        }
        self.stack.push(OpenTag { tag, name, is_field });
        assert(open_tags(self.stack@) == before.stack.push(
            OpenModel { tag: tag_text, name: name_text, is_field },
        ));
    }

    /// After a closing tag.
    fn close(&mut self)
        ensures
            final(self)@ == old(self)@.closed(),
    {
        let ghost before = self@;
        match self.stack.pop() {
            Some(top) => {
                assert(before.stack.last() == top@);
                assert(open_tags(self.stack@) == before.stack.drop_last());
                if top.is_field {
                    match self.fields.pop() {
                        Some(f) => {
                            let ghost model = f@;
                            assert(before.fields.last() == model);
                            assert(fields(self.fields@) == before.fields.drop_last());
                            self.links.push(FormLink::Field(f));
                            assert(links(self.links@) == before.links.push(
                                LinkModel::Field(model),
                            ));
                        },
                        None => {},
                    }
                }
                if same_text(top.tag.as_str(), "QueryText") {
                    self.line = None;
                    self.has_entry = false;
                }
            },
            None => {},
        }
        assert(self@ =~= before.closed());
    }

    /// After a text.
    fn collect_text(&mut self, text: &str)
        ensures
            final(self)@ == old(self)@.collected(text@),
    {
        let ghost before = self@;
        if parent_is(&self.stack, "Type") {
            if type_belongs_to_field(&self.stack) {
                let t = trim_text(text);
                if !t.is_empty() {
                    match self.fields.pop() {
                        Some(f) => {
                            let ghost model = f@;
                            assert(before.fields.last() == model);
                            let FormField { from_path, kind, mut types } = f;
                            let ghost old_types = texts(types@);
                            let r = form_type_to_ref(t.as_str());
                            let ghost type_text = r@;
                            types.push(r);
                            assert(texts(types@) == old_types.push(type_text));
                            self.fields.push(FormField { from_path, kind, types });
                            assert(fields(self.fields@) == before.fields.drop_last().push(
                                FieldModel { types: model.types.push(type_text), ..model },
                            ));
                        },
                        None => {},
                    }
                }
            }
        } else if parent_is(&self.stack, "MainTable") && inside(&self.stack, "Settings") {
            match nearest_named(&self.stack, "Attribute") {
                Some(attr) => {
                    let table = trim_text(text);
                    let ghost model = LinkModel::MainTable(attr@, table@);
                    self.links.push(FormLink::MainTable(attr, table));
                    assert(links(self.links@) == before.links.push(model));
                },
                None => {},
            }
        } else if parent_is(&self.stack, "QueryText") {
            match self.line {
                Some(line) => {
                    push_text(&mut self.queries, self.has_entry, line, text);
                    self.has_entry = true;
                },
                None => {},
            }
        }
        assert(self@ =~= before.collected(text@));
    }

    /// One step further.
    pub fn step(&mut self, s: RefStep)
        ensures
            final(self)@ == old(self)@.step(s@),
    {
        match s {
            RefStep::Open(tag, name, line) => self.open(tag, name, line),
            RefStep::Close => self.close(),
            RefStep::Text(text) => self.collect_text(text.as_str()),
            RefStep::Skip => {},
        }
    }
}

/// References of a form before objects are looked up, and the queries of its dynamic
/// lists.
pub fn parse_form_links(content: &str) -> (r: Result<
    (Vec<FormLink>, Vec<(usize, String)>),
    XmlError,
>)
    ensures
        match r {
            Ok((list, queries)) => {
                &&& ending(xml_reads(content@, false)) is None
                &&& links(list@) == form_refs(
                    xml_reads(content@, false),
                    encode_utf8(content@),
                ).links
                &&& numbered(queries@) == form_refs(
                    xml_reads(content@, false),
                    encode_utf8(content@),
                ).queries
            },
            Err(e) => e.part == XmlPart::FormRefs && ending(xml_reads(content@, false)) == Some(
                (e.position as nat, e.detail@),
            ),
        },
{
    let ghost reads = xml_reads(content@, false);
    let ghost bytes = encode_utf8(content@);
    let ghost steps = ref_steps(reads, bytes);
    let ghost mut n: int = 0;
    let mut reader = open_reader(content, false);
    let mut state = RefCollector::new();
    assert(pending(reader) == reads.skip(0));
    loop
        invariant
            0 <= n < reads.len(),
            reads == xml_reads(content@, false),
            bytes == encode_utf8(content@),
            steps == ref_steps(reads, bytes),
            is_reading(reads),
            tags_opened(reads, bytes),
            pending(reader) == reads.skip(n),
            state@ == RefsModel::start().run(steps, n),
        decreases reads.len() - n,
    {
        let event = read_event(&mut reader);
        let ghost read = reads[n];
        assert(event@ == read.event);
        let position: u64 = buffer_position(&reader);
        let step = match event {
            XmlEvent::Start(name, list) => {
                let tag = local_name(name.as_slice());
                let name_attr = attr_name(&list);
                if state.opens_query(tag.as_str()) {
                    RefStep::Open(tag, name_attr, line_at(content, position))
                } else {
                    RefStep::Open(tag, name_attr, 0)
                }
            },
            XmlEvent::End(_) => RefStep::Close,
            XmlEvent::Text(raw) => RefStep::Text(read_text(raw.as_slice())),
            XmlEvent::CData(raw) => RefStep::Text(lossy_text(raw.as_slice())),
            XmlEvent::Other => RefStep::Skip,
            XmlEvent::Eof => {
                assert(n == reads.len() - 1);
                return Ok((state.links, state.queries));
            },
            XmlEvent::Failed(detail) => {
                assert(n == reads.len() - 1);
                return Err(XmlError { part: XmlPart::FormRefs, position, detail });
            },
        };
        proof {
            assert(steps[n] == ref_step(read, bytes));
            assert(state@.step(step@) == state@.step(steps[n]));
            assert(pending(reader) == reads.skip(n + 1));
        }
        state.step(step);
        proof {
            n = n + 1;
        }
    }
}

/// Edges of the main table of a dynamic list whose object is known: one if the name of
/// the object is a full name, else none.
pub open spec fn main_table_edges(attr: Seq<char>, object: Seq<char>) -> Seq<EdgeModel> {
    if object.contains('.') {
        seq![
            EdgeModel {
                from_path: attr,
                to_object: object,
                link_kind: "form_main_table"@,
                is_composite: false,
                is_universal: false,
            },
        ]
    } else {
        Seq::empty()
    }
}

/// Models of edges.
pub open spec fn edge_models(v: Seq<DataLinkEdge>) -> Seq<EdgeModel> {
    v.map_values(|e: DataLinkEdge| e@)
}

/// Whether `edges` are the edges of one link: what `edges_of` gives for a field, and
/// the edges of a main table whose object `object_of` finds.
pub open spec fn link_edges<F: Fn(&FormField) -> Vec<DataLinkEdge>, G: Fn(&String) -> String>(
    link: FormLink,
    edges: Seq<DataLinkEdge>,
    edges_of: F,
    object_of: G,
) -> bool {
    match link {
        FormLink::Field(f) => exists|v: Vec<DataLinkEdge>|
            #[trigger] call_ensures(edges_of, (&f,), v) && v@ == edges,
        FormLink::MainTable(attr, table) => exists|object: String|
            #[trigger] call_ensures(object_of, (&table,), object) && edge_models(edges)
                == main_table_edges(attr@, object@),
    }
}

/// Whether `edges` are the edges of the links in their order, those of link `i` being
/// the ones from `cuts[i]` to `cuts[i + 1]`.
pub open spec fn cut_by_links<F: Fn(&FormField) -> Vec<DataLinkEdge>, G: Fn(&String) -> String>(
    list: Seq<FormLink>,
    edges: Seq<DataLinkEdge>,
    cuts: Seq<int>,
    edges_of: F,
    object_of: G,
) -> bool {
    &&& cuts.len() == list.len() + 1
    &&& cuts[0] == 0
    &&& cuts.last() == edges.len()
    &&& forall|i: int|
        0 <= i < list.len() ==> 0 <= #[trigger] cuts[i] <= cuts[i + 1] <= edges.len() && link_edges(
            list[i],
            edges.subrange(cuts[i], cuts[i + 1]),
            edges_of,
            object_of,
        )
}

/// Whether `edges` are the edges of the links in their order.
pub open spec fn all_link_edges<F: Fn(&FormField) -> Vec<DataLinkEdge>, G: Fn(&String) -> String>(
    list: Seq<FormLink>,
    edges: Seq<DataLinkEdge>,
    edges_of: F,
    object_of: G,
) -> bool {
    exists|cuts: Seq<int>| cut_by_links(list, edges, cuts, edges_of, object_of)
}

/// Edges of links in their order. `edges_of` turns the types of a field into edges,
/// `object_of` turns the main table of a dynamic list into the full name of an object.
pub fn resolve_links<F: Fn(&FormField) -> Vec<DataLinkEdge>, G: Fn(&String) -> String>(
    list: &Vec<FormLink>,
    edges_of: &F,
    object_of: &G,
) -> (r: Vec<DataLinkEdge>)
    requires
        forall|f: FormField| #[trigger] call_requires(*edges_of, (&f,)),
        forall|t: String| #[trigger] call_requires(*object_of, (&t,)),
    ensures
        all_link_edges(list@, r@, *edges_of, *object_of),
{
    let mut out: Vec<DataLinkEdge> = Vec::new();
    let ghost mut cuts: Seq<int> = seq![0int];
    let n: usize = list.len();
    let mut i: usize = 0;
    while i < n
        invariant
            i <= n,
            n == list@.len(),
            forall|f: FormField| #[trigger] call_requires(*edges_of, (&f,)),
            forall|t: String| #[trigger] call_requires(*object_of, (&t,)),
            cut_by_links(list@.take(i as int), out@, cuts, *edges_of, *object_of),
        decreases n - i,
    {
        let ghost before = out@;
        match &list[i] {
            FormLink::Field(f) => {
                let mut edges = edges_of(f);
                let ghost v = edges;
                out.append(&mut edges);
                assert(out@.subrange(before.len() as int, out@.len() as int) == v@);
                assert(call_ensures(*edges_of, (f,), v));
            },
            FormLink::MainTable(attr, table) => {
                let object = object_of(table);
                assert(call_ensures(*object_of, (table,), object));
                let ghost name = object;
                if has_char(object.as_str(), '.') {
                    let edge = DataLinkEdge {
                        from_path: attr.clone(),
                        to_object: object,
                        link_kind: "form_main_table",
                        is_composite: false,
                        is_universal: false,
                    };
                    out.push(edge);
                }
                assert(edge_models(out@.subrange(before.len() as int, out@.len() as int))
                    =~= main_table_edges(attr@, name@));
            },
        }
        proof {
            let done = cuts;
            cuts = cuts.push(out@.len() as int);
            assert(link_edges(
                list@[i as int],
                out@.subrange(before.len() as int, out@.len() as int),
                *edges_of,
                *object_of,
            ));
            assert forall|k: int| 0 <= k < i + 1 implies 0 <= #[trigger] cuts[k] <= cuts[k + 1]
                <= out@.len() && link_edges(
                list@.take(i + 1)[k],
                out@.subrange(cuts[k], cuts[k + 1]),
                *edges_of,
                *object_of,
            ) by {
                if k < i {
                    assert(done[k] == cuts[k] && done[k + 1] == cuts[k + 1]);
                    assert(list@.take(i as int)[k] == list@.take(i + 1)[k]);
                    assert(out@.subrange(cuts[k], cuts[k + 1]) == before.subrange(
                        done[k],
                        done[k + 1],
                    ));
                }
            }
        }
        i = i + 1;
    }
    assert(list@.take(n as int) == list@);
    out
}

/// Whether `refs` are the references of a form that reads as given.
pub open spec fn are_refs<F: Fn(&FormField) -> Vec<DataLinkEdge>, G: Fn(&String) -> String>(
    refs: FormRefs,
    found: RefsModel,
    edges_of: F,
    object_of: G,
) -> bool {
    &&& numbered(refs.queries@) == found.queries
    &&& exists|list: Seq<FormLink>| #[trigger]
        links(list) == found.links && all_link_edges(
            list,
            refs.edges@,
            edges_of,
            object_of,
        )
}

/// References of a form: edges to objects and the queries of dynamic lists. `edges_of`
/// turns the types of a field into edges, `object_of` turns the main table of a dynamic
/// list into the full name of an object.
pub fn parse_form_refs_xml<F: Fn(&FormField) -> Vec<DataLinkEdge>, G: Fn(&String) -> String>(
    content: &str,
    edges_of: &F,
    object_of: &G,
) -> (r: Result<FormRefs, XmlError>)
    requires
        forall|f: FormField| #[trigger] call_requires(*edges_of, (&f,)),
        forall|t: String| #[trigger] call_requires(*object_of, (&t,)),
    ensures
        match r {
            Ok(refs) => ending(xml_reads(content@, false)) is None && are_refs(
                refs,
                form_refs(xml_reads(content@, false), encode_utf8(content@)),
                *edges_of,
                *object_of,
            ),
            Err(e) => e.part == XmlPart::FormRefs && ending(xml_reads(content@, false)) == Some(
                (e.position as nat, e.detail@),
            ),
        },
{
    match parse_form_links(content) {
        Ok((list, queries)) => {
            let edges = resolve_links(&list, edges_of, object_of);
            proof {
                let found = list@;
                assert(links(found) == form_refs(
                    xml_reads(content@, false),
                    encode_utf8(content@),
                ).links);
            }
            Ok(FormRefs { edges, queries })
        },
        Err(e) => Err(e),
    }
}

/// References of a form file: none where there is no file, a failure where the file
/// cannot be read as text, else those of its text.
pub fn parse_form_refs_file<F: Fn(&FormField) -> Vec<DataLinkEdge>, G: Fn(&String) -> String>(
    file: &FormFile,
    edges_of: &F,
    object_of: &G,
) -> (r: Result<FormRefs, FileError>)
    requires
        forall|f: FormField| #[trigger] call_requires(*edges_of, (&f,)),
        forall|t: String| #[trigger] call_requires(*object_of, (&t,)),
    ensures
        match (*file, file_text(*file)) {
            (FormFile::Missing, _) => r matches Ok(refs) && refs.edges@.len() == 0
                && refs.queries@.len() == 0,
            (_, Some(text)) => match r {
                Ok(refs) => ending(xml_reads(text, false)) is None && are_refs(
                    refs,
                    form_refs(xml_reads(text, false), encode_utf8(text)),
                    *edges_of,
                    *object_of,
                ),
                Err(FileError::Xml(e)) => e.part == XmlPart::FormRefs && ending(
                    xml_reads(text, false),
                ) == Some((e.position as nat, e.detail@)),
                Err(FileError::Unreadable) => false,
            },
            (_, None) => r == Err::<FormRefs, FileError>(FileError::Unreadable),
        },
{
    match file {
        FormFile::Missing => Ok(FormRefs { edges: Vec::new(), queries: Vec::new() }),
        _ => match text_of_file(file) {
            Some(text) => match parse_form_refs_xml(text.as_str(), edges_of, object_of) {
                Ok(refs) => Ok(refs),
                Err(e) => Err(FileError::Xml(e)),
            },
            None => Err(FileError::Unreadable),
        },
    }
}

impl Default for FormRefs {
    fn default() -> (r: Self)
        ensures
            r.edges@.len() == 0,
            r.queries@.len() == 0,
    {
        FormRefs { edges: Vec::new(), queries: Vec::new() }
    }
}

/// Number of field elements among the first `n` open elements.
pub open spec fn field_count(stack: Seq<OpenModel>, n: int) -> nat
    decreases n,
{
    if n <= 0 || n > stack.len() {
        0
    } else if stack[n - 1].is_field {
        field_count(stack, n - 1) + 1
    } else {
        field_count(stack, n - 1)
    }
}

proof fn lemma_field_count_prefix(a: Seq<OpenModel>, b: Seq<OpenModel>, n: int)
    requires
        0 <= n <= a.len(),
        a.is_prefix_of(b),
    ensures
        field_count(a, n) == field_count(b, n),
    decreases n,
{
    if n > 0 {
        lemma_field_count_prefix(a, b, n - 1);
    }
}

/// Every open field element has one field and every field has its open element, at
/// every step.
pub proof fn law_fields_match_elements(m: RefsModel, steps: Seq<RefStepModel>, n: int)
    requires
        0 <= n <= steps.len(),
        m.fields.len() == field_count(m.stack, m.stack.len() as int),
    ensures
        m.run(steps, n).fields.len() == field_count(
            m.run(steps, n).stack,
            m.run(steps, n).stack.len() as int,
        ),
    decreases n,
{
    if n > 0 {
        law_fields_match_elements(m, steps, n - 1);
        let a = m.run(steps, n - 1);
        let b = m.run(steps, n);
        match steps[n - 1] {
            RefStepModel::Open(tag, name, line) => {
                lemma_field_count_prefix(a.stack, b.stack, a.stack.len() as int);
            },
            RefStepModel::Close => {
                if a.stack.len() > 0 {
                    lemma_field_count_prefix(b.stack, a.stack, b.stack.len() as int);
                }
            },
            _ => {
                assert(b.stack == a.stack);
            },
        }
    }
}

/// Opening tags minus closing tags among the first `n` steps.
pub open spec fn ref_level(steps: Seq<RefStepModel>, n: int) -> int
    decreases n,
{
    if n <= 0 {
        0
    } else {
        match steps[n - 1] {
            RefStepModel::Open(_, _, _) => ref_level(steps, n - 1) + 1,
            RefStepModel::Close => ref_level(steps, n - 1) - 1,
            _ => ref_level(steps, n - 1),
        }
    }
}

/// A run of steps that never closes more than it has opened keeps the elements that
/// were open before it. After a whole element the open elements are the same as before.
pub proof fn law_elements_stay_open(m: RefsModel, steps: Seq<RefStepModel>, n: int)
    requires
        0 <= n <= steps.len(),
        forall|k: int| 0 <= k <= n ==> #[trigger] ref_level(steps, k) >= 0,
    ensures
        m.run(steps, n).stack.len() == m.stack.len() + ref_level(steps, n),
        m.stack.is_prefix_of(m.run(steps, n).stack),
        ref_level(steps, n) == 0 ==> m.run(steps, n).stack == m.stack,
    decreases n,
{
    if n > 0 {
        assert forall|k: int| 0 <= k <= n - 1 implies #[trigger] ref_level(steps, k) >= 0 by {}
        assert(ref_level(steps, n) >= 0);
        law_elements_stay_open(m, steps, n - 1);
    }
    if ref_level(steps, n) == 0 {
        assert(m.run(steps, n).stack =~= m.stack);
    }
}

/// Links that were found stay found, in their order.
pub proof fn law_links_stay(m: RefsModel, steps: Seq<RefStepModel>, n: int)
    requires
        0 <= n <= steps.len(),
    ensures
        m.links.is_prefix_of(m.run(steps, n).links),
    decreases n,
{
    if n > 0 {
        law_links_stay(m, steps, n - 1);
    }
}

/// A type that is not the type of a field, such as that of a field inside the settings
/// of a dynamic list, changes nothing.
pub proof fn law_foreign_type_is_ignored(m: RefsModel, text: Seq<char>)
    requires
        within(m.stack, "Type"@),
        !is_field_type(m.stack, m.stack.len() as int, false),
    ensures
        m.step(RefStepModel::Text(text)) == m,
{
}

/// The settings of a dynamic list have no fields: no tag inside them starts one.
pub proof fn law_settings_have_no_fields(
    m: RefsModel,
    tag: Seq<char>,
    name: Option<Seq<char>>,
    line: nat,
)
    requires
        is_inside(m.stack, "Settings"@),
    ensures
        m.step(RefStepModel::Open(tag, name, line)).fields == m.fields,
{
}

/// An attribute of a form with one type gives one link: its name and the reference
/// type. The place in the form is the same afterwards.
pub proof fn law_attribute_element(m: RefsModel, name: Seq<char>, text: Seq<char>, l: nat)
    requires
        within(m.stack, "Attributes"@),
        !is_inside(m.stack, "Settings"@),
        name.len() > 0,
        trimmed(text).len() > 0,
    ensures
        m.step(RefStepModel::Open("Attribute"@, Some(name), l)).step(
            RefStepModel::Open("Type"@, None, l),
        ).step(RefStepModel::Text(text)).step(RefStepModel::Close).step(RefStepModel::Close) == (
        RefsModel {
            links: m.links.push(
                LinkModel::Field(
                    FieldModel {
                        from_path: name,
                        kind: "form_attr"@,
                        types: seq![ref_type(trimmed(text))],
                    },
                ),
            ),
            ..m
        }),
{
    reveal_strlit("Attribute");
    reveal_strlit("Type");
    reveal_strlit("QueryText");
    reveal_strlit("Attributes");
    reveal_strlit("Parameters");
    assert("Type"@ != "QueryText"@) by {
        assert("Type"@.len() != "QueryText"@.len());
    }
    assert("Attribute"@ != "QueryText"@) by {
        assert("Attribute"@[0] != "QueryText"@[0]);
    }
    assert("Attribute"@ != "Type"@) by {
        assert("Attribute"@.len() != "Type"@.len());
    }
    let a = m.step(RefStepModel::Open("Attribute"@, Some(name), l));
    let b = a.step(RefStepModel::Open("Type"@, None, l));
    let n = b.stack.len() as int;
    assert(b.stack[n - 1].tag == "Type"@);
    assert(b.stack[n - 2].tag == "Attribute"@);
    assert(is_field_type(b.stack, n - 1, true));
    assert(is_field_type(b.stack, n, false));
    let c = b.step(RefStepModel::Text(text));
    let d = c.step(RefStepModel::Close);
    assert(d.stack =~= a.stack);
    let e = d.step(RefStepModel::Close);
    assert(e.stack =~= m.stack);
    assert(e.fields =~= m.fields);
    assert(Seq::<Seq<char>>::empty().push(ref_type(trimmed(text))) =~= seq![
        ref_type(trimmed(text)),
    ]);
}

/// Pieces of text as steps.
pub open spec fn ref_text_steps(pieces: Seq<Seq<char>>) -> Seq<RefStepModel> {
    pieces.map_values(|p: Seq<char>| RefStepModel::Text(p))
}

proof fn lemma_list_pieces(m: RefsModel, pieces: Seq<Seq<char>>, line: nat, n: int)
    requires
        within(m.stack, "QueryText"@),
        m.line == Some(line),
        !m.has_entry,
        0 < n <= pieces.len(),
    ensures
        m.run(ref_text_steps(pieces), n) == (RefsModel {
            queries: m.queries.push((line, pieces.take(n).flatten())),
            has_entry: true,
            ..m
        }),
    decreases n,
{
    reveal_strlit("QueryText");
    reveal_strlit("Type");
    reveal_strlit("MainTable");
    assert("QueryText"@ != "Type"@) by {
        assert("QueryText"@[0] != "Type"@[0]);
    }
    assert("QueryText"@ != "MainTable"@) by {
        assert("QueryText"@[0] != "MainTable"@[0]);
    }
    let steps = ref_text_steps(pieces);
    assert(steps[n - 1] == RefStepModel::Text(pieces[n - 1]));
    assert(pieces.take(n) == pieces.take(n - 1).push(pieces[n - 1]));
    pieces.take(n - 1).lemma_flatten_push(pieces[n - 1]);
    if n == 1 {
        assert(m.run(steps, 0) == m);
        assert(pieces.take(0).flatten() == Seq::<char>::empty());
        assert(pieces.take(1).flatten() == pieces[0]);
    } else {
        lemma_list_pieces(m, pieces, line, n - 1);
        let before = m.run(steps, n - 1);
        assert(before.queries.drop_last() == m.queries);
        assert(before.queries.last().1 + pieces[n - 1] == pieces.take(n).flatten());
    }
}

/// The query of a dynamic list gives one entry of its own: the line where its text begins
/// and all pieces of the text in a row. The place in the form is the same afterwards.
pub proof fn law_list_query(
    m: RefsModel,
    name: Option<Seq<char>>,
    line: nat,
    pieces: Seq<Seq<char>>,
)
    requires
        is_inside(m.stack, "Settings"@),
        pieces.len() > 0,
    ensures
        m.step(RefStepModel::Open("QueryText"@, name, line)).run(
            ref_text_steps(pieces),
            pieces.len() as int,
        ).step(RefStepModel::Close) == (RefsModel {
            queries: m.queries.push((line, pieces.flatten())),
            line: None,
            has_entry: false,
            ..m
        }),
{
    reveal_strlit("QueryText");
    reveal_strlit("Attribute");
    reveal_strlit("Parameter");
    reveal_strlit("Column");
    assert("QueryText"@ != "Attribute"@) by {
        assert("QueryText"@[0] != "Attribute"@[0]);
    }
    assert("QueryText"@ != "Parameter"@) by {
        assert("QueryText"@[0] != "Parameter"@[0]);
    }
    assert("QueryText"@ != "Column"@) by {
        assert("QueryText"@[0] != "Column"@[0]);
    }
    let a = m.step(RefStepModel::Open("QueryText"@, name, line));
    lemma_list_pieces(a, pieces, line, pieces.len() as int);
    assert(pieces.take(pieces.len() as int) == pieces);
    let c = a.run(ref_text_steps(pieces), pieces.len() as int).step(RefStepModel::Close);
    assert(c.stack =~= m.stack);
}

proof fn lemma_trimmed_ends(s: Seq<char>)
    ensures
        trimmed(s).len() > 0 ==> !is_space(trimmed(s)[0]) && !is_space(trimmed(s).last()),
{
    let a = trim_start(s);
    lemma_space_end(s, 0);
    lemma_space_start(a, a.len() as int);
    if trimmed(s).len() > 0 {
        assert(trimmed(s)[0] == a[0]);
        assert(a[0] == s[space_end(s, 0)]);
        assert(trimmed(s).last() == a[space_start(a, a.len() as int) - 1]);
    }
}

proof fn lemma_trimmed_whole(s: Seq<char>)
    requires
        s.len() > 0 ==> !is_space(s[0]) && !is_space(s.last()),
    ensures
        trimmed(s) == s,
{
    assert(space_end(s, 0) == 0);
    assert(trim_start(s) =~= s);
    assert(space_start(s, s.len() as int) == s.len());
    assert(trimmed(s) =~= s);
}

proof fn lemma_ref_head(kind: Seq<char>)
    ensures
        object_kind(kind + "Ref"@) is None,
{
    reveal_strlit("Ref");
    reveal_strlit("RecordSet");
    reveal_strlit("RecordManager");
    reveal_strlit("RecordKey");
    reveal_strlit("Record");
    reveal_strlit("Object");
    reveal_strlit("Manager");
    reveal_strlit("List");
    reveal_strlit("Selection");
    let head = kind + "Ref"@;
    assert(head.last() == 'f');
    lemma_other_ending(head, "RecordSet"@);
    lemma_other_ending(head, "RecordManager"@);
    lemma_other_ending(head, "RecordKey"@);
    lemma_other_ending(head, "Record"@);
    lemma_other_ending(head, "Object"@);
    lemma_other_ending(head, "Manager"@);
    lemma_other_ending(head, "List"@);
    lemma_other_ending(head, "Selection"@);
}

proof fn lemma_other_ending(head: Seq<char>, suffix: Seq<char>)
    requires
        head.len() > 0,
        suffix.len() > 0,
        head.last() != suffix.last(),
    ensures
        without_suffix(head, suffix) is None,
{
    if suffix.is_suffix_of(head) {
        assert(head.subrange(head.len() - suffix.len(), head.len() as int).last() == head.last());
    }
}

/// Turning a type into a reference type twice gives the same as doing it once: a
/// reference type stays as it is.
pub proof fn law_ref_type_is_stable(t: Seq<char>)
    ensures
        ref_type(ref_type(t)) == ref_type(t),
{
    reveal_strlit("cfg:");
    reveal_strlit("Ref.");
    reveal_strlit("Ref");
    let s = trimmed(t);
    lemma_trimmed_ends(t);
    lemma_trimmed_whole(s);
    let rest = s.skip(4);
    let dot = find_char(rest, '.', 0);
    lemma_find_char(rest, '.', 0);
    if "cfg:"@.is_prefix_of(s) && dot < rest.len() && object_kind(rest.take(dot)) is Some {
        let kind = object_kind(rest.take(dot))->0;
        let name = rest.skip(dot + 1);
        let r = "cfg:"@ + kind + "Ref."@ + name;
        assert(ref_type(t) == r);
        assert(r[0] == 'c');
        if name.len() > 0 {
            assert(r.last() == name.last());
            assert(name.last() == s.last());
        } else {
            assert(r.last() == '.');
        }
        lemma_trimmed_whole(r);
        let tail = r.skip(4);
        let head = kind + "Ref"@;
        assert(tail =~= head + seq!['.'] + name);
        assert(forall|k: int| 0 <= k < kind.len() ==> kind[k] == rest[k]);
        assert forall|k: int| 0 <= k < head.len() implies head[k] != '.' by {
            if k < kind.len() {
                assert(kind[k] == rest[k]);
            }
        }
        lemma_find_at(tail, '.', 0, head.len() as int);
        assert(tail.take(head.len() as int) =~= head);
        lemma_ref_head(kind);
    }
}

proof fn lemma_find_at(s: Seq<char>, c: char, i: int, j: int)
    requires
        0 <= i <= j < s.len(),
        s[j] == c,
        forall|k: int| i <= k < j ==> #[trigger] s[k] != c,
    ensures
        find_char(s, c, i) == j,
    decreases j - i,
{
    if i < j {
        assert(s[i] != c);
        lemma_find_at(s, c, i + 1, j);
    }
}

/// Whether a text is one of the endings that object types have behind the kind of the
/// object.
pub open spec fn is_object_suffix(s: Seq<char>) -> bool {
    ||| s == "RecordSet"@
    ||| s == "RecordManager"@
    ||| s == "RecordKey"@
    ||| s == "Record"@
    ||| s == "Object"@
    ||| s == "Manager"@
    ||| s == "List"@
    ||| s == "Selection"@
}

proof fn lemma_suffix_marks()
    ensures
        "RecordSet"@.len() == 9,
        "RecordSet"@[8] == 't',
        "RecordSet"@[7] == 'e',
        "RecordManager"@.len() == 13,
        "RecordManager"@[12] == 'r',
        "RecordManager"@ == "Record"@ + "Manager"@,
        "RecordKey"@.len() == 9,
        "RecordKey"@[8] == 'y',
        "Record"@.len() == 6,
        "Record"@[5] == 'd',
        "Object"@.len() == 6,
        "Object"@[5] == 't',
        "Object"@[4] == 'c',
        "Manager"@.len() == 7,
        "Manager"@[6] == 'r',
        "List"@.len() == 4,
        "List"@[3] == 't',
        "List"@[2] == 's',
        "Selection"@.len() == 9,
        "Selection"@[8] == 'n',
{
    reveal_strlit("RecordSet");
    reveal_strlit("RecordManager");
    reveal_strlit("RecordKey");
    reveal_strlit("Record");
    reveal_strlit("Object");
    reveal_strlit("Manager");
    reveal_strlit("List");
    reveal_strlit("Selection");
}

/// A letter that differs, counted from the end, rules a suffix out.
proof fn lemma_other_letter(head: Seq<char>, suffix: Seq<char>, j: int)
    requires
        0 < j <= head.len(),
        j <= suffix.len(),
        head[head.len() - j] != suffix[suffix.len() - j],
    ensures
        without_suffix(head, suffix) is None,
{
    if suffix.is_suffix_of(head) {
        let tail = head.subrange(head.len() - suffix.len(), head.len() as int);
        assert(tail[suffix.len() - j] == head[head.len() - j]);
    }
}

proof fn lemma_suffix_found(kind: Seq<char>, suffix: Seq<char>)
    requires
        kind.len() > 0,
    ensures
        without_suffix(kind + suffix, suffix) == Some(kind),
{
    let head = kind + suffix;
    assert(head.subrange(head.len() - suffix.len(), head.len() as int) =~= suffix);
    assert(head.take(head.len() - suffix.len()) =~= kind);
}

/// Endings whose letters differ, counted from the end, are not taken for one another.
proof fn lemma_other_suffix(kind: Seq<char>, suffix: Seq<char>, other: Seq<char>, j: int)
    requires
        0 < j <= suffix.len(),
        j <= other.len(),
        suffix[suffix.len() - j] != other[other.len() - j],
    ensures
        without_suffix(kind + suffix, other) is None,
{
    let head = kind + suffix;
    assert(head[head.len() - j] == suffix[suffix.len() - j]);
    lemma_other_letter(head, other, j);
}

proof fn lemma_manager_alone(kind: Seq<char>)
    requires
        !"Record"@.is_suffix_of(kind),
    ensures
        without_suffix(kind + "Manager"@, "RecordManager"@) is None,
{
    lemma_suffix_marks();
    let head = kind + "Manager"@;
    let record = "Record"@;
    if "RecordManager"@.is_suffix_of(head) {
        let tail = head.subrange(head.len() - 13, head.len() as int);
        assert(tail == record + "Manager"@);
        let end = kind.subrange(kind.len() - 6, kind.len() as int);
        assert forall|k: int| 0 <= k < 6 implies #[trigger] end[k] == record[k] by {
            assert(end[k] == head[head.len() - 13 + k]);
            assert(tail[k] == record[k]);
        }
        assert(end =~= record);
    }
}

proof fn lemma_longest_suffix(kind: Seq<char>, suffix: Seq<char>)
    requires
        kind.len() > 0,
        !"Record"@.is_suffix_of(kind),
        is_object_suffix(suffix),
    ensures
        object_kind(kind + suffix) == Some(kind),
{
    lemma_suffix_marks();
    lemma_suffix_found(kind, suffix);
    if suffix == "RecordManager"@ {
        lemma_other_suffix(kind, suffix, "RecordSet"@, 1);
    } else if suffix == "RecordKey"@ {
        lemma_other_suffix(kind, suffix, "RecordSet"@, 1);
        lemma_other_suffix(kind, suffix, "RecordManager"@, 1);
    } else if suffix == "Record"@ {
        lemma_other_suffix(kind, suffix, "RecordSet"@, 1);
        lemma_other_suffix(kind, suffix, "RecordManager"@, 1);
        lemma_other_suffix(kind, suffix, "RecordKey"@, 1);
    } else if suffix == "Object"@ {
        lemma_other_suffix(kind, suffix, "RecordSet"@, 2);
        lemma_other_suffix(kind, suffix, "RecordManager"@, 1);
        lemma_other_suffix(kind, suffix, "RecordKey"@, 1);
        lemma_other_suffix(kind, suffix, "Record"@, 1);
    } else if suffix == "Manager"@ {
        lemma_other_suffix(kind, suffix, "RecordSet"@, 1);
        lemma_manager_alone(kind);
        lemma_other_suffix(kind, suffix, "RecordKey"@, 1);
        lemma_other_suffix(kind, suffix, "Record"@, 1);
        lemma_other_suffix(kind, suffix, "Object"@, 1);
    } else if suffix == "List"@ {
        lemma_other_suffix(kind, suffix, "RecordSet"@, 2);
        lemma_other_suffix(kind, suffix, "RecordManager"@, 1);
        lemma_other_suffix(kind, suffix, "RecordKey"@, 1);
        lemma_other_suffix(kind, suffix, "Record"@, 1);
        lemma_other_suffix(kind, suffix, "Object"@, 2);
        lemma_other_suffix(kind, suffix, "Manager"@, 1);
    } else if suffix == "Selection"@ {
        lemma_other_suffix(kind, suffix, "RecordSet"@, 1);
        lemma_other_suffix(kind, suffix, "RecordManager"@, 1);
        lemma_other_suffix(kind, suffix, "RecordKey"@, 1);
        lemma_other_suffix(kind, suffix, "Record"@, 1);
        lemma_other_suffix(kind, suffix, "Object"@, 1);
        lemma_other_suffix(kind, suffix, "Manager"@, 1);
        lemma_other_suffix(kind, suffix, "List"@, 1);
    }
}

/// The type of an object refers to the object: whatever the ending behind the kind is, the
/// whole ending makes room for that of a reference. So the record manager of a register
/// refers to the register and not to a record of it.
pub proof fn law_object_type_refers(kind: Seq<char>, suffix: Seq<char>, name: Seq<char>)
    requires
        kind.len() > 0,
        !kind.contains('.'),
        !"Record"@.is_suffix_of(kind),
        is_object_suffix(suffix),
        name.len() > 0 ==> !is_space(name.last()),
    ensures
        ref_type("cfg:"@ + kind + suffix + "."@ + name) == "cfg:"@ + kind + "Ref."@ + name,
{
    let t = "cfg:"@ + kind + suffix + "."@ + name;
    let head = kind + suffix;
    lemma_suffix_without_point(suffix);
    assert forall|k: int| 0 <= k < head.len() implies #[trigger] head[k] != '.' by {
        if k < kind.len() {
            assert(kind.contains(kind[k]));
        } else {
            assert(suffix.contains(suffix[k - kind.len()]));
        }
    }
    lemma_type_parts(head, name);
    assert("cfg:"@ + head + "."@ + name =~= t);
    lemma_longest_suffix(kind, suffix);
}

proof fn lemma_suffix_without_point(suffix: Seq<char>)
    requires
        is_object_suffix(suffix),
    ensures
        !suffix.contains('.'),
{
    reveal_strlit("RecordSet");
    reveal_strlit("RecordManager");
    reveal_strlit("RecordKey");
    reveal_strlit("Record");
    reveal_strlit("Object");
    reveal_strlit("Manager");
    reveal_strlit("List");
    reveal_strlit("Selection");
}

/// A type of the configuration that has a point, taken apart.
proof fn lemma_type_parts(head: Seq<char>, name: Seq<char>)
    requires
        forall|k: int| 0 <= k < head.len() ==> #[trigger] head[k] != '.',
        name.len() > 0 ==> !is_space(name.last()),
    ensures
        ref_type("cfg:"@ + head + "."@ + name) == match object_kind(head) {
            Some(kind) => "cfg:"@ + kind + "Ref."@ + name,
            None => "cfg:"@ + head + "."@ + name,
        },
{
    reveal_strlit("cfg:");
    reveal_strlit(".");
    let t = "cfg:"@ + head + "."@ + name;
    assert(t[0] == 'c');
    if name.len() > 0 {
        assert(t.last() == name.last());
    } else {
        assert(t.last() == '.');
    }
    lemma_trimmed_whole(t);
    let rest = t.skip(4);
    assert(rest =~= head + seq!['.'] + name);
    assert forall|k: int| 0 <= k < head.len() implies #[trigger] rest[k] != '.' by {
        assert(rest[k] == head[k]);
    }
    lemma_find_at(rest, '.', 0, head.len() as int);
    assert(rest.take(head.len() as int) =~= head);
    assert(rest.skip(head.len() as int + 1) =~= name);
    assert("cfg:"@ =~= t.take(4));
    assert("cfg:"@.is_prefix_of(t));
}

/// White space around a type does not matter.
pub proof fn law_space_around_type(a: Seq<char>, t: Seq<char>, b: Seq<char>)
    requires
        all_space(a),
        all_space(b),
        is_trim(t),
    ensures
        ref_type(a + t + b) == ref_type(t),
{
    law_trimmed(a, t, b);
    lemma_trimmed_whole(t);
}

/// A type that is no object type of the configuration stays as it is: one without the
/// prefix, one without a point, and one whose head is not a kind and an ending.
pub proof fn law_other_type_stays(t: Seq<char>)
    requires
        is_trim(t),
        "cfg:"@.is_prefix_of(t) ==> !t.skip(4).contains('.') || exists|head: Seq<char>, name: Seq<char>|
            t == #[trigger] ("cfg:"@ + head + "."@ + name) && !head.contains('.') && forall|suffix: Seq<char>|
                #[trigger] is_object_suffix(suffix) ==> !suffix.is_suffix_of(head) || head == suffix,
    ensures
        ref_type(t) == t,
{
    lemma_trimmed_whole(t);
    reveal_strlit("cfg:");
    reveal_strlit(".");
    let rest = t.skip(4);
    let dot = find_char(rest, '.', 0);
    lemma_find_char(rest, '.', 0);
    if "cfg:"@.is_prefix_of(t) && dot < rest.len() {
        assert(rest.contains(rest[dot]));
        let (head, name) = choose|head: Seq<char>, name: Seq<char>|
            t == #[trigger] ("cfg:"@ + head + "."@ + name) && !head.contains('.') && forall|suffix: Seq<char>|
                #[trigger] is_object_suffix(suffix) ==> !suffix.is_suffix_of(head) || head == suffix;
        assert(rest =~= head + seq!['.'] + name);
        assert forall|k: int| 0 <= k < head.len() implies #[trigger] rest[k] != '.' by {
            assert(rest[k] == head[k]);
            assert(head.contains(head[k]));
        }
        lemma_find_at(rest, '.', 0, head.len() as int);
        assert(rest.take(dot) =~= head);
        assert forall|suffix: Seq<char>| #[trigger] is_object_suffix(
            suffix,
        ) implies without_suffix(head, suffix) is None by {}
        assert(is_object_suffix("RecordSet"@));
        assert(is_object_suffix("RecordManager"@));
        assert(is_object_suffix("RecordKey"@));
        assert(is_object_suffix("Record"@));
        assert(is_object_suffix("Object"@));
        assert(is_object_suffix("Manager"@));
        assert(is_object_suffix("List"@));
        assert(is_object_suffix("Selection"@));
        assert(object_kind(head) is None);
    }
}

/// Inside no settings, an element with a name starts a field exactly when it is an
/// attribute right inside the attributes, a parameter right inside the parameters, or a
/// column right inside the columns of a named attribute. An element without a name starts
/// none.
pub proof fn law_what_starts_a_field(
    m: RefsModel,
    tag: Seq<char>,
    name: Seq<char>,
    l: nat,
)
    requires
        m.stack.len() > 0,
        !is_inside(m.stack, "Settings"@),
    ensures
        m.step(RefStepModel::Open(tag, None, l)).fields == m.fields,
        m.step(RefStepModel::Open(tag, Some(Seq::empty()), l)).fields == m.fields,
        name.len() > 0 ==> ({
            let a = m.step(RefStepModel::Open(tag, Some(name), l));
            let owner = m.stack.last().tag;
            if tag == "Attribute"@ && owner == "Attributes"@ {
                a.fields == m.fields.push(
                    FieldModel { from_path: name, kind: "form_attr"@, types: Seq::empty() },
                )
            } else if tag == "Parameter"@ && owner == "Parameters"@ {
                a.fields == m.fields.push(
                    FieldModel { from_path: name, kind: "form_param"@, types: Seq::empty() },
                )
            } else if tag == "Column"@ && owner == "Columns"@ {
                forall|k: int|
                    0 <= k < m.stack.len() && (#[trigger] m.stack[k]).tag == "Attribute"@
                        && m.stack[k].name is Some && m.stack[k].name->0.len() > 0 && (forall|
                        j: int,
                    |
                        k < j < m.stack.len() ==> (#[trigger] m.stack[j]).tag != "Attribute"@)
                        ==> a.fields == m.fields.push(
                        FieldModel {
                            from_path: m.stack[k].name->0 + "."@ + name,
                            kind: "form_attr"@,
                            types: Seq::empty(),
                        },
                    )
            } else {
                a.fields == m.fields
            }
        }),
{
    lemma_field_tags();
    if name.len() > 0 && tag == "Column"@ && m.stack.last().tag == "Columns"@ {
        let a = m.step(RefStepModel::Open(tag, Some(name), l));
        assert forall|k: int|
            0 <= k < m.stack.len() && (#[trigger] m.stack[k]).tag == "Attribute"@
                && m.stack[k].name is Some && m.stack[k].name->0.len() > 0 && (forall|j: int|
                k < j < m.stack.len() ==> (#[trigger] m.stack[j]).tag
                    != "Attribute"@) implies a.fields == m.fields.push(
            FieldModel {
                from_path: m.stack[k].name->0 + "."@ + name,
                kind: "form_attr"@,
                types: Seq::empty(),
            },
        ) by {
            lemma_nearest_is(m.stack, "Attribute"@, k, m.stack.len() as int);
        }
    }
}

proof fn lemma_field_tags()
    ensures
        "Attribute"@ != "Parameter"@,
        "Attribute"@ != "Column"@,
        "Parameter"@ != "Column"@,
{
    reveal_strlit("Attribute");
    reveal_strlit("Parameter");
    reveal_strlit("Column");
    assert("Attribute"@[0] != "Parameter"@[0]);
    assert("Attribute"@[0] != "Column"@[0]);
    assert("Parameter"@[0] != "Column"@[0]);
}

proof fn lemma_nearest_is(stack: Seq<OpenModel>, tag: Seq<char>, k: int, n: int)
    requires
        0 <= k < n <= stack.len(),
        stack[k].tag == tag,
        named(stack[k].name) is Some,
        forall|j: int| k < j < n ==> (#[trigger] stack[j]).tag != tag,
    ensures
        nearest(stack, tag, n) == stack[k].name,
    decreases n,
{
    if k < n - 1 {
        assert(stack[n - 1].tag != tag);
        lemma_nearest_is(stack, tag, k, n - 1);
    }
}

/// A parameter of a form with one type gives one link: its name and the reference type.
/// The place in the form is the same afterwards.
pub proof fn law_parameter_element(m: RefsModel, name: Seq<char>, text: Seq<char>, l: nat)
    requires
        within(m.stack, "Parameters"@),
        !is_inside(m.stack, "Settings"@),
        name.len() > 0,
        trimmed(text).len() > 0,
    ensures
        m.step(RefStepModel::Open("Parameter"@, Some(name), l)).step(
            RefStepModel::Open("Type"@, None, l),
        ).step(RefStepModel::Text(text)).step(RefStepModel::Close).step(RefStepModel::Close) == (
        RefsModel {
            links: m.links.push(
                LinkModel::Field(
                    FieldModel {
                        from_path: name,
                        kind: "form_param"@,
                        types: seq![ref_type(trimmed(text))],
                    },
                ),
            ),
            ..m
        }),
{
    lemma_field_tags();
    let f = FieldModel { from_path: name, kind: "form_param"@, types: Seq::empty() };
    reveal_strlit("Parameter");
    reveal_strlit("Type");
    reveal_strlit("QueryText");
    assert("Parameter"@[0] != "QueryText"@[0]);
    assert("Parameter"@.len() != "Type"@.len());
    lemma_field_with_type(m, "Parameter"@, name, f, text, l);
}

/// A column of a table with one type gives one link, whose path is the name of the
/// attribute and that of the column. The place in the form is the same afterwards.
pub proof fn law_column_element(
    m: RefsModel,
    attr: Seq<char>,
    name: Seq<char>,
    text: Seq<char>,
    l: nat,
)
    requires
        within(m.stack, "Attributes"@),
        !is_inside(m.stack, "Settings"@),
        attr.len() > 0,
        name.len() > 0,
        trimmed(text).len() > 0,
    ensures
        ({
            let a = m.step(RefStepModel::Open("Attribute"@, Some(attr), l)).step(
                RefStepModel::Open("Columns"@, None, l),
            );
            a.step(RefStepModel::Open("Column"@, Some(name), l)).step(
                RefStepModel::Open("Type"@, None, l),
            ).step(RefStepModel::Text(text)).step(RefStepModel::Close).step(RefStepModel::Close)
                == (RefsModel {
                links: m.links.push(
                    LinkModel::Field(
                        FieldModel {
                            from_path: attr + "."@ + name,
                            kind: "form_attr"@,
                            types: seq![ref_type(trimmed(text))],
                        },
                    ),
                ),
                ..a
            })
        }),
{
    lemma_field_tags();
    reveal_strlit("Settings");
    reveal_strlit("Attribute");
    reveal_strlit("Columns");
    reveal_strlit("Column");
    reveal_strlit("Type");
    reveal_strlit("QueryText");
    assert("Attribute"@[0] != "Settings"@[0]);
    assert("Columns"@[0] != "Settings"@[0]);
    assert("Columns"@[0] != "Attribute"@[0]);
    assert("Column"@[0] != "QueryText"@[0]);
    assert("Column"@.len() != "Type"@.len());
    let b = m.step(RefStepModel::Open("Attribute"@, Some(attr), l));
    let a = b.step(RefStepModel::Open("Columns"@, None, l));
    let n = m.stack.len() as int;
    assert(a.stack[n].tag == "Attribute"@ && a.stack[n].name == Some(attr));
    assert(a.stack[n + 1].tag == "Columns"@);
    assert(!is_inside(a.stack, "Settings"@)) by {
        assert forall|k: int| 0 <= k < a.stack.len() implies (#[trigger] a.stack[k]).tag
            != "Settings"@ by {
            if k < n {
                assert(a.stack[k] == m.stack[k]);
            }
        }
    }
    lemma_nearest_is(a.stack, "Attribute"@, n, n + 2);
    assert(a.links == m.links);
    let f = FieldModel { from_path: attr + "."@ + name, kind: "form_attr"@, types: Seq::empty() };
    lemma_field_with_type(a, "Column"@, name, f, text, l);
}

proof fn lemma_field_with_type(
    m: RefsModel,
    tag: Seq<char>,
    name: Seq<char>,
    f: FieldModel,
    text: Seq<char>,
    l: nat,
)
    requires
        new_field(m.stack, tag, Some(name)) == Some(f),
        tag != "QueryText"@,
        tag != "Type"@,
        trimmed(text).len() > 0,
    ensures
        m.step(RefStepModel::Open(tag, Some(name), l)).step(
            RefStepModel::Open("Type"@, None, l),
        ).step(RefStepModel::Text(text)).step(RefStepModel::Close).step(RefStepModel::Close) == (
        RefsModel {
            links: m.links.push(
                LinkModel::Field(
                    FieldModel { types: f.types.push(ref_type(trimmed(text))), ..f },
                ),
            ),
            ..m
        }),
{
    reveal_strlit("Type");
    reveal_strlit("QueryText");
    assert("Type"@.len() != "QueryText"@.len());
    let a = m.step(RefStepModel::Open(tag, Some(name), l));
    let b = a.step(RefStepModel::Open("Type"@, None, l));
    let n = b.stack.len() as int;
    assert(b.stack[n - 1].tag == "Type"@);
    assert(b.stack[n - 2].tag == tag);
    assert(is_field_type(b.stack, n - 1, true));
    assert(is_field_type(b.stack, n, false));
    let c = b.step(RefStepModel::Text(text));
    let d = c.step(RefStepModel::Close);
    assert(d.stack =~= a.stack);
    let e = d.step(RefStepModel::Close);
    assert(e.stack =~= m.stack);
    assert(e.fields =~= m.fields);
}

/// Every type of a field is kept: a further type element of an open field adds its
/// reference type behind the others, whatever the field and however many types it has.
pub proof fn law_types_of_a_field(
    m: RefsModel,
    name: Option<Seq<char>>,
    text: Seq<char>,
    l: nat,
)
    requires
        m.stack.len() > 0,
        m.stack.last().is_field,
        m.stack.last().tag != "Type"@,
        m.fields.len() > 0,
        trimmed(text).len() > 0,
    ensures
        m.step(RefStepModel::Open("Type"@, None, l)).step(RefStepModel::Text(text)).step(
            RefStepModel::Close,
        ) == (RefsModel {
            fields: m.fields.drop_last().push(
                FieldModel {
                    types: m.fields.last().types.push(ref_type(trimmed(text))),
                    ..m.fields.last()
                },
            ),
            ..m
        }),
        m.step(RefStepModel::Open("Type"@, None, l)).step(RefStepModel::Open("Type"@, name, l)).step(
            RefStepModel::Text(text),
        ).step(RefStepModel::Close).step(RefStepModel::Close) == (RefsModel {
            fields: m.fields.drop_last().push(
                FieldModel {
                    types: m.fields.last().types.push(ref_type(trimmed(text))),
                    ..m.fields.last()
                },
            ),
            ..m
        }),
{
    lemma_field_tags();
    reveal_strlit("Attribute");
    reveal_strlit("Parameter");
    reveal_strlit("Column");
    reveal_strlit("Type");
    reveal_strlit("QueryText");
    assert("Type"@.len() != "QueryText"@.len());
    assert("Type"@.len() != "Attribute"@.len());
    assert("Type"@.len() != "Parameter"@.len());
    assert("Type"@.len() != "Column"@.len());
    let a = m.step(RefStepModel::Open("Type"@, None, l));
    let n = a.stack.len() as int;
    assert(a.stack[n - 2] == m.stack.last());
    assert(is_field_type(a.stack, n - 1, true));
    assert(is_field_type(a.stack, n, false));
    let b = a.step(RefStepModel::Text(text)).step(RefStepModel::Close);
    assert(b.stack =~= m.stack);
    let c = a.step(RefStepModel::Open("Type"@, name, l));
    assert(c.stack[n - 2] == m.stack.last());
    assert(c.stack[n - 1].tag == "Type"@);
    assert(c.stack[n].tag == "Type"@);
    assert(is_field_type(c.stack, n - 1, true));
    assert(is_field_type(c.stack, n, true));
    assert(is_field_type(c.stack, n + 1, false));
    let d = c.step(RefStepModel::Text(text)).step(RefStepModel::Close).step(RefStepModel::Close);
    assert(d.stack =~= m.stack);
}

/// The main table of a dynamic list gives one link from the attribute of the list to the
/// table. The place in the form is the same afterwards.
pub proof fn law_main_table(m: RefsModel, k: int, name: Option<Seq<char>>, text: Seq<char>, l: nat)
    requires
        is_inside(m.stack, "Settings"@),
        0 <= k < m.stack.len(),
        m.stack[k].tag == "Attribute"@,
        m.stack[k].name is Some,
        m.stack[k].name->0.len() > 0,
        forall|j: int| k < j < m.stack.len() ==> (#[trigger] m.stack[j]).tag != "Attribute"@,
    ensures
        m.step(RefStepModel::Open("MainTable"@, name, l)).step(RefStepModel::Text(text)).step(
            RefStepModel::Close,
        ) == (RefsModel {
            links: m.links.push(LinkModel::MainTable(m.stack[k].name->0, trimmed(text))),
            ..m
        }),
{
    reveal_strlit("MainTable");
    reveal_strlit("Attribute");
    reveal_strlit("Type");
    reveal_strlit("QueryText");
    assert("MainTable"@[0] != "Attribute"@[0]);
    assert("MainTable"@[0] != "Type"@[0]);
    assert("MainTable"@[0] != "QueryText"@[0]);
    let a = m.step(RefStepModel::Open("MainTable"@, name, l));
    let n = m.stack.len() as int;
    assert(forall|j: int| 0 <= j < n ==> #[trigger] a.stack[j] == m.stack[j]);
    assert(a.stack[n].tag == "MainTable"@);
    let s = choose|s: int| 0 <= s < m.stack.len() && (#[trigger] m.stack[s]).tag == "Settings"@;
    assert(a.stack[s].tag == "Settings"@);
    lemma_nearest_is(a.stack, "Attribute"@, k, n + 1);
    let b = a.step(RefStepModel::Text(text)).step(RefStepModel::Close);
    assert(b.stack =~= m.stack);
}

/// Outside the settings of a dynamic list neither a main table nor a query counts: the
/// text of such an element leaves nothing behind.
pub proof fn law_list_only_in_settings(
    m: RefsModel,
    tag: Seq<char>,
    name: Option<Seq<char>>,
    text: Seq<char>,
    l: nat,
)
    requires
        tag == "MainTable"@ || tag == "QueryText"@,
        !is_inside(m.stack, "Settings"@),
        m.line is None,
        !m.has_entry,
    ensures
        m.step(RefStepModel::Open(tag, name, l)).step(RefStepModel::Text(text)).step(
            RefStepModel::Close,
        ) == m,
{
    lemma_field_tags();
    reveal_strlit("MainTable");
    reveal_strlit("Attribute");
    reveal_strlit("Parameter");
    reveal_strlit("Column");
    reveal_strlit("Settings");
    reveal_strlit("Type");
    reveal_strlit("QueryText");
    assert("MainTable"@[0] != "Attribute"@[0] && "QueryText"@[0] != "Attribute"@[0]);
    assert("MainTable"@[0] != "Parameter"@[0] && "QueryText"@[0] != "Parameter"@[0]);
    assert("MainTable"@[0] != "Column"@[0] && "QueryText"@[0] != "Column"@[0]);
    assert("MainTable"@[0] != "Type"@[0] && "QueryText"@[0] != "Type"@[0]);
    assert("MainTable"@[0] != "Settings"@[0] && "QueryText"@[0] != "Settings"@[0]);
    assert("MainTable"@[0] != "QueryText"@[0]);
    let a = m.step(RefStepModel::Open(tag, name, l));
    let n = m.stack.len() as int;
    assert(a.stack[n].tag == tag);
    assert(!is_inside(a.stack, "Settings"@)) by {
        assert forall|k: int| 0 <= k < a.stack.len() implies (#[trigger] a.stack[k]).tag
            != "Settings"@ by {
            if k < n {
                assert(a.stack[k] == m.stack[k]);
            }
        }
    }
    let b = a.step(RefStepModel::Text(text)).step(RefStepModel::Close);
    assert(b.stack =~= m.stack);
}

/// Text anywhere else, and all that is neither a tag nor text, leaves nothing behind.
pub proof fn law_other_steps_leave_nothing(m: RefsModel, text: Seq<char>)
    ensures
        m.step(RefStepModel::Skip) == m,
        m.stack.len() == 0 || (m.stack.last().tag != "Type"@ && m.stack.last().tag != "MainTable"@
            && m.stack.last().tag != "QueryText"@) ==> m.step(RefStepModel::Text(text)) == m,
{
}

/// A main table whose object has a full name gives one edge to that object, from the
/// attribute of the list; a name without a point gives none.
pub proof fn law_main_table_edge(attr: Seq<char>, object: Seq<char>)
    ensures
        main_table_edges(attr, object).len() == if object.contains('.') {
            1nat
        } else {
            0nat
        },
        forall|k: int|
            0 <= k < main_table_edges(attr, object).len() ==> (#[trigger] main_table_edges(
                attr,
                object,
            )[k]) == (EdgeModel {
                from_path: attr,
                to_object: object,
                link_kind: "form_main_table"@,
                is_composite: false,
                is_universal: false,
            }),
{
}

/// What the parser reads is what the form is made of: opening tags by their local names
/// with their first attribute `name`, closing tags, texts in the form that escapes stand
/// for, character data as it is. Anything else is passed over.
pub proof fn law_ref_steps(reads: Seq<XmlRead>, bytes: Seq<u8>, k: int)
    requires
        0 <= k < reads.len(),
    ensures
        ref_steps(reads, bytes).len() == reads.len(),
        match reads[k].event {
            EventModel::Start(name, list) => ref_steps(reads, bytes)[k] == RefStepModel::Open(
                local(name),
                first_name(list, 0),
                line_number(bytes, reads[k].position),
            ),
            EventModel::End(_) => ref_steps(reads, bytes)[k] == RefStepModel::Close,
            EventModel::Text(raw) => ref_steps(reads, bytes)[k] == RefStepModel::Text(
                plain_text(raw),
            ),
            EventModel::CData(raw) => ref_steps(reads, bytes)[k] == RefStepModel::Text(lossy(raw)),
            _ => ref_steps(reads, bytes)[k] == RefStepModel::Skip,
        },
{
}

proof fn lemma_ref_run(m: RefsModel, x: Seq<RefStepModel>, y: Seq<RefStepModel>, n: int)
    requires
        0 <= n <= y.len(),
        n <= x.len(),
        forall|k: int| 0 <= k < n ==> #[trigger] x[k] == y[k],
    ensures
        m.run(x, n) == m.run(y, n),
    decreases n,
{
    if n > 0 {
        lemma_ref_run(m, x, y, n - 1);
        assert(x[n - 1] == y[n - 1]);
    }
}

/// Every step of the parser counts, in their order, from the first to the last before the
/// end.
pub proof fn law_all_ref_steps(
    m: RefsModel,
    reads: Seq<XmlRead>,
    last: XmlRead,
    bytes: Seq<u8>,
    x: Seq<RefStepModel>,
    s: RefStepModel,
)
    ensures
        form_refs(reads.push(last), bytes) == RefsModel::start().run(
            ref_steps(reads, bytes),
            reads.len() as int,
        ),
        RefsModel::start().links.len() == 0,
        RefsModel::start().queries.len() == 0,
        RefsModel::start().stack.len() == 0,
        RefsModel::start().fields.len() == 0,
        RefsModel::start().line is None,
        !RefsModel::start().has_entry,
        m.run(x, 0) == m,
        m.run(x.push(s), x.len() as int + 1) == m.run(x, x.len() as int).step(s),
{
    lemma_ref_run(m, x.push(s), x, x.len() as int);
    lemma_ref_run(
        RefsModel::start(),
        ref_steps(reads.push(last), bytes),
        ref_steps(reads, bytes),
        reads.len() as int,
    );
}

/// Every link has its edges, in the order of the links: those that are given for a field
/// as they are, and one to the object of a main table whose name is a full name. `cut` is
/// where the edges of the last link begin.
pub proof fn law_edges_of_links<
    F: Fn(&FormField) -> Vec<DataLinkEdge>,
    G: Fn(&String) -> String,
>(
    list: Seq<FormLink>,
    link: FormLink,
    edges: Seq<DataLinkEdge>,
    edges_of: F,
    object_of: G,
) -> (cut: int)
    requires
        all_link_edges(list.push(link), edges, edges_of, object_of),
    ensures
        0 <= cut <= edges.len(),
        all_link_edges(list, edges.take(cut), edges_of, object_of),
        match link {
            FormLink::Field(f) => exists|v: Vec<DataLinkEdge>|
                #[trigger] call_ensures(edges_of, (&f,), v) && edges.skip(cut) == v@,
            FormLink::MainTable(attr, table) => exists|object: String|
                #[trigger] call_ensures(object_of, (&table,), object) && if object@.contains('.') {
                    edges.len() == cut + 1 && edges[cut]@ == (EdgeModel {
                        from_path: attr@,
                        to_object: object@,
                        link_kind: "form_main_table"@,
                        is_composite: false,
                        is_universal: false,
                    })
                } else {
                    edges.len() == cut
                },
        },
{
    let all = list.push(link);
    let cuts = choose|cuts: Seq<int>| cut_by_links(all, edges, cuts, edges_of, object_of);
    let n = list.len() as int;
    let cut = cuts[n];
    lemma_last_cut(list, link, edges, cuts, edges_of, object_of);
    lemma_first_cuts(list, link, edges, cuts, edges_of, object_of);
    let tail = edges.skip(cut);
    if let FormLink::MainTable(attr, table) = link {
        let object = choose|object: String|
            #[trigger] call_ensures(object_of, (&table,), object) && edge_models(tail)
                == main_table_edges(attr@, object@);
        assert(edge_models(tail).len() == tail.len());
        if object@.contains('.') {
            assert(edge_models(tail)[0] == tail[0]@);
            assert(tail[0] == edges[cut]);
        }
    }
    cut
}

proof fn lemma_last_cut<F: Fn(&FormField) -> Vec<DataLinkEdge>, G: Fn(&String) -> String>(
    list: Seq<FormLink>,
    link: FormLink,
    edges: Seq<DataLinkEdge>,
    cuts: Seq<int>,
    edges_of: F,
    object_of: G,
)
    requires
        cut_by_links(list.push(link), edges, cuts, edges_of, object_of),
    ensures
        0 <= cuts[list.len() as int] <= edges.len(),
        link_edges(link, edges.skip(cuts[list.len() as int]), edges_of, object_of),
{
    let n = list.len() as int;
    assert(0 <= cuts[n] <= cuts[n + 1] <= edges.len());
    assert(list.push(link)[n] == link);
    assert(edges.subrange(cuts[n], cuts[n + 1]) =~= edges.skip(cuts[n]));
}

proof fn lemma_first_cuts<F: Fn(&FormField) -> Vec<DataLinkEdge>, G: Fn(&String) -> String>(
    list: Seq<FormLink>,
    link: FormLink,
    edges: Seq<DataLinkEdge>,
    cuts: Seq<int>,
    edges_of: F,
    object_of: G,
)
    requires
        cut_by_links(list.push(link), edges, cuts, edges_of, object_of),
    ensures
        all_link_edges(list, edges.take(cuts[list.len() as int]), edges_of, object_of),
{
    let n = list.len() as int;
    let all = list.push(link);
    let first = cuts.take(n + 1);
    lemma_last_cut(list, link, edges, cuts, edges_of, object_of);
    let head = edges.take(cuts[n]);
    assert forall|i: int| 0 <= i < list.len() implies 0 <= #[trigger] first[i] <= first[i + 1]
        <= head.len() && link_edges(
        list[i],
        head.subrange(first[i], first[i + 1]),
        edges_of,
        object_of,
    ) by {
        lemma_one_cut(all, edges, cuts, edges_of, object_of, i);
        lemma_cuts_grow(all, edges, cuts, edges_of, object_of, i + 1, n);
        assert(all[i] == list[i]);
        assert(head.subrange(first[i], first[i + 1]) =~= edges.subrange(cuts[i], cuts[i + 1]));
    }
    assert(cut_by_links(list, head, first, edges_of, object_of));
}

proof fn lemma_one_cut<F: Fn(&FormField) -> Vec<DataLinkEdge>, G: Fn(&String) -> String>(
    list: Seq<FormLink>,
    edges: Seq<DataLinkEdge>,
    cuts: Seq<int>,
    edges_of: F,
    object_of: G,
    i: int,
)
    requires
        cut_by_links(list, edges, cuts, edges_of, object_of),
        0 <= i < list.len(),
    ensures
        0 <= cuts[i] <= cuts[i + 1] <= edges.len(),
        link_edges(list[i], edges.subrange(cuts[i], cuts[i + 1]), edges_of, object_of),
{
}

proof fn lemma_cuts_grow<F: Fn(&FormField) -> Vec<DataLinkEdge>, G: Fn(&String) -> String>(
    list: Seq<FormLink>,
    edges: Seq<DataLinkEdge>,
    cuts: Seq<int>,
    edges_of: F,
    object_of: G,
    i: int,
    j: int,
)
    requires
        cut_by_links(list, edges, cuts, edges_of, object_of),
        0 <= i <= j <= list.len(),
    ensures
        cuts[i] <= cuts[j],
    decreases j - i,
{
    if i < j {
        lemma_cuts_grow(list, edges, cuts, edges_of, object_of, i, j - 1);
        assert(cuts[j - 1] <= cuts[j - 1 + 1]);
    }
}

/// Without links there are no edges.
pub proof fn law_no_links_no_edges<
    F: Fn(&FormField) -> Vec<DataLinkEdge>,
    G: Fn(&String) -> String,
>(edges: Seq<DataLinkEdge>, edges_of: F, object_of: G)
    requires
        all_link_edges(Seq::empty(), edges, edges_of, object_of),
    ensures
        edges.len() == 0,
{
    let none = Seq::<FormLink>::empty();
    let cuts = choose|cuts: Seq<int>| cut_by_links(none, edges, cuts, edges_of, object_of);
    assert(cuts[0] == cuts.last());
}

/// The end of the element of a field completes the field: it is the next link as it is,
/// with however many types, and no longer open.
pub proof fn law_field_is_complete(m: RefsModel)
    requires
        m.stack.len() > 0,
        m.stack.last().is_field,
        m.fields.len() > 0,
    ensures
        m.step(RefStepModel::Close).links == m.links.push(LinkModel::Field(m.fields.last())),
        m.step(RefStepModel::Close).fields == m.fields.drop_last(),
        m.step(RefStepModel::Close).stack == m.stack.drop_last(),
        m.step(RefStepModel::Close).queries == m.queries,
{
}

/// The end of any other element completes no field. A query stays open until its own
/// element ends.
pub proof fn law_other_element_ends(m: RefsModel)
    requires
        m.stack.len() > 0,
        !m.stack.last().is_field,
    ensures
        m.step(RefStepModel::Close).links == m.links,
        m.step(RefStepModel::Close).fields == m.fields,
        m.step(RefStepModel::Close).queries == m.queries,
        m.step(RefStepModel::Close).stack == m.stack.drop_last(),
        m.stack.last().tag != "QueryText"@ ==> m.step(RefStepModel::Close).line == m.line
            && m.step(RefStepModel::Close).has_entry == m.has_entry,
        m.stack.last().tag == "QueryText"@ ==> m.step(RefStepModel::Close).line is None,
{
}

/// An element is open inside another exactly when the other is open; opening an element
/// makes it the innermost one and keeps all others.
pub proof fn law_open_elements(
    m: RefsModel,
    tag: Seq<char>,
    name: Option<Seq<char>>,
    l: nat,
    other: Seq<char>,
)
    ensures
        !is_inside(Seq::empty(), other),
        ({
            let a = m.step(RefStepModel::Open(tag, name, l));
            &&& a.stack.len() == m.stack.len() + 1
            &&& m.stack.is_prefix_of(a.stack)
            &&& a.stack.last().tag == tag
            &&& a.stack.last().name == name
            &&& a.stack.last().is_field == (a.fields.len() > m.fields.len())
            &&& a.links == m.links
            &&& a.queries == m.queries
            &&& tag == "QueryText"@ && is_inside(m.stack, "Settings"@) ==> a.line == Some(l)
                && !a.has_entry
            &&& tag != "QueryText"@ || !is_inside(m.stack, "Settings"@) ==> a.line == m.line
                && a.has_entry == m.has_entry
            &&& is_inside(a.stack, other) == (tag == other || is_inside(m.stack, other))
            &&& within(a.stack, other) == (tag == other)
        }),
{
    let a = m.step(RefStepModel::Open(tag, name, l));
    let n = m.stack.len() as int;
    assert(a.stack[n].tag == tag);
    if is_inside(m.stack, other) {
        let k = choose|k: int| 0 <= k < m.stack.len() && (#[trigger] m.stack[k]).tag == other;
        assert(a.stack[k].tag == other);
    }
    if is_inside(a.stack, other) {
        let k = choose|k: int| 0 <= k < a.stack.len() && (#[trigger] a.stack[k]).tag == other;
        if k < n {
            assert(m.stack[k].tag == other);
        }
    }
}

/// Text in type elements, however many of them stand one inside the other, is a type of the
/// element around them exactly when that is the element of a field. Text elsewhere is none.
pub proof fn law_whose_type(stack: Seq<OpenModel>, f: int)
    requires
        -1 <= f < stack.len(),
        f >= 0 ==> stack[f].tag != "Type"@,
        forall|j: int| f < j < stack.len() ==> (#[trigger] stack[j]).tag == "Type"@,
    ensures
        is_field_type(stack, stack.len() as int, false) <==> 0 <= f < stack.len() - 1
            && stack[f].is_field,
{
    lemma_whose_type(stack, f, stack.len() as int, false);
}

proof fn lemma_whose_type(stack: Seq<OpenModel>, f: int, n: int, seen: bool)
    requires
        -1 <= f < n <= stack.len() || (f == -1 && n == 0),
        f >= 0 ==> stack[f].tag != "Type"@,
        forall|j: int| f < j < n ==> (#[trigger] stack[j]).tag == "Type"@,
    ensures
        is_field_type(stack, n, seen) <==> f >= 0 && (seen || f < n - 1) && stack[f].is_field,
    decreases n,
{
    if f < n - 1 {
        assert(stack[n - 1].tag == "Type"@);
        lemma_whose_type(stack, f, n - 1, true);
    }
}

/// A type of white space alone is none.
pub proof fn law_blank_type(m: RefsModel, text: Seq<char>)
    requires
        m.stack.len() > 0,
        m.stack.last().tag == "Type"@,
        trimmed(text).len() == 0,
    ensures
        m.step(RefStepModel::Text(text)) == m,
{
}

/// A column or a main table belongs to the innermost open attribute that has a name; where
/// no open attribute has one, they belong to none and leave nothing behind.
pub proof fn law_owner_of_column(stack: Seq<OpenModel>, k: int)
    requires
        -1 <= k < stack.len(),
        k >= 0 ==> stack[k].tag == "Attribute"@ && stack[k].name is Some
            && stack[k].name->0.len() > 0,
        forall|j: int|
            k < j < stack.len() ==> (#[trigger] stack[j]).tag != "Attribute"@
                || stack[j].name is None || stack[j].name->0.len() == 0,
    ensures
        nearest(stack, "Attribute"@, stack.len() as int) == if k >= 0 {
            stack[k].name
        } else {
            None
        },
{
    lemma_owner_of_column(stack, k, stack.len() as int);
}

proof fn lemma_owner_of_column(stack: Seq<OpenModel>, k: int, n: int)
    requires
        -1 <= k < n <= stack.len() || (k == -1 && n == 0),
        k >= 0 ==> stack[k].tag == "Attribute"@ && stack[k].name is Some
            && stack[k].name->0.len() > 0,
        forall|j: int|
            k < j < n ==> (#[trigger] stack[j]).tag != "Attribute"@ || stack[j].name is None
                || stack[j].name->0.len() == 0,
    ensures
        nearest(stack, "Attribute"@, n) == if k >= 0 {
            stack[k].name
        } else {
            None
        },
    decreases n,
{
    if k < n - 1 {
        assert(stack[n - 1].tag != "Attribute"@ || stack[n - 1].name is None || stack[n
            - 1].name->0.len() == 0);
        lemma_owner_of_column(stack, k, n - 1);
    }
}

} // verus!
