//! Event handlers of managed forms.
//!
//! An `Event` element names the event in its attribute `name` and the procedure in its
//! text. It belongs to the nearest element around it that has a name of its own, or to
//! the form itself. Tags are matched by their local names wherever they stand, so that
//! dumps of different formats read alike.

use vstd::prelude::*;

use super::error::{XmlError, XmlPart};
use super::events::{law_translation_is_not_empty, russian};
use super::file::{file_text, text_of_file, FileError, FormFile};
use super::reader::{
    buffer_position, ending, is_reading, last_attr_name, last_name, local, local_name, open_reader,
    pending, plain_text, read_event, read_text, xml_reads, EventModel, XmlEvent, XmlRead,
};
use crate::json::{
    add_field, json_array, json_list, json_object, json_of, json_string, json_string_of, json_text,
    Json,
};
use crate::text::{same_text, trim_text, trimmed};

pub use super::events::form_event_to_russian;
pub use super::form_refs::{
    form_type_to_ref, parse_form_refs_file, parse_form_refs_xml, DataLinkEdge, FormField, FormRefs,
    FORM_LINK_KINDS,
};

verus! {

/// Handler of one event of a form.
#[derive(Debug, Clone, PartialEq, Eq)]
pub struct FormHandler {
    /// Name of the event.
    pub event: String,
    /// Name of the procedure in the module of the form.
    pub handler: String,
    /// Element that the handler belongs to, `None` for the form itself.
    pub element: Option<String>,
}

/// Model of a [`FormHandler`].
#[verifier::ext_equal]
pub struct HandlerModel {
    pub event: Seq<char>,
    pub handler: Seq<char>,
    pub element: Option<Seq<char>>,
}

/// Optional text as a value of the model.
pub open spec fn maybe_text(s: Option<String>) -> Option<Seq<char>> {
    match s {
        Some(t) => Some(t@),
        None => None,
    }
}

impl View for FormHandler {
    type V = HandlerModel;

    open spec fn view(&self) -> HandlerModel {
        HandlerModel {
            event: self.event@,
            handler: self.handler@,
            element: maybe_text(self.element),
        }
    }
}

/// Models of handlers.
pub open spec fn handlers(v: Seq<FormHandler>) -> Seq<HandlerModel> {
    v.map_values(|h: FormHandler| h@)
}

/// Handler as a JSON object; a handler of the form itself has no field `element`.
pub open spec fn handler_json(h: HandlerModel) -> Json {
    let fields = Map::<Seq<char>, Json>::empty().insert("event"@, Json::Text(h.event)).insert(
        "handler"@,
        Json::Text(h.handler),
    );
    match h.element {
        Some(name) => Json::Object(fields.insert("element"@, Json::Text(name))),
        None => Json::Object(fields),
    }
}

/// Handlers as a JSON list.
pub open spec fn handlers_json(v: Seq<HandlerModel>) -> Json {
    Json::List(v.map_values(|h: HandlerModel| handler_json(h)))
}

/// Handlers as JSON text.
pub fn handlers_to_json(list: &[FormHandler]) -> (r: Result<String, serde_json::Error>)
    ensures
        r is Ok,
        r->Ok_0@ == json_text(handlers_json(handlers(list@))),
{
    let mut values: Vec<serde_json::Value> = Vec::new();
    let n: usize = list.len();
    let mut i: usize = 0;
    while i < n
        invariant
            i <= n,
            n == list@.len(),
            values@.len() == i,
            forall|k: int|
                0 <= k < i ==> json_of(#[trigger] values@[k]) == handler_json(list@[k]@),
        decreases n - i,
    {
        let h = &list[i];
        let mut fields: Vec<(String, serde_json::Value)> = Vec::new();
        proof {
            reveal_strlit("event");
            reveal_strlit("handler");
            reveal_strlit("element");
            assert("event"@.len() == 5 && "handler"@.len() == 7 && "element"@.len() == 7);
            assert("handler"@[0] != "element"@[0]);
        }
        add_field(&mut fields, "event", json_string(h.event.clone()));
        add_field(&mut fields, "handler", json_string(h.handler.clone()));
        match &h.element {
            Some(name) => {
                add_field(&mut fields, "element", json_string(name.clone()));
            },
            None => {},
        }
        values.push(json_object(fields));
        i = i + 1;
    }
    assert(json_list(values@) =~= handlers(list@).map_values(|h: HandlerModel| handler_json(h)));
    json_string_of(&json_array(values))
}

/// A step through a form.
pub enum FormStep {
    /// Opening tag: its local name and its attribute `name`.
    Open(String, Option<String>),
    /// Closing tag: its local name.
    Close(String),
    /// Text.
    Text(String),
    /// Anything else.
    Skip,
}

/// Model of a [`FormStep`].
pub enum FormStepModel {
    Open(Seq<char>, Option<Seq<char>>),
    Close(Seq<char>),
    Text(Seq<char>),
    Skip,
}

impl View for FormStep {
    type V = FormStepModel;

    open spec fn view(&self) -> FormStepModel {
        match self {
            FormStep::Open(tag, name) => FormStepModel::Open(tag@, maybe_text(*name)),
            FormStep::Close(tag) => FormStepModel::Close(tag@),
            FormStep::Text(s) => FormStepModel::Text(s@),
            FormStep::Skip => FormStepModel::Skip,
        }
    }
}

/// A name that is not empty.
pub open spec fn named(name: Option<Seq<char>>) -> Option<Seq<char>> {
    match name {
        Some(s) => if s.len() > 0 {
            Some(s)
        } else {
            None
        },
        None => None,
    }
}

/// The last owner among the first `n`.
pub open spec fn nearest_owner(owners: Seq<Option<Seq<char>>>, n: int) -> Option<Seq<char>>
    decreases n,
{
    if n <= 0 || n > owners.len() {
        None
    } else if owners[n - 1] is Some {
        owners[n - 1]
    } else {
        nearest_owner(owners, n - 1)
    }
}

/// Without the last item, if there is one.
pub open spec fn popped<T>(s: Seq<T>) -> Seq<T> {
    if s.len() > 0 {
        s.drop_last()
    } else {
        s
    }
}

/// Handlers found so far and the place in the form.
#[verifier::ext_equal]
pub struct HandlersModel {
    pub out: Seq<HandlerModel>,
    /// Name of the event whose element is open.
    pub event: Option<Seq<char>>,
    /// Local names of the open elements.
    pub tags: Seq<Seq<char>>,
    /// Names of the open elements; event elements own nothing.
    pub owners: Seq<Option<Seq<char>>>,
}

impl HandlersModel {
    /// Nothing found, no element open.
    pub open spec fn start() -> HandlersModel {
        HandlersModel {
            out: Seq::empty(),
            event: None,
            tags: Seq::empty(),
            owners: Seq::empty(),
        }
    }

    /// Whether text stands directly in an event element.
    pub open spec fn in_event(self) -> bool {
        self.tags.len() > 0 && self.tags.last() == "Event"@
    }

    /// Handler that a text names here, nothing where it names none.
    pub open spec fn handler(self, text: Seq<char>) -> Option<HandlerModel> {
        if self.in_event() && named(self.event) is Some && trimmed(text).len() > 0 {
            Some(
                HandlerModel {
                    event: russian(self.event->0),
                    handler: trimmed(text),
                    element: nearest_owner(self.owners, self.owners.len() as int),
                },
            )
        } else {
            None
        }
    }

    /// One step further.
    pub open spec fn step(self, s: FormStepModel) -> HandlersModel {
        match s {
            FormStepModel::Open(tag, name) => HandlersModel {
                event: if tag == "Event"@ {
                    name
                } else {
                    self.event
                },
                tags: self.tags.push(tag),
                owners: self.owners.push(
                    if tag == "Event"@ {
                        None
                    } else {
                        named(name)
                    },
                ),
                ..self
            },
            FormStepModel::Close(tag) => HandlersModel {
                event: if tag == "Event"@ {
                    None
                } else {
                    self.event
                },
                tags: popped(self.tags),
                owners: popped(self.owners),
                ..self
            },
            FormStepModel::Text(text) => match self.handler(text) {
                Some(h) => HandlersModel { out: self.out.push(h), ..self },
                None => self,
            },
            FormStepModel::Skip => self,
        }
    }

    /// The first `n` of a run of steps further.
    pub open spec fn run(self, steps: Seq<FormStepModel>, n: int) -> HandlersModel
        decreases n,
    {
        if n <= 0 {
            self
        } else {
            self.run(steps, n - 1).step(steps[n - 1])
        }
    }
}

/// What a step of the parser means for the handlers of a form.
pub open spec fn form_step(read: XmlRead) -> FormStepModel {
    match read.event {
        EventModel::Start(name, list) => FormStepModel::Open(
            local(name),
            last_name(list, list.len() as int),
        ),
        EventModel::End(name) => FormStepModel::Close(local(name)),
        EventModel::Text(raw) => FormStepModel::Text(plain_text(raw)),
        _ => FormStepModel::Skip,
    }
}

/// What the steps of the parser mean for the handlers of a form.
pub open spec fn form_steps(reads: Seq<XmlRead>) -> Seq<FormStepModel> {
    reads.map_values(|r: XmlRead| form_step(r))
}

/// Handlers of a form that reads as given.
pub open spec fn form_handlers(reads: Seq<XmlRead>) -> Seq<HandlerModel> {
    HandlersModel::start().run(form_steps(reads), reads.len() - 1).out
}

/// Optional names in a sequence.
pub open spec fn maybe_texts(v: Seq<Option<String>>) -> Seq<Option<Seq<char>>> {
    v.map_values(|s: Option<String>| maybe_text(s))
}

/// Collects the handlers of a form step by step.
pub struct HandlerCollector {
    pub out: Vec<FormHandler>,
    /// Name of the event whose element is open.
    pub event: Option<String>,
    /// Local names of the open elements.
    pub tags: Vec<String>,
    /// Names of the open elements; event elements own nothing.
    pub owners: Vec<Option<String>>,
}

impl View for HandlerCollector {
    type V = HandlersModel;

    open spec fn view(&self) -> HandlersModel {
        HandlersModel {
            out: handlers(self.out@),
            event: maybe_text(self.event),
            tags: crate::text::texts(self.tags@),
            owners: maybe_texts(self.owners@),
        }
    }
}

impl HandlerCollector {
    /// Nothing found, no element open.
    pub fn new() -> (r: HandlerCollector)
        ensures
            r@ == HandlersModel::start(),
    {
        let r = HandlerCollector {
            out: Vec::new(),
            event: None,
            tags: Vec::new(),
            owners: Vec::new(),
        };
        assert(r@ =~= HandlersModel::start());
        r
    }

    /// Name of the nearest open element that has one.
    pub fn owner(&self) -> (r: Option<String>)
        ensures
            maybe_text(r) == nearest_owner(self@.owners, self@.owners.len() as int),
    {
        let n: usize = self.owners.len();
        let ghost m = maybe_texts(self.owners@);
        let mut j: usize = n;
        while j > 0
            invariant
                j <= n,
                n == self.owners@.len(),
                m == maybe_texts(self.owners@),
                nearest_owner(m, n as int) == nearest_owner(m, j as int),
            decreases j,
        {
            assert(m[j - 1] == maybe_text(self.owners@[j - 1]));
            match &self.owners[j - 1] {
                Some(name) => {
                    return Some(name.clone());
                },
                None => {},
            }
            j = j - 1;
        }
        None
    }

    /// One step further.
    pub fn step(&mut self, s: FormStep)
        ensures
            final(self)@ == old(self)@.step(s@),
    {
        let ghost before = self@;
        match s {
            FormStep::Open(tag, name) => {
                let ghost tag_text = tag@;
                if same_text(tag.as_str(), "Event") {
                    self.event = name;
                    self.owners.push(None);
                    assert(maybe_texts(self.owners@) == before.owners.push(None));
                } else {
                    let owner = match name {
                        Some(text) => if text.is_empty() {
                            None
                        } else {
                            Some(text)
                        },
                        None => None,
                    };
                    let ghost owner_text = maybe_text(owner);
                    self.owners.push(owner);
                    assert(maybe_texts(self.owners@) == before.owners.push(owner_text));
                }
                self.tags.push(tag);
                assert(crate::text::texts(self.tags@) == before.tags.push(tag_text));
            },
            FormStep::Close(tag) => {
                if same_text(tag.as_str(), "Event") {
                    self.event = None;
                }
                self.tags.pop();
                self.owners.pop();
                assert(crate::text::texts(self.tags@) == popped(before.tags));
                assert(maybe_texts(self.owners@) == popped(before.owners));
            },
            FormStep::Text(text) => {
                let handler = trim_text(text.as_str());
                let n: usize = self.tags.len();
                if n > 0 {
                    assert(before.tags.last() == self.tags@[n - 1]@);
                }
                if n > 0 && same_text(self.tags[n - 1].as_str(), "Event") && !handler.is_empty() {
                    let event = match &self.event {
                        Some(event) => form_event_to_russian_of(event),
                        None => None,
                    };
                    match event {
                        Some(event) => {
                            let h = FormHandler { event, handler, element: self.owner() };
                            let ghost model = h@;
                            self.out.push(h);
                            assert(handlers(self.out@) == before.out.push(model));
                        },
                        None => {},
                    }
                }
            },
            FormStep::Skip => {},
        }
        assert(self@ =~= before.step(s@));
    }
}

/// Russian name of an event whose name is not empty.
fn form_event_to_russian_of(event: &String) -> (r: Option<String>)
    ensures
        maybe_text(r) == if event@.len() > 0 {
            Some(russian(event@))
        } else {
            None
        },
{
    if event.is_empty() {
        None
    } else {
        Some(form_event_to_russian(event.as_str()).to_string())
    }
}

/// Event handlers of a form.
pub fn parse_form_xml(content: &str) -> (r: Result<Vec<FormHandler>, XmlError>)
    ensures
        match r {
            Ok(v) => ending(xml_reads(content@, true)) is None && handlers(v@) == form_handlers(
                xml_reads(content@, true),
            ),
            Err(e) => e.part == XmlPart::FormHandlers && ending(xml_reads(content@, true)) == Some(
                (e.position as nat, e.detail@),
            ),
        },
{
    let ghost reads = xml_reads(content@, true);
    let ghost steps = form_steps(reads);
    let ghost mut n: int = 0;
    let mut reader = open_reader(content, true);
    let mut state = HandlerCollector::new();
    assert(pending(reader) == reads.skip(0));
    loop
        invariant
            0 <= n < reads.len(),
            reads == xml_reads(content@, true),
            steps == form_steps(reads),
            is_reading(reads),
            pending(reader) == reads.skip(n),
            state@ == HandlersModel::start().run(steps, n),
        decreases reads.len() - n,
    {
        let event = read_event(&mut reader);
        let ghost read = reads[n];
        assert(event@ == read.event);
        let position: u64 = buffer_position(&reader);
        let step = match event {
            XmlEvent::Start(name, list) => FormStep::Open(
                local_name(name.as_slice()),
                last_attr_name(&list),
            ),
            XmlEvent::End(name) => FormStep::Close(local_name(name.as_slice())),
            XmlEvent::Text(raw) => FormStep::Text(read_text(raw.as_slice())),
            XmlEvent::CData(_) => FormStep::Skip,
            XmlEvent::Other => FormStep::Skip,
            XmlEvent::Eof => {
                assert(n == reads.len() - 1);
                return Ok(state.out);
            },
            XmlEvent::Failed(detail) => {
                assert(n == reads.len() - 1);
                return Err(XmlError { part: XmlPart::FormHandlers, position, detail });
            },
        };
        proof {
            assert(steps[n] == form_step(read));
            assert(step@ == steps[n]);
            assert(pending(reader) == reads.skip(n + 1));
        }
        state.step(step);
        proof {
            n = n + 1;
        }
    }
}

/// Event handlers of a form file: none where there is no file, a failure where the file
/// cannot be read as text, else those of its text.
pub fn parse_form_file(file: &FormFile) -> (r: Result<Vec<FormHandler>, FileError>)
    ensures
        match (*file, file_text(*file)) {
            (FormFile::Missing, _) => r matches Ok(v) && v@.len() == 0,
            (_, Some(text)) => match r {
                Ok(v) => ending(xml_reads(text, true)) is None && handlers(v@) == form_handlers(
                    xml_reads(text, true),
                ),
                Err(FileError::Xml(e)) => e.part == XmlPart::FormHandlers && ending(
                    xml_reads(text, true),
                ) == Some((e.position as nat, e.detail@)),
                Err(FileError::Unreadable) => false,
            },
            (_, None) => r == Err::<Vec<FormHandler>, FileError>(FileError::Unreadable),
        },
{
    match file {
        FormFile::Missing => Ok(Vec::new()),
        _ => match text_of_file(file) {
            Some(text) => match parse_form_xml(text.as_str()) {
                Ok(v) => Ok(v),
                Err(e) => Err(FileError::Xml(e)),
            },
            None => Err(FileError::Unreadable),
        },
    }
}

/// Opening tags minus closing tags among the first `n` steps.
pub open spec fn form_level(steps: Seq<FormStepModel>, n: int) -> int
    decreases n,
{
    if n <= 0 {
        0
    } else {
        match steps[n - 1] {
            FormStepModel::Open(_, _) => form_level(steps, n - 1) + 1,
            FormStepModel::Close(_) => form_level(steps, n - 1) - 1,
            _ => form_level(steps, n - 1),
        }
    }
}

/// Steps that never close more than they have opened.
pub open spec fn form_nested(steps: Seq<FormStepModel>, n: int) -> bool {
    forall|k: int| 0 <= k <= n ==> #[trigger] form_level(steps, k) >= 0
}

/// A well-nested run of steps keeps the elements that were open before it: the tags
/// and the owners below stay, and as many are open on top as the run left open. After
/// a whole element the place is the same as before it.
pub proof fn law_elements_keep_place(m: HandlersModel, steps: Seq<FormStepModel>, n: int)
    requires
        0 <= n <= steps.len(),
        form_nested(steps, n),
    ensures
        m.run(steps, n).tags.len() == m.tags.len() + form_level(steps, n),
        m.run(steps, n).owners.len() == m.owners.len() + form_level(steps, n),
        m.tags.is_prefix_of(m.run(steps, n).tags),
        m.owners.is_prefix_of(m.run(steps, n).owners),
        form_level(steps, n) == 0 ==> m.run(steps, n).tags == m.tags && m.run(steps, n).owners
            == m.owners,
    decreases n,
{
    if n > 0 {
        assert(form_nested(steps, n - 1)) by {
            assert forall|k: int| 0 <= k <= n - 1 implies #[trigger] form_level(steps, k) >= 0 by {}
        }
        assert(form_level(steps, n) >= 0);
        law_elements_keep_place(m, steps, n - 1);
    }
    if form_level(steps, n) == 0 {
        assert(m.run(steps, n).tags =~= m.tags);
        assert(m.run(steps, n).owners =~= m.owners);
    }
}

/// Every open element has one tag and one owner entry, at every step.
pub proof fn law_tags_match_owners(m: HandlersModel, steps: Seq<FormStepModel>, n: int)
    requires
        0 <= n <= steps.len(),
        m.tags.len() == m.owners.len(),
    ensures
        m.run(steps, n).tags.len() == m.run(steps, n).owners.len(),
    decreases n,
{
    if n > 0 {
        law_tags_match_owners(m, steps, n - 1);
    }
}

/// Handlers that were found stay found, in their order.
pub proof fn law_handlers_stay(m: HandlersModel, steps: Seq<FormStepModel>, n: int)
    requires
        0 <= n <= steps.len(),
    ensures
        m.out.is_prefix_of(m.run(steps, n).out),
    decreases n,
{
    if n > 0 {
        law_handlers_stay(m, steps, n - 1);
    }
}

/// Text that does not stand directly in an event element names no handler.
pub proof fn law_other_text_is_ignored(m: HandlersModel, text: Seq<char>)
    requires
        !m.in_event(),
    ensures
        m.step(FormStepModel::Text(text)) == m,
{
}

/// An event element gives one handler: the event under its Russian name, the trimmed
/// text as the procedure, the nearest named element around it as the owner. The place
/// in the form is the same afterwards.
pub proof fn law_event_element(m: HandlersModel, event: Seq<char>, text: Seq<char>)
    requires
        event.len() > 0,
        trimmed(text).len() > 0,
    ensures
        m.step(FormStepModel::Open("Event"@, Some(event))).step(FormStepModel::Text(text)).step(
            FormStepModel::Close("Event"@),
        ) == (HandlersModel {
            out: m.out.push(
                HandlerModel {
                    event: russian(event),
                    handler: trimmed(text),
                    element: nearest_owner(m.owners, m.owners.len() as int),
                },
            ),
            event: None,
            ..m
        }),
{
    let open = m.step(FormStepModel::Open("Event"@, Some(event)));
    lemma_nearest_prefix(m.owners, open.owners, m.owners.len() as int);
    let done = open.step(FormStepModel::Text(text)).step(FormStepModel::Close("Event"@));
    assert(done.tags =~= m.tags);
    assert(done.owners =~= m.owners);
}

proof fn lemma_nearest_prefix(a: Seq<Option<Seq<char>>>, b: Seq<Option<Seq<char>>>, n: int)
    requires
        0 <= n <= a.len(),
        a.is_prefix_of(b),
    ensures
        nearest_owner(a, n) == nearest_owner(b, n),
    decreases n,
{
    if n > 0 {
        lemma_nearest_prefix(a, b, n - 1);
    }
}

/// The owner of a handler is the innermost open element that has a name: the entries
/// above it are without one. Without any named element the handler belongs to the form.
pub proof fn law_owner_is_nearest(owners: Seq<Option<Seq<char>>>, n: int)
    requires
        0 <= n <= owners.len(),
    ensures
        match nearest_owner(owners, n) {
            Some(name) => exists|k: int|
                0 <= k < n && owners[k] == Some(name) && forall|j: int|
                    k < j < n ==> #[trigger] owners[j] is None,
            None => forall|j: int| 0 <= j < n ==> #[trigger] owners[j] is None,
        },
    decreases n,
{
    if n > 0 {
        if owners[n - 1] is Some {
            assert(owners[n - 1] == Some(nearest_owner(owners, n)->0));
        } else {
            law_owner_is_nearest(owners, n - 1);
            if nearest_owner(owners, n) is Some {
                let name = nearest_owner(owners, n)->0;
                let k = choose|k: int|
                    0 <= k < n - 1 && owners[k] == Some(name) && forall|j: int|
                        k < j < n - 1 ==> #[trigger] owners[j] is None;
                assert(owners[k] == Some(name));
            }
        }
    }
}

/// Whether a handler names an event and a procedure.
pub open spec fn is_filled(h: HandlerModel) -> bool {
    h.event.len() > 0 && h.handler.len() > 0
}

/// Every handler that is found names an event and a procedure.
pub proof fn law_handlers_are_filled(m: HandlersModel, steps: Seq<FormStepModel>, n: int)
    requires
        0 <= n <= steps.len(),
        forall|k: int| 0 <= k < m.out.len() ==> is_filled(#[trigger] m.out[k]),
    ensures
        forall|k: int|
            0 <= k < m.run(steps, n).out.len() ==> is_filled(#[trigger] m.run(steps, n).out[k]),
    decreases n,
{
    if n > 0 {
        law_handlers_are_filled(m, steps, n - 1);
        let before = m.run(steps, n - 1);
        if let FormStepModel::Text(text) = steps[n - 1] {
            if before.handler(text) is Some {
                law_translation_is_not_empty(before.event->0);
            }
        }
        assert forall|k: int| 0 <= k < m.run(steps, n).out.len() implies is_filled(
            #[trigger] m.run(steps, n).out[k],
        ) by {
            if k < before.out.len() {
                assert(m.run(steps, n).out[k] == before.out[k]);
            }
        }
    }
}

/// The JSON object of a handler has a field `element` exactly when the handler belongs to
/// an element and not to the form itself.
pub proof fn law_element_only_of_elements(h: HandlerModel)
    ensures
        handler_json(h) matches Json::Object(fields) && fields.contains_key("element"@) == (
        h.element is Some),
{
    reveal_strlit("element");
    reveal_strlit("event");
    reveal_strlit("handler");
    assert("element"@.len() != "event"@.len());
    assert("element"@[0] != "handler"@[0]);
}

/// An opening tag that has a name becomes the nearest owner, whatever element it opens,
/// unless it opens an event. A tag without a name leaves the nearest owner as it was.
pub proof fn law_named_element_owns(m: HandlersModel, tag: Seq<char>, name: Seq<char>)
    ensures
        ({
            let a = m.step(FormStepModel::Open(tag, Some(name)));
            nearest_owner(a.owners, a.owners.len() as int) == if tag != "Event"@ && name.len()
                > 0 {
                Some(name)
            } else {
                nearest_owner(m.owners, m.owners.len() as int)
            }
        }),
        ({
            let a = m.step(FormStepModel::Open(tag, None));
            nearest_owner(a.owners, a.owners.len() as int) == nearest_owner(
                m.owners,
                m.owners.len() as int,
            )
        }),
{
    let n = m.owners.len() as int;
    let a = m.step(FormStepModel::Open(tag, Some(name)));
    lemma_nearest_prefix(m.owners, a.owners, n);
    assert(a.owners.len() == n + 1);
    let b = m.step(FormStepModel::Open(tag, None));
    lemma_nearest_prefix(m.owners, b.owners, n);
    assert(b.owners.len() == n + 1);
}

/// A closing tag gives the owner back that was there before the element.
pub proof fn law_closing_gives_owner_back(
    m: HandlersModel,
    tag: Seq<char>,
    name: Option<Seq<char>>,
)
    ensures
        m.step(FormStepModel::Open(tag, name)).step(FormStepModel::Close(tag)).owners == m.owners,
        m.step(FormStepModel::Open(tag, name)).step(FormStepModel::Close(tag)).tags == m.tags,
        m.step(FormStepModel::Open(tag, name)).step(FormStepModel::Close(tag)).out == m.out,
{
    let a = m.step(FormStepModel::Open(tag, name)).step(FormStepModel::Close(tag));
    assert(a.owners =~= m.owners);
    assert(a.tags =~= m.tags);
}

/// The handlers of an element belong to it: an event inside a named element, whatever the
/// element is and whatever elements without a name stand between the two, gives a handler
/// with the name of the element. The first of two events in the same place takes nothing
/// away from the second.
pub proof fn law_handlers_of_an_element(
    m: HandlersModel,
    tag: Seq<char>,
    name: Seq<char>,
    group: Seq<char>,
    event: Seq<char>,
    text: Seq<char>,
)
    requires
        tag != "Event"@,
        name.len() > 0,
        event.len() > 0,
        trimmed(text).len() > 0,
    ensures
        ({
            let a = m.step(FormStepModel::Open(tag, Some(name))).step(
                FormStepModel::Open(group, None),
            );
            a.step(FormStepModel::Open("Event"@, Some(event))).step(
                FormStepModel::Text(text),
            ).step(FormStepModel::Close("Event"@)) == (HandlersModel {
                out: m.out.push(
                    HandlerModel {
                        event: russian(event),
                        handler: trimmed(text),
                        element: Some(name),
                    },
                ),
                event: None,
                ..a
            })
        }),
{
    let b = m.step(FormStepModel::Open(tag, Some(name)));
    let a = b.step(FormStepModel::Open(group, None));
    law_named_element_owns(m, tag, name);
    law_named_element_owns(b, group, name);
    law_event_element(a, event, text);
}

/// Where no open element has a name, a handler belongs to the form itself.
pub proof fn law_handlers_of_the_form(m: HandlersModel, event: Seq<char>, text: Seq<char>)
    requires
        forall|k: int| 0 <= k < m.owners.len() ==> #[trigger] m.owners[k] is None,
        event.len() > 0,
        trimmed(text).len() > 0,
    ensures
        m.step(FormStepModel::Open("Event"@, Some(event))).step(FormStepModel::Text(text)).out
            == m.out.push(
            HandlerModel { event: russian(event), handler: trimmed(text), element: None },
        ),
{
    law_event_element(m, event, text);
    law_owner_is_nearest(m.owners, m.owners.len() as int);
    if nearest_owner(m.owners, m.owners.len() as int) is Some {
        let k = choose|k: int|
            0 <= k < m.owners.len() && m.owners[k] == Some(
                nearest_owner(m.owners, m.owners.len() as int)->0,
            ) && forall|j: int| k < j < m.owners.len() ==> #[trigger] m.owners[j] is None;
        assert(m.owners[k] is None);
    }
    let open = m.step(FormStepModel::Open("Event"@, Some(event)));
    lemma_nearest_prefix(m.owners, open.owners, m.owners.len() as int);
}

/// An event without a name and a text of white space name no handler.
pub proof fn law_nameless_event(m: HandlersModel, name: Option<Seq<char>>, text: Seq<char>)
    requires
        name is None || name->0.len() == 0 || trimmed(text).len() == 0,
    ensures
        m.step(FormStepModel::Open("Event"@, name)).step(FormStepModel::Text(text)).out == m.out,
        m.step(FormStepModel::Skip) == m,
{
}

/// The open event stays the open event until its own closing tag, whatever elements and
/// texts stand inside it.
pub proof fn law_event_stays_open(m: HandlersModel, steps: Seq<FormStepModel>, n: int)
    requires
        0 <= n <= steps.len(),
        forall|k: int|
            0 <= k < n ==> match #[trigger] steps[k] {
                FormStepModel::Open(tag, _) => tag != "Event"@,
                FormStepModel::Close(tag) => tag != "Event"@,
                _ => true,
            },
    ensures
        m.run(steps, n).event == m.event,
    decreases n,
{
    if n > 0 {
        law_event_stays_open(m, steps, n - 1);
        assert(match steps[n - 1] {
            FormStepModel::Open(tag, _) => tag != "Event"@,
            FormStepModel::Close(tag) => tag != "Event"@,
            _ => true,
        });
    }
}

/// What the parser reads is what the form is made of: opening tags by their local names
/// with their last attribute `name`, closing tags by their local names, texts in the form
/// that escapes stand for. Anything else is passed over.
pub proof fn law_form_steps(reads: Seq<XmlRead>, k: int)
    requires
        0 <= k < reads.len(),
    ensures
        form_steps(reads).len() == reads.len(),
        match reads[k].event {
            EventModel::Start(name, list) => form_steps(reads)[k] == FormStepModel::Open(
                local(name),
                last_name(list, list.len() as int),
            ),
            EventModel::End(name) => form_steps(reads)[k] == FormStepModel::Close(local(name)),
            EventModel::Text(raw) => form_steps(reads)[k] == FormStepModel::Text(plain_text(raw)),
            _ => form_steps(reads)[k] == FormStepModel::Skip,
        },
{
}

/// The JSON object of a handler holds its event and its procedure as they are, the element
/// if there is one, and nothing else.
pub proof fn law_handler_fields(h: HandlerModel)
    ensures
        handler_json(h) matches Json::Object(fields) && fields.contains_key("event"@)
            && fields["event"@] == Json::Text(h.event) && fields.contains_key("handler"@)
            && fields["handler"@] == Json::Text(h.handler) && (h.element is Some
            ==> fields.contains_key("element"@) && fields["element"@] == Json::Text(h.element->0))
            && forall|key: Seq<char>| #[trigger]
            fields.contains_key(key) ==> key == "event"@ || key == "handler"@ || key
                == "element"@,
        handlers_json(seq![h]) == Json::List(seq![handler_json(h)]),
{
    reveal_strlit("element");
    reveal_strlit("event");
    reveal_strlit("handler");
    assert("element"@.len() != "event"@.len());
    assert("handler"@.len() != "event"@.len());
    assert("element"@[0] != "handler"@[0]);
    assert(seq![h].map_values(|h: HandlerModel| handler_json(h)) =~= seq![handler_json(h)]);
}

/// The JSON list of handlers has one object for each handler, in their order.
pub proof fn law_handlers_list(v: Seq<HandlerModel>)
    ensures
        handlers_json(v) matches Json::List(list) && list.len() == v.len() && forall|k: int|
            0 <= k < v.len() ==> #[trigger] list[k] == handler_json(v[k]),
{
}

/// Text counts only where the innermost open element is an event; opening an element makes
/// it the innermost one.
pub proof fn law_text_outside_events(
    m: HandlersModel,
    tag: Seq<char>,
    name: Option<Seq<char>>,
    text: Seq<char>,
)
    ensures
        m.tags.len() == 0 || m.tags.last() != "Event"@ ==> m.step(FormStepModel::Text(text)) == m,
        m.step(FormStepModel::Open(tag, name)).tags == m.tags.push(tag),
        tag != "Event"@ ==> m.step(FormStepModel::Open(tag, name)).step(FormStepModel::Text(text))
            == m.step(FormStepModel::Open(tag, name)),
{
}

proof fn lemma_form_run(
    m: HandlersModel,
    x: Seq<FormStepModel>,
    y: Seq<FormStepModel>,
    n: int,
)
    requires
        0 <= n <= y.len(),
        n <= x.len(),
        forall|k: int| 0 <= k < n ==> #[trigger] x[k] == y[k],
    ensures
        m.run(x, n) == m.run(y, n),
    decreases n,
{
    if n > 0 {
        lemma_form_run(m, x, y, n - 1);
        assert(x[n - 1] == y[n - 1]);
    }
}

/// Every step of the parser counts, in their order, from the first to the last before the
/// end.
pub proof fn law_all_steps_of_a_form(
    m: HandlersModel,
    reads: Seq<XmlRead>,
    last: XmlRead,
    x: Seq<FormStepModel>,
    s: FormStepModel,
)
    ensures
        form_handlers(reads.push(last)) == HandlersModel::start().run(
            form_steps(reads),
            reads.len() as int,
        ).out,
        HandlersModel::start().out.len() == 0,
        HandlersModel::start().tags.len() == 0,
        HandlersModel::start().owners.len() == 0,
        HandlersModel::start().event is None,
        m.run(x, 0) == m,
        m.run(x.push(s), x.len() as int + 1) == m.run(x, x.len() as int).step(s),
{
    lemma_form_run(m, x.push(s), x, x.len() as int);
    lemma_form_run(
        HandlersModel::start(),
        form_steps(reads.push(last)),
        form_steps(reads),
        reads.len() as int,
    );
}

/// Every text that stands directly in an event is a handler of that event, of its owner,
/// wherever the event stands and whatever has been found before.
pub proof fn law_text_in_an_event(m: HandlersModel, event: Seq<char>, text: Seq<char>)
    requires
        m.tags.len() > 0,
        m.tags.last() == "Event"@,
        m.event == Some(event),
        event.len() > 0,
        trimmed(text).len() > 0,
    ensures
        m.step(FormStepModel::Text(text)) == (HandlersModel {
            out: m.out.push(
                HandlerModel {
                    event: russian(event),
                    handler: trimmed(text),
                    element: nearest_owner(m.owners, m.owners.len() as int),
                },
            ),
            ..m
        }),
{
}

} // verus!
