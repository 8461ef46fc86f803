//! Which files of a dump count, by their paths.

use vstd::prelude::*;

use crate::text::same_text;
use crate::xml::forms::maybe_text;

verus! {

/// A path taken apart. A part that does not exist or is not Unicode is `None`.
pub struct PathParts {
    /// Name of the file.
    pub file: Option<String>,
    /// Name of the file without its extension.
    pub stem: Option<String>,
    /// Extension of the file.
    pub extension: Option<String>,
    /// Names of the enclosing folders, the nearest first.
    pub folders: Vec<Option<String>>,
}

/// Model of [`PathParts`].
#[verifier::ext_equal]
pub struct PathModel {
    pub file: Option<Seq<char>>,
    pub stem: Option<Seq<char>>,
    pub extension: Option<Seq<char>>,
    pub folders: Seq<Option<Seq<char>>>,
}

impl View for PathParts {
    type V = PathModel;

    open spec fn view(&self) -> PathModel {
        PathModel {
            file: maybe_text(self.file),
            stem: maybe_text(self.stem),
            extension: maybe_text(self.extension),
            folders: crate::xml::forms::maybe_texts(self.folders@),
        }
    }
}

impl PathModel {
    /// Name of the `i`-th enclosing folder.
    pub open spec fn folder(self, i: int) -> Option<Seq<char>> {
        if 0 <= i < self.folders.len() {
            self.folders[i]
        } else {
            None
        }
    }

    /// Whether the file is an XML file.
    pub open spec fn is_xml(self) -> bool {
        self.extension == Some("xml"@)
    }

    /// Whether the file is an XML file right inside a folder of this name.
    pub open spec fn is_xml_in(self, folder: Seq<char>) -> bool {
        self.is_xml() && self.folder(0) == Some(folder)
    }

    /// Name of the object that an XML file defines.
    pub open spec fn object(self) -> Option<Seq<char>> {
        if self.is_xml() {
            self.stem
        } else {
            None
        }
    }

    /// Name of the subsystem that a file defines: an XML file right inside a folder
    /// `Subsystems`, at whatever depth.
    pub open spec fn subsystem(self) -> Option<Seq<char>> {
        if self.is_xml_in("Subsystems"@) {
            self.stem
        } else {
            None
        }
    }

    /// Owner of a file of the given name: the folder two levels up.
    pub open spec fn owner_of(self, file: Seq<char>) -> Option<Seq<char>> {
        if self.file == Some(file) {
            self.folder(1)
        } else {
            None
        }
    }

    /// Whether the file holds the content of a template.
    pub open spec fn is_template_content(self) -> bool {
        self.file == Some("Template.xml"@) && self.folder(0) == Some("Ext"@)
    }
}

/// Small letter for a capital letter of the Latin alphabet, any other character as it
/// is.
pub open spec fn latin_lowered(c: char) -> char {
    if 'A' <= c <= 'Z' {
        (c as u8 + 32) as u8 as char
    } else {
        c
    }
}

/// Whether two texts are equal but for the case of Latin letters.
pub open spec fn same_but_case(a: Seq<char>, b: Seq<char>) -> bool {
    a.map_values(|c: char| latin_lowered(c)) == b.map_values(|c: char| latin_lowered(c))
}

/// Folders of objects: the name of the folder and the type of the objects in it.
pub open spec fn folder_table(v: Seq<(String, String)>) -> Seq<(Seq<char>, Seq<char>)> {
    v.map_values(|f: (String, String)| (f.0@, f.1@))
}

/// Type of the objects in a folder, by the first entry at or after `i`.
pub open spec fn type_of_folder(
    table: Seq<(Seq<char>, Seq<char>)>,
    folder: Seq<char>,
    i: int,
) -> Option<Seq<char>>
    decreases table.len() - i,
{
    if i < 0 || i >= table.len() {
        None
    } else if table[i].0 == folder {
        Some(table[i].1)
    } else {
        type_of_folder(table, folder, i + 1)
    }
}

/// Full name of an object: type and name with a point between them.
pub open spec fn full_name(kind: Seq<char>, name: Seq<char>) -> Seq<char> {
    kind + "."@ + name
}

/// Owner of a template, by the path `folder of a type/object/Templates/template`.
pub open spec fn template_owner(
    path: PathModel,
    table: Seq<(Seq<char>, Seq<char>)>,
) -> Option<Seq<char>> {
    match (path.folder(1), path.folder(2)) {
        (Some(object), Some(folder)) => match type_of_folder(table, folder, 0) {
            Some(kind) => Some(full_name(kind, object)),
            None => None,
        },
        _ => None,
    }
}

/// Whether an optional text is this text.
fn is_text(s: &Option<String>, text: &str) -> (r: bool)
    ensures
        r == (maybe_text(*s) == Some(text@)),
{
    match s {
        Some(t) => same_text(t.as_str(), text),
        None => false,
    }
}

/// Copy of an optional text.
fn copy_text(s: &Option<String>) -> (r: Option<String>)
    ensures
        maybe_text(r) == maybe_text(*s),
{
    match s {
        Some(t) => Some(t.clone()),
        None => None,
    }
}

/// Full name of an object.
pub fn make_full_name(kind: &str, name: &str) -> (r: String)
    ensures
        r@ == full_name(kind@, name@),
{
    let mut r = kind.to_string();
    r.append(".");
    r.append(name);
    r
}

impl PathParts {
    /// Whether the `i`-th enclosing folder has this name.
    fn folder_is(&self, i: usize, name: &str) -> (r: bool)
        ensures
            r == (self@.folder(i as int) == Some(name@)),
    {
        if i < self.folders.len() {
            assert(self@.folders[i as int] == maybe_text(self.folders@[i as int]));
            is_text(&self.folders[i], name)
        } else {
            false
        }
    }

    /// Name of the `i`-th enclosing folder.
    fn folder_name(&self, i: usize) -> (r: Option<String>)
        ensures
            maybe_text(r) == self@.folder(i as int),
    {
        if i < self.folders.len() {
            assert(self@.folders[i as int] == maybe_text(self.folders@[i as int]));
            copy_text(&self.folders[i])
        } else {
            None
        }
    }

    /// Whether the file is named so.
    pub fn is_file(&self, name: &str) -> (r: bool)
        ensures
            r == (self@.file == Some(name@)),
    {
        is_text(&self.file, name)
    }

    /// Whether the file is an XML file.
    pub fn is_xml(&self) -> (r: bool)
        ensures
            r == self@.is_xml(),
    {
        is_text(&self.extension, "xml")
    }

    /// Whether the file is a module, whatever the case of its extension.
    pub fn is_module(&self) -> (r: bool)
        ensures
            r == (self@.extension matches Some(e) && same_but_case(e, "bsl"@)),
    {
        match &self.extension {
            Some(e) => equal_but_case(e.as_str(), "bsl"),
            None => false,
        }
    }

    /// Name of the object that an XML file defines.
    pub fn object(&self) -> (r: Option<String>)
        ensures
            maybe_text(r) == self@.object(),
    {
        if self.is_xml() {
            copy_text(&self.stem)
        } else {
            None
        }
    }

    /// Name of the subsystem that a file defines.
    pub fn subsystem(&self) -> (r: Option<String>)
        ensures
            maybe_text(r) == self@.subsystem(),
    {
        if self.is_xml() && self.folder_is(0, "Subsystems") {
            copy_text(&self.stem)
        } else {
            None
        }
    }

    /// Whether the file defines a subsystem, even one whose name cannot be read.
    pub fn is_subsystem(&self) -> (r: bool)
        ensures
            r == self@.is_xml_in("Subsystems"@),
    {
        self.is_xml() && self.folder_is(0, "Subsystems")
    }

    /// Whether the file defines an event subscription.
    pub fn is_event_subscription(&self) -> (r: bool)
        ensures
            r == self@.is_xml_in("EventSubscriptions"@),
    {
        self.is_xml() && self.folder_is(0, "EventSubscriptions")
    }

    /// Whether the file describes a template of an object.
    pub fn is_template(&self) -> (r: bool)
        ensures
            r == self@.is_xml_in("Templates"@),
    {
        self.is_xml() && self.folder_is(0, "Templates")
    }

    /// Owner of a file of the given name: the folder two levels up. So an exchange plan
    /// owns its `Content.xml` and a role its `Rights.xml`.
    pub fn owner_of(&self, file: &str) -> (r: Option<String>)
        ensures
            maybe_text(r) == self@.owner_of(file@),
    {
        if self.is_file(file) {
            self.folder_name(1)
        } else {
            None
        }
    }
}

/// Whether two texts are equal but for the case of Latin letters.
pub fn equal_but_case(a: &str, b: &str) -> (r: bool)
    ensures
        r == same_but_case(a@, b@),
{
    let x = lower_latin(a);
    let y = lower_latin(b);
    crate::text::same_chars(x.as_slice(), y.as_slice())
}

/// Characters of a text with capital letters of the Latin alphabet made small.
fn lower_latin(s: &str) -> (r: Vec<char>)
    ensures
        r@ == s@.map_values(|c: char| latin_lowered(c)),
{
    let v = crate::text::chars_of(s);
    let mut r: Vec<char> = Vec::new();
    let n: usize = v.len();
    let mut i: usize = 0;
    while i < n
        invariant
            i <= n,
            n == v@.len(),
            v@ == s@,
            r@ == s@.map_values(|c: char| latin_lowered(c)).take(i as int),
        decreases n - i,
    {
        let c = v[i];
        if 'A' <= c && c <= 'Z' {
            r.push((c as u8 + 32u8) as char);
        } else {
            r.push(c);
        }
        i = i + 1;
        assert(r@ == s@.map_values(|c: char| latin_lowered(c)).take(i as int));
    }
    assert(r@ == s@.map_values(|c: char| latin_lowered(c)));
    r
}

/// Whether a file holds the content of a template; the description of the template
/// lies elsewhere.
pub fn is_template_content_path(path: &PathParts) -> (r: bool)
    ensures
        r == path@.is_template_content(),
{
    path.is_file("Template.xml") && path.folder_is(0, "Ext")
}

/// Full name of the owner of a template by the path of its description. `table` gives
/// the type of the objects in a folder. `None` for an unknown folder.
pub fn template_owner_from_path(path: &PathParts, table: &Vec<(String, String)>) -> (r: Option<
    String,
>)
    ensures
        maybe_text(r) == template_owner(path@, folder_table(table@)),
{
    let object = match path.folder_name(1) {
        Some(object) => object,
        None => {
            return None;
        },
    };
    let folder = match path.folder_name(2) {
        Some(folder) => folder,
        None => {
            return None;
        },
    };
    let ghost t = folder_table(table@);
    let n: usize = table.len();
    let mut i: usize = 0;
    while i < n
        invariant
            i <= n,
            n == table@.len(),
            t == folder_table(table@),
            path@.folder(1) == Some(object@),
            path@.folder(2) == Some(folder@),
            type_of_folder(t, folder@, 0) == type_of_folder(t, folder@, i as int),
        decreases n - i,
    {
        assert(t[i as int] == (table@[i as int].0@, table@[i as int].1@));
        if same_text(table[i].0.as_str(), folder.as_str()) {
            return Some(make_full_name(table[i].1.as_str(), object.as_str()));
        }
        i = i + 1;
    }
    None
}

/// A full name gives its two parts back where the type holds no point.
pub proof fn law_full_name(kind: Seq<char>, name: Seq<char>)
    ensures
        full_name(kind, name).len() == kind.len() + 1 + name.len(),
        full_name(kind, name).take(kind.len() as int) == kind,
        full_name(kind, name)[kind.len() as int] == '.',
        full_name(kind, name).skip(kind.len() as int + 1) == name,
{
    reveal_strlit(".");
    assert(full_name(kind, name).take(kind.len() as int) =~= kind);
    assert(full_name(kind, name).skip(kind.len() as int + 1) =~= name);
}

/// A file counts by its extension and by the names of the folders around it, the nearest
/// first, and by nothing else: an XML file defines an object of its own name, in a folder
/// `Subsystems` a subsystem; a file belongs to the second folder around it.
pub proof fn law_files_by_place(p: PathModel, file: Seq<char>, near: Seq<char>, far: Seq<char>)
    requires
        p.folders.len() >= 2,
        p.folders[0] == Some(near),
        p.folders[1] == Some(far),
    ensures
        p.extension == Some("xml"@) ==> p.object() == p.stem,
        p.extension != Some("xml"@) ==> p.object() is None && p.subsystem() is None,
        p.extension == Some("xml"@) && near == "Subsystems"@ ==> p.subsystem() == p.stem,
        near != "Subsystems"@ ==> p.subsystem() is None,
        p.is_xml_in(near) == (p.extension == Some("xml"@)),
        forall|other: Seq<char>| other != near ==> !#[trigger] p.is_xml_in(other),
        p.file == Some(file) ==> p.owner_of(file) == Some(far),
        p.file != Some(file) ==> p.owner_of(file) is None,
        p.is_template_content() == (p.file == Some("Template.xml"@) && near == "Ext"@),
{
}

/// A file without folders around it lies in none.
pub proof fn law_file_without_folders(p: PathModel, file: Seq<char>, folder: Seq<char>)
    requires
        p.folders.len() == 0 || p.folders[0] is None,
        p.folders.len() < 2 || p.folders[1] is None,
    ensures
        !p.is_xml_in(folder),
        p.subsystem() is None,
        p.owner_of(file) is None,
        !p.is_template_content(),
{
}

/// A template belongs to the object in the folder two levels up; the type of the object is
/// that of the folder three levels up, by its first entry in the table.
pub proof fn law_template_owner(
    p: PathModel,
    table: Seq<(Seq<char>, Seq<char>)>,
    object: Seq<char>,
    folder: Seq<char>,
    k: int,
)
    requires
        p.folders.len() >= 3,
        p.folders[1] == Some(object),
        p.folders[2] == Some(folder),
    ensures
        0 <= k < table.len() && table[k].0 == folder && (forall|j: int|
            0 <= j < k ==> (#[trigger] table[j]).0 != folder) ==> template_owner(p, table) == Some(
            table[k].1 + "."@ + object,
        ),
        (forall|j: int| 0 <= j < table.len() ==> (#[trigger] table[j]).0 != folder)
            ==> template_owner(p, table) is None,
{
    if 0 <= k < table.len() && table[k].0 == folder && (forall|j: int|
        0 <= j < k ==> (#[trigger] table[j]).0 != folder) {
        lemma_type_of_folder(table, folder, 0, k);
    }
    if forall|j: int| 0 <= j < table.len() ==> (#[trigger] table[j]).0 != folder {
        lemma_type_of_folder(table, folder, 0, table.len() as int);
    }
}

proof fn lemma_type_of_folder(
    table: Seq<(Seq<char>, Seq<char>)>,
    folder: Seq<char>,
    i: int,
    k: int,
)
    requires
        0 <= i <= k <= table.len(),
        forall|j: int| i <= j < k ==> (#[trigger] table[j]).0 != folder,
        k < table.len() ==> table[k].0 == folder,
    ensures
        type_of_folder(table, folder, i) == if k < table.len() {
            Some(table[k].1)
        } else {
            None
        },
    decreases k - i,
{
    if i < k {
        assert(table[i].0 != folder);
        lemma_type_of_folder(table, folder, i + 1, k);
    }
}

/// A template without these folders has no owner.
pub proof fn law_template_without_owner(p: PathModel, table: Seq<(Seq<char>, Seq<char>)>)
    requires
        p.folders.len() < 3 || p.folders[1] is None || p.folders[2] is None,
    ensures
        template_owner(p, table) is None,
{
}

/// Texts equal but for case have the same length, and at each place either the same
/// character or the same Latin letter in both cases.
pub proof fn law_same_but_case(a: Seq<char>, b: Seq<char>)
    ensures
        same_but_case(a, b) <==> a.len() == b.len() && forall|k: int|
            0 <= k < a.len() ==> (#[trigger] a[k] == b[k] || ('A' <= a[k] <= 'Z' && b[k] as u32
                == a[k] as u32 + 32) || ('A' <= b[k] <= 'Z' && a[k] as u32 == b[k] as u32 + 32)),
{
    let x = a.map_values(|c: char| latin_lowered(c));
    let y = b.map_values(|c: char| latin_lowered(c));
    if same_but_case(a, b) {
        assert(x.len() == y.len());
        assert forall|k: int| 0 <= k < a.len() implies (#[trigger] a[k] == b[k] || ('A' <= a[k]
            <= 'Z' && b[k] as u32 == a[k] as u32 + 32) || ('A' <= b[k] <= 'Z' && a[k] as u32
            == b[k] as u32 + 32)) by {
            assert(x[k] == y[k]);
        }
    }
    if a.len() == b.len() && forall|k: int|
        0 <= k < a.len() ==> (#[trigger] a[k] == b[k] || ('A' <= a[k] <= 'Z' && b[k] as u32 == a[k]
            as u32 + 32) || ('A' <= b[k] <= 'Z' && a[k] as u32 == b[k] as u32 + 32)) {
        assert forall|k: int| 0 <= k < a.len() implies #[trigger] x[k] == y[k] by {
            assert(a[k] == b[k] || ('A' <= a[k] <= 'Z' && b[k] as u32 == a[k] as u32 + 32) || ('A'
                <= b[k] <= 'Z' && a[k] as u32 == b[k] as u32 + 32));
        }
        assert(x =~= y);
    }
}

} // verus!
