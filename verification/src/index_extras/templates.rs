//! Templates of objects: their rows and passports.
//!
//! The inventory of objects takes a template by its passport alone: what it is, whose it
//! is, where its content lies and whether the content can be searched.

use vstd::prelude::*;
use vstd::slice::slice_subrange;

use super::names::{HeaderModel, ObjectHeader};
use super::paths::full_name;
use crate::json::{
    add_field, json_bool, json_number, json_object, json_string, json_string_of, json_text, Json,
};
use crate::text::{chars_of, find_last, has_part, occurs_at, same_text, text_of};
use crate::unicode::{lower_text, text_lowered};
use crate::xml::forms::maybe_text;

verus! {

/// Template of an object.
pub struct TemplateRow {
    pub full_name: String,
    pub name: String,
    pub synonym: Option<String>,
    pub owner_full_name: String,
    pub template_type: Option<String>,
    /// Path of the file with the content.
    pub content_rel: Option<String>,
    pub content_size: Option<u64>,
}

/// Model of a [`TemplateRow`].
#[verifier::ext_equal]
pub struct TemplateModel {
    pub full_name: Seq<char>,
    pub name: Seq<char>,
    pub synonym: Option<Seq<char>>,
    pub owner_full_name: Seq<char>,
    pub template_type: Option<Seq<char>>,
    pub content_rel: Option<Seq<char>>,
    pub content_size: Option<u64>,
}

impl View for TemplateRow {
    type V = TemplateModel;

    open spec fn view(&self) -> TemplateModel {
        TemplateModel {
            full_name: self.full_name@,
            name: self.name@,
            synonym: maybe_text(self.synonym),
            owner_full_name: self.owner_full_name@,
            template_type: maybe_text(self.template_type),
            content_rel: maybe_text(self.content_rel),
            content_size: self.content_size,
        }
    }
}

/// Row of a template whose description has the given head.
pub open spec fn template_model(
    owner: Seq<char>,
    header: HeaderModel,
    template_type: Option<Seq<char>>,
    content_rel: Option<Seq<char>>,
    content_size: Option<u64>,
) -> TemplateModel {
    TemplateModel {
        full_name: owner + ".Template."@ + header.name,
        name: header.name,
        synonym: header.synonym,
        owner_full_name: owner,
        template_type,
        content_rel,
        content_size,
    }
}

/// Row of a template, by the head of its description. `None` for a description of
/// something else.
pub fn template_row(
    owner: String,
    header: ObjectHeader,
    template_type: Option<String>,
    content_rel: Option<String>,
    content_size: Option<u64>,
) -> (r: Option<TemplateRow>)
    ensures
        match r {
            Some(row) => header@.kind == "Template"@ && row@ == template_model(
                owner@,
                header@,
                maybe_text(template_type),
                maybe_text(content_rel),
                content_size,
            ),
            None => header@.kind != "Template"@,
        },
{
    if !same_text(header.kind.as_str(), "Template") {
        return None;
    }
    let mut full_name = owner.clone();
    full_name.append(".Template.");
    full_name.append(header.name.as_str());
    Some(
        TemplateRow {
            full_name,
            name: header.name,
            synonym: header.synonym,
            owner_full_name: owner,
            template_type,
            content_rel,
            content_size,
        },
    )
}

/// Entry of a folder: whether it is a file, and its name without the extension.
pub open spec fn is_content(entry: (bool, Option<String>)) -> bool {
    entry.0 && maybe_text(entry.1) == Some("Template"@)
}

/// The file with the content of a template among the entries of its folder. The
/// extension depends on the kind of the template, so the first file `Template` with
/// whatever extension is taken.
pub fn find_template_content(entries: &Vec<(bool, Option<String>)>) -> (r: Option<usize>)
    ensures
        match r {
            Some(i) => {
                &&& i < entries@.len()
                &&& is_content(entries@[i as int])
                &&& forall|k: int| 0 <= k < i ==> !is_content(#[trigger] entries@[k])
            },
            None => forall|k: int| 0 <= k < entries@.len() ==> !is_content(#[trigger] entries@[k]),
        },
{
    let n: usize = entries.len();
    let mut i: usize = 0;
    while i < n
        invariant
            i <= n,
            n == entries@.len(),
            forall|k: int| 0 <= k < i ==> !is_content(#[trigger] entries@[k]),
        decreases n - i,
    {
        let found = match &entries[i].1 {
            Some(stem) => entries[i].0 && same_text(stem.as_str(), "Template"),
            None => false,
        };
        if found {
            return Some(i);
        }
        i = i + 1;
    }
    None
}

/// What follows the last point of a path, the whole path without a point.
pub open spec fn last_extension(rel: Seq<char>) -> Seq<char> {
    rel.skip(find_last(rel, '.', rel.len() as int) + 1)
}

/// Whether a small-letter extension is that of a text file.
pub open spec fn is_text_extension(ext: Seq<char>) -> bool {
    ||| ext == "xml"@
    ||| ext == "txt"@
    ||| ext == "html"@
    ||| ext == "htm"@
    ||| ext == "json"@
    ||| ext == "css"@
    ||| ext == "js"@
}

/// Whether the content of a template is binary.
pub open spec fn is_binary(rel: Seq<char>) -> bool {
    !is_text_extension(text_lowered(last_extension(rel)))
}

/// What follows the last point of a path.
pub fn extension_of(rel: &str) -> (r: String)
    ensures
        r@ == last_extension(rel@),
{
    let v = chars_of(rel);
    let n: usize = v.len();
    let mut j: usize = n;
    while j > 0 && v[j - 1] != '.'
        invariant
            j <= n,
            n == v@.len(),
            v@ == rel@,
            find_last(rel@, '.', n as int) == find_last(rel@, '.', j as int),
        decreases j,
    {
        j = j - 1;
    }
    let r = text_of(slice_subrange(v.as_slice(), j, n));
    assert(r@ =~= last_extension(rel@));
    r
}

/// Whether a small-letter extension is that of a text file.
pub fn has_text_extension(ext: &str) -> (r: bool)
    ensures
        r == is_text_extension(ext@),
{
    same_text(ext, "xml") || same_text(ext, "txt") || same_text(ext, "html") || same_text(
        ext,
        "htm",
    ) || same_text(ext, "json") || same_text(ext, "css") || same_text(ext, "js")
}

/// Whether the content of a template is binary, by the extension of its file. Binary
/// content never gets into the text index, whatever its size.
pub fn is_binary_template_content(rel: &str) -> (r: bool)
    ensures
        r == is_binary(rel@),
{
    let ext = lower_text(extension_of(rel).as_str());
    !has_text_extension(ext.as_str())
}

/// Why the content of a template cannot be searched: there is none, it is binary, or it
/// is too large. `binary` tells whether the content is binary, nothing without content.
pub open spec fn content_note(binary: Option<bool>) -> Seq<char> {
    match binary {
        None => "у макета нет файла содержимого в выгрузке — есть только его описание"@,
        Some(true) => "содержимое макета двоичное (внешняя компонента, двоичные данные) — в индекс не берётся; сам макет существует"@,
        Some(false) => "содержимое макета не проиндексировано: файл превышает предел размера текстового файла (настройка max_file_size) — поиск по его тексту работать не будет, сам макет существует"@,
    }
}

/// Why the content of a template cannot be searched.
pub fn note_for(binary: Option<bool>) -> (r: &'static str)
    ensures
        r@ == content_note(binary),
{
    match binary {
        None => "у макета нет файла содержимого в выгрузке — есть только его описание",
        Some(b) => if b {
            "содержимое макета двоичное (внешняя компонента, двоичные данные) — в индекс не берётся; сам макет существует"
        } else {
            "содержимое макета не проиндексировано: файл превышает предел размера текстового файла (настройка max_file_size) — поиск по его тексту работать не будет, сам макет существует"
        },
    }
}

/// Fields with one more, if it has a value.
pub open spec fn with_field(
    fields: Map<Seq<char>, Json>,
    name: Seq<char>,
    value: Option<Json>,
) -> Map<Seq<char>, Json> {
    match value {
        Some(v) => fields.insert(name, v),
        None => fields,
    }
}

/// Text as an optional field.
pub open spec fn text_field(s: Option<Seq<char>>) -> Option<Json> {
    match s {
        Some(t) => Some(Json::Text(t)),
        None => None,
    }
}

/// Number as an optional field.
pub open spec fn number_field(n: Option<u64>) -> Option<Json> {
    match n {
        Some(k) => Some(Json::Number(k as nat)),
        None => None,
    }
}

/// Whether the content of a template is binary, nothing for a template without content.
pub open spec fn binary_content(row: TemplateModel) -> Option<bool> {
    match row.content_rel {
        Some(rel) => Some(is_binary(rel)),
        None => None,
    }
}

/// Whether the content of a template can be searched: it has a file, and the file is in
/// the index.
pub open spec fn is_indexed(row: TemplateModel, file_known: bool) -> bool {
    row.content_rel is Some && file_known
}

/// Passport of a template. `indexed` tells whether its content can be searched, `binary`
/// whether it is binary.
pub open spec fn passport(row: TemplateModel, indexed: bool, binary: Option<bool>) -> Json {
    let base = Map::<Seq<char>, Json>::empty().insert(
        "owner"@,
        Json::Text(row.owner_full_name),
    ).insert("content_indexed"@, Json::Bool(indexed));
    let typed = with_field(base, "template_type"@, text_field(row.template_type));
    let filed = with_field(typed, "content_file"@, text_field(row.content_rel));
    let sized = with_field(filed, "content_size_bytes"@, number_field(row.content_size));
    Json::Object(
        with_field(
            sized,
            "content_note"@,
            if indexed {
                None
            } else {
                Some(Json::Text(content_note(binary)))
            },
        ),
    )
}

/// The fields of a passport have distinct names.
proof fn lemma_passport_names()
    ensures
        "owner"@ != "content_indexed"@,
        "template_type"@ != "owner"@,
        "template_type"@ != "content_indexed"@,
        "content_file"@ != "owner"@,
        "content_file"@ != "content_indexed"@,
        "content_file"@ != "template_type"@,
        "content_size_bytes"@ != "owner"@,
        "content_size_bytes"@ != "content_indexed"@,
        "content_size_bytes"@ != "template_type"@,
        "content_size_bytes"@ != "content_file"@,
        "content_note"@ != "owner"@,
        "content_note"@ != "content_indexed"@,
        "content_note"@ != "template_type"@,
        "content_note"@ != "content_file"@,
        "content_note"@ != "content_size_bytes"@,
{
    reveal_strlit("owner");
    reveal_strlit("content_indexed");
    reveal_strlit("template_type");
    reveal_strlit("content_file");
    reveal_strlit("content_size_bytes");
    reveal_strlit("content_note");
    assert("owner"@.len() == 5);
    assert("content_indexed"@.len() == 15);
    assert("template_type"@.len() == 13);
    assert("content_file"@.len() == 12);
    assert("content_size_bytes"@.len() == 18);
    assert("content_note"@.len() == 12);
    assert("content_note"@[8] != "content_file"@[8]);
}

/// Passport of a template as JSON text, and whether the content of the template can be
/// searched. `file_known` tells whether the file with the content is in the index.
pub fn template_passport(row: &TemplateRow, file_known: bool) -> (r: (String, bool))
    ensures
        r.0@ == json_text(
            passport(row@, is_indexed(row@, file_known), binary_content(row@)),
        ),
        r.1 == is_indexed(row@, file_known),
{
    let indexed = row.content_rel.is_some() && file_known;
    let binary: Option<bool> = match &row.content_rel {
        Some(rel) => Some(is_binary_template_content(rel.as_str())),
        None => None,
    };
    let mut fields: Vec<(String, serde_json::Value)> = Vec::new();
    proof {
        lemma_passport_names();
        assert(crate::json::object_of(crate::json::json_fields(fields@)) =~= Map::empty());
    }
    add_field(&mut fields, "owner", json_string(row.owner_full_name.clone()));
    add_field(&mut fields, "content_indexed", json_bool(indexed));
    match &row.template_type {
        Some(t) => add_field(&mut fields, "template_type", json_string(t.clone())),
        None => {},
    }
    match &row.content_rel {
        Some(rel) => add_field(&mut fields, "content_file", json_string(rel.clone())),
        None => {},
    }
    match row.content_size {
        Some(size) => add_field(&mut fields, "content_size_bytes", json_number(size)),
        None => {},
    }
    if !indexed {
        add_field(&mut fields, "content_note", json_string(note_for(binary).to_string()));
    }
    let text = json_string_of(&json_object(fields)).unwrap();
    (text, indexed)
}

/// Key of a full name in searches that do not look at the case.
pub fn name_key(full_name: &str) -> (r: String)
    ensures
        r@ == text_lowered(full_name@),
{
    lower_text(full_name)
}

/// A passport explains why the content cannot be searched exactly when it cannot.
pub proof fn law_note_when_not_indexed(row: TemplateModel, indexed: bool, binary: Option<bool>)
    ensures
        passport(row, indexed, binary) matches Json::Object(fields) && fields.contains_key(
            "content_note"@,
        ) == !indexed,
{
    lemma_passport_names();
}

/// Three reasons, three different notes.
pub proof fn law_notes_differ(a: Option<bool>, b: Option<bool>)
    requires
        a != b,
    ensures
        content_note(a) != content_note(b),
{
    reveal_strlit("у макета нет файла содержимого в выгрузке — есть только его описание");
    reveal_strlit(
        "содержимое макета двоичное (внешняя компонента, двоичные данные) — в индекс не берётся; сам макет существует",
    );
    reveal_strlit(
        "содержимое макета не проиндексировано: файл превышает предел размера текстового файла (настройка max_file_size) — поиск по его тексту работать не будет, сам макет существует",
    );
    assert(content_note(None)[0] == 'у');
    assert(content_note(Some(true))[18] == 'д');
    assert(content_note(Some(false))[18] == 'н');
    assert(content_note(Some(true))[0] == 'с');
    assert(content_note(Some(false))[0] == 'с');
}

/// The passport of a template holds its owner and whether its content can be searched; its
/// type, the file with the content and the size where they are known; the note where the
/// content cannot be searched; and nothing else.
pub proof fn law_passport_fields(
    row: TemplateModel,
    indexed: bool,
    binary: Option<bool>,
    key: Seq<char>,
)
    ensures
        passport(row, indexed, binary) matches Json::Object(fields) && ({
            &&& fields.contains_key("owner"@) && fields["owner"@] == Json::Text(
                row.owner_full_name,
            )
            &&& fields.contains_key("content_indexed"@) && fields["content_indexed"@]
                == Json::Bool(indexed)
            &&& fields.contains_key("template_type"@) == (row.template_type is Some)
            &&& row.template_type is Some ==> fields["template_type"@] == Json::Text(
                row.template_type->0,
            )
            &&& fields.contains_key("content_file"@) == (row.content_rel is Some)
            &&& row.content_rel is Some ==> fields["content_file"@] == Json::Text(
                row.content_rel->0,
            )
            &&& fields.contains_key("content_size_bytes"@) == (row.content_size is Some)
            &&& row.content_size is Some ==> fields["content_size_bytes"@] == Json::Number(
                row.content_size->0 as nat,
            )
            &&& fields.contains_key("content_note"@) == !indexed
            &&& !indexed ==> fields["content_note"@] == Json::Text(content_note(binary))
            &&& fields.contains_key(key) ==> key == "owner"@ || key == "content_indexed"@ || key
                == "template_type"@ || key == "content_file"@ || key == "content_size_bytes"@
                || key == "content_note"@
        }),
{
    lemma_passport_names();
}

/// The content of a template is binary unless the letters behind the last point of its path
/// are, in lower case, an extension of a text file.
pub proof fn law_text_by_extension(path: Seq<char>, ext: Seq<char>)
    requires
        !ext.contains('.'),
    ensures
        is_binary(path + seq!['.'] + ext) == !(text_lowered(ext) == "xml"@ || text_lowered(ext)
            == "txt"@ || text_lowered(ext) == "html"@ || text_lowered(ext) == "htm"@
            || text_lowered(ext) == "json"@ || text_lowered(ext) == "css"@ || text_lowered(ext)
            == "js"@),
        is_binary(ext) == is_binary(path + seq!['.'] + ext),
{
    let s = path + seq!['.'] + ext;
    let n = path.len() as int;
    assert(s[n] == '.');
    assert forall|k: int| n < k < s.len() implies #[trigger] s[k] != '.' by {
        assert(s[k] == ext[k - n - 1]);
        assert(ext.contains(ext[k - n - 1]));
    }
    lemma_last_point(s, n, s.len() as int);
    assert(last_extension(s) =~= ext);
    assert forall|k: int| 0 <= k < ext.len() implies #[trigger] ext[k] != '.' by {
        assert(ext.contains(ext[k]));
    }
    lemma_last_point(ext, -1, ext.len() as int);
    assert(last_extension(ext) =~= ext);
}

proof fn lemma_last_point(s: Seq<char>, i: int, j: int)
    requires
        -1 <= i < j <= s.len() || (i == -1 && j == 0),
        i >= 0 ==> s[i] == '.',
        forall|k: int| i < k < j ==> #[trigger] s[k] != '.',
    ensures
        find_last(s, '.', j) == i,
    decreases j - i,
{
    if i < j - 1 {
        assert(s[j - 1] != '.');
        lemma_last_point(s, i, j - 1);
    }
}

/// The row of a template keeps what its description says; its full name is that of the
/// owner, a word for a template and its own name, with points between them.
pub proof fn law_template_row(
    owner: Seq<char>,
    header: HeaderModel,
    template_type: Option<Seq<char>>,
    content_rel: Option<Seq<char>>,
    content_size: Option<u64>,
)
    ensures
        template_model(owner, header, template_type, content_rel, content_size) == (TemplateModel {
            full_name: owner + "."@ + "Template"@ + "."@ + header.name,
            name: header.name,
            synonym: header.synonym,
            owner_full_name: owner,
            template_type,
            content_rel,
            content_size,
        }),
{
    reveal_strlit(".Template.");
    reveal_strlit(".");
    reveal_strlit("Template");
    assert(owner + ".Template."@ + header.name =~= owner + "."@ + "Template"@ + "."@
        + header.name);
}

/// Content can be searched exactly when there is a file with it and the file is in the
/// index. Whether it is binary is a question only of a template with content.
pub proof fn law_when_indexed(row: TemplateModel, file_known: bool)
    ensures
        is_indexed(row, file_known) <==> file_known && row.content_rel is Some,
        binary_content(row) is Some <==> row.content_rel is Some,
        row.content_rel matches Some(rel) ==> binary_content(row) == Some(is_binary(rel)),
{
}

/// The file with the content of a template is any file of that name without its extension;
/// a folder is none.
pub proof fn law_what_is_content(stem: String, is_file: bool)
    ensures
        is_content((is_file, Some(stem))) <==> is_file && stem@ == "Template"@,
        !is_content((is_file, None)),
{
}

/// Each note names its reason: that there is no file, that the content is binary, that the
/// file is too large.
pub proof fn law_notes_name_reasons()
    ensures
        has_part(content_note(None), "нет файла"@),
        has_part(content_note(Some(true)), "двоичное"@),
        has_part(content_note(Some(false)), "предел размера"@),
{
    reveal_strlit("у макета нет файла содержимого в выгрузке — есть только его описание");
    reveal_strlit(
        "содержимое макета двоичное (внешняя компонента, двоичные данные) — в индекс не берётся; сам макет существует",
    );
    reveal_strlit(
        "содержимое макета не проиндексировано: файл превышает предел размера текстового файла (настройка max_file_size) — поиск по его тексту работать не будет, сам макет существует",
    );
    reveal_strlit("нет файла");
    reveal_strlit("двоичное");
    reveal_strlit("предел размера");
    assert(content_note(None).subrange(9, 18) =~= "нет файла"@);
    assert(occurs_at(content_note(None), "нет файла"@, 9));
    assert(content_note(Some(true)).subrange(18, 26) =~= "двоичное"@);
    assert(occurs_at(content_note(Some(true)), "двоичное"@, 18));
    assert(content_note(Some(false)).subrange(54, 68) =~= "предел размера"@);
    assert(occurs_at(content_note(Some(false)), "предел размера"@, 54));
}

} // verus!
