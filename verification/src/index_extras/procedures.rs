//! Rows of terms: module headers and procedures with their business terms.
//!
//! The rows come either from the text of a module, or from columns in which the result
//! of an earlier reading of the text was kept; both ways lead to the same terms.

use vstd::hash_map::StringHashMap;
use vstd::prelude::*;
use vstd::slice::slice_subrange;

use super::names::NameMap;
use super::paths::{full_name, make_full_name};
use crate::terms::comment::{
    comment_fits, extract_leading_comment, extract_module_header, leading_bodies, leading_comment,
    line_texts, module_header, CommentModel, HeaderModel, LeadingComment,
};
use crate::terms::owner::{module_owner, object_from_module_path};
use crate::terms::phrases::{build_terms, opt_text, term_sources, terms_line};
use crate::text::{
    chars_of, find_char, is_space, join, joined, lemma_find_char, lemma_split_around, space_end,
    split, split_chars, text_of, texts, trim_start, trim_text, trimmed,
};
use crate::xml::forms::maybe_text;

verus! {

/// Row of a module header.
#[derive(Debug, Clone, PartialEq, Eq)]
pub struct ModuleRow {
    pub path: String,
    pub header: String,
    pub tags: String,
    pub depends: String,
}

/// Model of a [`ModuleRow`].
#[verifier::ext_equal]
pub struct ModuleRowModel {
    pub path: Seq<char>,
    pub header: Seq<char>,
    pub tags: Seq<char>,
    pub depends: Seq<char>,
}

impl View for ModuleRow {
    type V = ModuleRowModel;

    open spec fn view(&self) -> ModuleRowModel {
        ModuleRowModel {
            path: self.path@,
            header: self.header@,
            tags: self.tags@,
            depends: self.depends@,
        }
    }
}

/// Row of a module header, given the header.
pub open spec fn header_row(path: Seq<char>, h: HeaderModel) -> ModuleRowModel {
    ModuleRowModel {
        path,
        header: h.prose,
        tags: join(h.tags, ", "@),
        depends: join(h.depends, "; "@),
    }
}

/// Row of the terms of a procedure.
#[derive(Debug, Clone, PartialEq, Eq)]
pub struct ProcRow {
    /// Path of the module and name of the procedure.
    pub proc_key: String,
    pub terms: String,
    pub tags: String,
    pub comment_head: String,
    pub comment_len: i64,
}

/// Model of a [`ProcRow`].
#[verifier::ext_equal]
pub struct ProcRowModel {
    pub proc_key: Seq<char>,
    pub terms: Seq<char>,
    pub tags: Seq<char>,
    pub comment_head: Seq<char>,
    pub comment_len: i64,
}

impl View for ProcRow {
    type V = ProcRowModel;

    open spec fn view(&self) -> ProcRowModel {
        ProcRowModel {
            proc_key: self.proc_key@,
            terms: self.terms@,
            tags: self.tags@,
            comment_head: self.comment_head@,
            comment_len: self.comment_len,
        }
    }
}

/// Models of rows.
pub open spec fn proc_rows(v: Seq<ProcRow>) -> Seq<ProcRowModel> {
    v.map_values(|r: ProcRow| r@)
}

/// Procedures of a module: name and line, 0 where the line is not known.
pub open spec fn procedures(v: Seq<(String, i64)>) -> Seq<(Seq<char>, i64)> {
    v.map_values(|p: (String, i64)| (p.0@, p.1))
}

/// Line as a line number, 0 for a negative one.
pub open spec fn line_of(line: i64) -> usize {
    (if line > 0 {
        line
    } else {
        0
    }) as usize
}

/// Key of a procedure.
pub open spec fn proc_key(path: Seq<char>, name: Seq<char>) -> Seq<char> {
    path + "::"@ + name
}

/// Tags of an optional comment.
pub open spec fn tags_of(c: Option<CommentModel>) -> Seq<Seq<char>> {
    match c {
        Some(c) => c.tags,
        None => Seq::empty(),
    }
}

/// Prose of an optional comment.
pub open spec fn prose_of(c: Option<CommentModel>) -> Option<Seq<char>> {
    match c {
        Some(c) => Some(c.prose),
        None => None,
    }
}

/// Head of an optional comment.
pub open spec fn head_of(c: Option<CommentModel>) -> Seq<char> {
    match c {
        Some(c) => c.head,
        None => Seq::empty(),
    }
}

/// Length of an optional comment.
pub open spec fn length_of(c: Option<CommentModel>) -> i64 {
    match c {
        Some(c) => (c.len_chars as usize) as i64,
        None => 0,
    }
}

/// Name of the owner of a module.
pub open spec fn owner_name(path: Seq<char>) -> Option<Seq<char>> {
    match module_owner(path) {
        Some((_, name)) => Some(name),
        None => None,
    }
}

/// Synonym of an object.
pub open spec fn synonym_of(
    kind: Option<Seq<char>>,
    name: Option<Seq<char>>,
    synonyms: Map<Seq<char>, Seq<char>>,
) -> Option<Seq<char>> {
    match (kind, name) {
        (Some(k), Some(n)) => if synonyms.contains_key(full_name(k, n)) {
            Some(synonyms[full_name(k, n)])
        } else {
            None
        },
        _ => None,
    }
}

/// Synonym of the owner of a module.
pub open spec fn owner_synonym(path: Seq<char>, synonyms: Map<Seq<char>, Seq<char>>) -> Option<
    Seq<char>,
> {
    match module_owner(path) {
        Some((kind, name)) => synonym_of(Some(kind), Some(name), synonyms),
        None => None,
    }
}

/// Tags of the header of a module.
pub open spec fn header_tags(lines: Seq<Seq<char>>) -> Seq<Seq<char>> {
    match module_header(lines) {
        Some(h) => h.tags,
        None => Seq::empty(),
    }
}

/// Row of a procedure with the given comment; nothing where there are no terms.
pub open spec fn described_row(
    path: Seq<char>,
    name: Seq<char>,
    comment: Option<CommentModel>,
    module_tags: Seq<Seq<char>>,
    synonyms: Map<Seq<char>, Seq<char>>,
) -> Option<ProcRowModel> {
    let terms = terms_line(
        term_sources(
            name,
            owner_name(path),
            owner_synonym(path, synonyms),
            tags_of(comment),
            prose_of(comment),
            module_tags,
        ),
    );
    if terms.len() == 0 {
        None
    } else {
        Some(
            ProcRowModel {
                proc_key: proc_key(path, name),
                terms,
                tags: join(tags_of(comment), ", "@),
                comment_head: head_of(comment),
                comment_len: length_of(comment),
            },
        )
    }
}

/// Rows of the first `n` procedures of a module.
pub open spec fn module_rows(
    path: Seq<char>,
    lines: Seq<Seq<char>>,
    procs: Seq<(Seq<char>, i64)>,
    synonyms: Map<Seq<char>, Seq<char>>,
    n: int,
) -> Seq<ProcRowModel>
    decreases n,
{
    if n <= 0 {
        Seq::empty()
    } else {
        let before = module_rows(path, lines, procs, synonyms, n - 1);
        let comment = leading_comment(lines, line_of(procs[n - 1].1) as int);
        match described_row(path, procs[n - 1].0, comment, header_tags(lines), synonyms) {
            Some(row) => before.push(row),
            None => before,
        }
    }
}

/// Row of the header of a module, if the module has one.
pub fn module_header_row(path: &str, lines: &Vec<String>) -> (r: Option<ModuleRow>)
    ensures
        match r {
            Some(row) => module_header(line_texts(lines@)) matches Some(h) && row@ == header_row(
                path@,
                h,
            ),
            None => module_header(line_texts(lines@)) is None,
        },
{
    match extract_module_header(lines.as_slice()) {
        Some(h) => {
            let row = ModuleRow {
                path: path.to_string(),
                tags: h.tags_line(),
                depends: h.depends_line(),
                header: h.prose,
            };
            Some(row)
        },
        None => None,
    }
}

/// Reference to an optional text.
fn text_ref<'a>(s: &'a Option<String>) -> (r: Option<&'a str>)
    ensures
        opt_text(r) == maybe_text(*s),
{
    match s {
        Some(t) => Some(t.as_str()),
        None => None,
    }
}

/// Synonym of an object.
fn find_synonym(kind: &Option<String>, name: &Option<String>, synonyms: &NameMap) -> (r: Option<
    String,
>)
    ensures
        maybe_text(r) == synonym_of(maybe_text(*kind), maybe_text(*name), synonyms@),
{
    match kind {
        Some(k) => match name {
            Some(n) => {
                let key = make_full_name(k.as_str(), n.as_str());
                synonyms.get(key.as_str())
            },
            None => None,
        },
        None => None,
    }
}

/// Rows of the terms of the procedures of a module, from the text of the module. A
/// procedure without terms has no row.
pub fn procedure_rows(
    path: &str,
    lines: &Vec<String>,
    procs: &Vec<(String, i64)>,
    synonyms: &NameMap,
) -> (r: Vec<ProcRow>)
    requires
        forall|k: int|
            0 <= k < procs@.len() ==> comment_fits(
                leading_bodies(line_texts(lines@), line_of((#[trigger] procs@[k]).1) as int),
            ),
    ensures
        proc_rows(r@) == module_rows(
            path@,
            line_texts(lines@),
            procedures(procs@),
            synonyms@,
            procs@.len() as int,
        ),
{
    let ghost all = procedures(procs@);
    let ghost text = line_texts(lines@);
    let module_tags: Vec<String> = match extract_module_header(lines.as_slice()) {
        Some(h) => h.tags,
        None => Vec::new(),
    };
    assert(texts(module_tags@) =~= header_tags(text));
    let (kind, name) = match object_from_module_path(path) {
        Some((kind, name)) => (Some(kind.to_string()), Some(name)),
        None => (None, None),
    };
    let synonym = find_synonym(&kind, &name, synonyms);
    let mut out: Vec<ProcRow> = Vec::new();
    assert(proc_rows(out@) =~= Seq::empty());
    let n: usize = procs.len();
    let mut i: usize = 0;
    while i < n
        invariant
            i <= n,
            n == procs@.len(),
            all == procedures(procs@),
            text == line_texts(lines@),
            texts(module_tags@) == header_tags(text),
            maybe_text(name) == owner_name(path@),
            maybe_text(synonym) == owner_synonym(path@, synonyms@),
            forall|k: int|
                0 <= k < procs@.len() ==> comment_fits(
                    leading_bodies(text, line_of((#[trigger] procs@[k]).1) as int),
                ),
            proc_rows(out@) == module_rows(path@, text, all, synonyms@, i as int),
        decreases n - i,
    {
        assert(all[i as int] == (procs@[i as int].0@, procs@[i as int].1));
        let proc_name = &procs[i].0;
        let start: i64 = procs[i].1;
        let line: usize = if start > 0 {
            start as usize
        } else {
            0
        };
        let comment = extract_leading_comment(lines.as_slice(), line);
        let row = make_row(
            path,
            proc_name.as_str(),
            text_ref(&name),
            text_ref(&synonym),
            &comment,
            module_tags.as_slice(),
        );
        let ghost before = proc_rows(out@);
        match row {
            Some(row) => {
                let ghost model = row@;
                out.push(row);
                assert(proc_rows(out@) == before.push(model));
            },
            None => {},
        }
        i = i + 1;
    }
    out
}

/// Model of an optional comment.
pub open spec fn opt_comment(c: Option<LeadingComment>) -> Option<CommentModel> {
    match c {
        Some(c) => Some(c@),
        None => None,
    }
}

/// Row of a procedure.
fn make_row(
    path: &str,
    proc_name: &str,
    object: Option<&str>,
    synonym: Option<&str>,
    comment: &Option<LeadingComment>,
    module_tags: &[String],
) -> (r: Option<ProcRow>)
    ensures
        ({
            let c = opt_comment(*comment);
            let terms = terms_line(
                term_sources(
                    proc_name@,
                    opt_text(object),
                    opt_text(synonym),
                    tags_of(c),
                    prose_of(c),
                    texts(module_tags@),
                ),
            );
            match r {
                Some(row) => terms.len() > 0 && row@ == (ProcRowModel {
                    proc_key: proc_key(path@, proc_name@),
                    terms,
                    tags: join(tags_of(c), ", "@),
                    comment_head: head_of(c),
                    comment_len: length_of(c),
                }),
                None => terms.len() == 0,
            }
        }),
{
    let reference = match comment {
        Some(c) => Some(c),
        None => None,
    };
    let terms = build_terms(proc_name, object, synonym, reference, module_tags);
    if terms.is_empty() {
        return None;
    }
    let mut key = path.to_string();
    key.append("::");
    key.append(proc_name);
    let (tags, comment_head, comment_len) = match comment {
        Some(c) => (c.tags_line(), c.head.clone(), c.len_chars as i64),
        None => (String::new(), String::new(), 0i64),
    };
    Some(ProcRow { proc_key: key, terms, tags, comment_head, comment_len })
}

/// Result of an earlier reading of a procedure, as it was kept.
pub struct StagedProc {
    pub proc_key: String,
    pub proc_name: String,
    pub object_meta_type: Option<String>,
    pub object_name: Option<String>,
    pub comment_prose: String,
    pub comment_head: String,
    /// Tags in one line with commas between them.
    pub comment_tags: String,
    pub comment_len: i64,
}

/// Model of a [`StagedProc`].
#[verifier::ext_equal]
pub struct StagedModel {
    pub proc_key: Seq<char>,
    pub proc_name: Seq<char>,
    pub object_meta_type: Option<Seq<char>>,
    pub object_name: Option<Seq<char>>,
    pub comment_prose: Seq<char>,
    pub comment_head: Seq<char>,
    pub comment_tags: Seq<char>,
    pub comment_len: i64,
}

impl View for StagedProc {
    type V = StagedModel;

    open spec fn view(&self) -> StagedModel {
        StagedModel {
            proc_key: self.proc_key@,
            proc_name: self.proc_name@,
            object_meta_type: maybe_text(self.object_meta_type),
            object_name: maybe_text(self.object_name),
            comment_prose: self.comment_prose@,
            comment_head: self.comment_head@,
            comment_tags: self.comment_tags@,
            comment_len: self.comment_len,
        }
    }
}

/// Models of kept results.
pub open spec fn staged_models(v: Seq<StagedProc>) -> Seq<StagedModel> {
    v.map_values(|p: StagedProc| p@)
}

/// Models of kept headers.
pub open spec fn module_models(v: Seq<ModuleRow>) -> Seq<ModuleRowModel> {
    v.map_values(|r: ModuleRow| r@)
}

/// The first `n` parts without surrounding white space, blank ones left out.
pub open spec fn filled_parts(parts: Seq<Seq<char>>, n: int) -> Seq<Seq<char>>
    decreases n,
{
    if n <= 0 {
        Seq::empty()
    } else if trimmed(parts[n - 1]).len() > 0 {
        filled_parts(parts, n - 1).push(trimmed(parts[n - 1]))
    } else {
        filled_parts(parts, n - 1)
    }
}

/// Tags of a line of tags.
pub open spec fn tag_list(line: Seq<char>) -> Seq<Seq<char>> {
    filled_parts(split(line, ','), split(line, ',').len() as int)
}

/// First position at or after `i` where two colons stand, or the length.
pub open spec fn find_colons(s: Seq<char>, i: int) -> int
    decreases s.len() - i,
{
    if i < 0 || i >= s.len() {
        s.len() as int
    } else if i + 1 < s.len() && s[i] == ':' && s[i + 1] == ':' {
        i
    } else {
        find_colons(s, i + 1)
    }
}

/// Path of the module in the key of a procedure.
pub open spec fn key_path(key: Seq<char>) -> Seq<char> {
    key.take(find_colons(key, 0))
}

/// Tags of the last of the first `n` headers that has this path.
pub open spec fn kept_tags(modules: Seq<ModuleRowModel>, path: Seq<char>, n: int) -> Seq<Seq<char>>
    decreases n,
{
    if n <= 0 || n > modules.len() {
        Seq::empty()
    } else if modules[n - 1].path == path {
        tag_list(modules[n - 1].tags)
    } else {
        kept_tags(modules, path, n - 1)
    }
}

/// Row of a procedure from what was kept of it; nothing where there are no terms. A
/// length of zero or less stands for a procedure without a comment.
pub open spec fn staged_row(
    p: StagedModel,
    modules: Seq<ModuleRowModel>,
    synonyms: Map<Seq<char>, Seq<char>>,
) -> Option<ProcRowModel> {
    let tags = tag_list(p.comment_tags);
    let terms = terms_line(
        term_sources(
            p.proc_name,
            p.object_name,
            synonym_of(p.object_meta_type, p.object_name, synonyms),
            if p.comment_len > 0 {
                tags
            } else {
                Seq::empty()
            },
            if p.comment_len > 0 {
                Some(p.comment_prose)
            } else {
                None
            },
            kept_tags(modules, key_path(p.proc_key), modules.len() as int),
        ),
    );
    if terms.len() == 0 {
        None
    } else {
        Some(
            ProcRowModel {
                proc_key: p.proc_key,
                terms,
                tags: join(tags, ", "@),
                comment_head: p.comment_head,
                comment_len: p.comment_len,
            },
        )
    }
}

/// Rows of the first `n` procedures from what was kept of them.
pub open spec fn staged_rows(
    procs: Seq<StagedModel>,
    modules: Seq<ModuleRowModel>,
    synonyms: Map<Seq<char>, Seq<char>>,
    n: int,
) -> Seq<ProcRowModel>
    decreases n,
{
    if n <= 0 {
        Seq::empty()
    } else {
        match staged_row(procs[n - 1], modules, synonyms) {
            Some(row) => staged_rows(procs, modules, synonyms, n - 1).push(row),
            None => staged_rows(procs, modules, synonyms, n - 1),
        }
    }
}

/// Tags of a line of tags: the parts between commas without surrounding white space,
/// blank ones left out.
pub fn split_tags(line: &str) -> (r: Vec<String>)
    ensures
        texts(r@) == tag_list(line@),
{
    let v = chars_of(line);
    let parts = split_chars(v.as_slice(), ',');
    let ghost all = texts(parts@);
    let mut out: Vec<String> = Vec::new();
    assert(texts(out@) =~= Seq::empty());
    let n: usize = parts.len();
    let mut i: usize = 0;
    while i < n
        invariant
            i <= n,
            n == parts@.len(),
            all == texts(parts@),
            texts(out@) == filled_parts(all, i as int),
        decreases n - i,
    {
        assert(all[i as int] == parts@[i as int]@);
        let ghost before = texts(out@);
        let tag = trim_text(parts[i].as_str());
        if !tag.is_empty() {
            let ghost text = tag@;
            out.push(tag);
            assert(texts(out@) == before.push(text));
        }
        i = i + 1;
    }
    out
}

/// Path of the module in the key of a procedure.
pub fn path_of_key(key: &str) -> (r: String)
    ensures
        r@ == key_path(key@),
{
    let v = chars_of(key);
    let n: usize = v.len();
    let mut i: usize = 0;
    while i < n && !(n - i > 1 && v[i] == ':' && v[i + 1] == ':')
        invariant
            i <= n,
            n == v@.len(),
            v@ == key@,
            find_colons(key@, 0) == find_colons(key@, i as int),
        decreases n - i,
    {
        i = i + 1;
    }
    text_of(slice_subrange(v.as_slice(), 0, i))
}

/// Whether an index tells the last of the first `n` headers of every path.
spec fn indexes_modules(
    index: Map<Seq<char>, usize>,
    modules: Seq<ModuleRowModel>,
    n: int,
) -> bool {
    forall|path: Seq<char>| #[trigger]
        index.contains_key(path) == (last_module(modules, path, n) >= 0) && (index.contains_key(
            path,
        ) ==> index[path] == last_module(modules, path, n))
}

/// The last of the first `n` headers that has this path, or `-1`.
spec fn last_module(modules: Seq<ModuleRowModel>, path: Seq<char>, n: int) -> int
    decreases n,
{
    if n <= 0 || n > modules.len() {
        -1
    } else if modules[n - 1].path == path {
        n - 1
    } else {
        last_module(modules, path, n - 1)
    }
}

proof fn lemma_kept_tags(modules: Seq<ModuleRowModel>, path: Seq<char>, n: int)
    requires
        0 <= n <= modules.len(),
    ensures
        -1 <= last_module(modules, path, n) < n,
        kept_tags(modules, path, n) == if last_module(modules, path, n) >= 0 {
            tag_list(modules[last_module(modules, path, n)].tags)
        } else {
            Seq::empty()
        },
    decreases n,
{
    if n > 0 && modules[n - 1].path != path {
        lemma_kept_tags(modules, path, n - 1);
    }
}

/// Index of headers by path; a later header replaces an earlier one.
fn index_modules(modules: &Vec<ModuleRow>) -> (r: StringHashMap<usize>)
    ensures
        indexes_modules(r@, module_models(modules@), modules@.len() as int),
{
    let ghost all = module_models(modules@);
    let mut index: StringHashMap<usize> = StringHashMap::new();
    let n: usize = modules.len();
    let mut i: usize = 0;
    while i < n
        invariant
            i <= n,
            n == modules@.len(),
            all == module_models(modules@),
            indexes_modules(index@, all, i as int),
        decreases n - i,
    {
        assert(all[i as int].path == modules@[i as int].path@);
        let ghost before = index@;
        index.insert(modules[i].path.clone(), i);
        assert forall|path: Seq<char>| #[trigger]
            index@.contains_key(path) == (last_module(all, path, i + 1) >= 0) && (
            index@.contains_key(path) ==> index@[path] == last_module(all, path, i + 1)) by {
            assert(before.contains_key(path) == (last_module(all, path, i as int) >= 0));
        }
        i = i + 1;
    }
    index
}

/// Rows of the terms of procedures from what was kept of an earlier reading, without
/// reading the modules again.
pub fn staged_procedure_rows(
    procs: &Vec<StagedProc>,
    modules: &Vec<ModuleRow>,
    synonyms: &NameMap,
) -> (r: Vec<ProcRow>)
    ensures
        proc_rows(r@) == staged_rows(
            staged_models(procs@),
            module_models(modules@),
            synonyms@,
            procs@.len() as int,
        ),
{
    let ghost all = staged_models(procs@);
    let ghost mods = module_models(modules@);
    let index = index_modules(modules);
    let mut out: Vec<ProcRow> = Vec::new();
    assert(proc_rows(out@) =~= Seq::empty());
    let n: usize = procs.len();
    let mut i: usize = 0;
    while i < n
        invariant
            i <= n,
            n == procs@.len(),
            all == staged_models(procs@),
            mods == module_models(modules@),
            indexes_modules(index@, mods, modules@.len() as int),
            proc_rows(out@) == staged_rows(all, mods, synonyms@, i as int),
        decreases n - i,
    {
        assert(all[i as int] == procs@[i as int]@);
        let p = &procs[i];
        let path = path_of_key(p.proc_key.as_str());
        proof {
            lemma_kept_tags(mods, path@, mods.len() as int);
            assert(index@.contains_key(path@) == (last_module(mods, path@, mods.len() as int)
                >= 0));
        }
        let module_tags = match index.get(path.as_str()) {
            Some(m) => {
                assert(mods[*m as int].tags == modules@[*m as int].tags@);
                split_tags(modules[*m].tags.as_str())
            },
            None => Vec::new(),
        };
        assert(texts(module_tags@) =~= kept_tags(mods, path@, mods.len() as int));
        let row = make_staged_row(p, module_tags.as_slice(), synonyms);
        let ghost before = proc_rows(out@);
        match row {
            Some(row) => {
                let ghost model = row@;
                out.push(row);
                assert(proc_rows(out@) == before.push(model));
            },
            None => {},
        }
        i = i + 1;
    }
    out
}

/// Row of a procedure from what was kept of it.
fn make_staged_row(p: &StagedProc, module_tags: &[String], synonyms: &NameMap) -> (r: Option<
    ProcRow,
>)
    ensures
        forall|modules: Seq<ModuleRowModel>|
            texts(module_tags@) == #[trigger] kept_tags(
                modules,
                key_path(p@.proc_key),
                modules.len() as int,
            ) ==> match r {
                Some(row) => staged_row(p@, modules, synonyms@) == Some(row@),
                None => staged_row(p@, modules, synonyms@) is None,
            },
{
    let synonym = find_synonym(&p.object_meta_type, &p.object_name, synonyms);
    let comment = LeadingComment {
        prose: p.comment_prose.clone(),
        head: p.comment_head.clone(),
        tags: split_tags(p.comment_tags.as_str()),
        depends: Vec::new(),
        len_chars: if p.comment_len > 0 {
            p.comment_len as usize
        } else {
            0
        },
    };
    let reference = if p.comment_len > 0 {
        Some(&comment)
    } else {
        None
    };
    let terms = build_terms(
        p.proc_name.as_str(),
        text_ref(&p.object_name),
        text_ref(&synonym),
        reference,
        module_tags,
    );
    if terms.is_empty() {
        return None;
    }
    Some(
        ProcRow {
            proc_key: p.proc_key.clone(),
            terms,
            tags: comment.tags_line(),
            comment_head: p.comment_head.clone(),
            comment_len: p.comment_len,
        },
    )
}

/// Whether a tag comes through a line of tags: it is not blank, has no surrounding white
/// space and holds no comma.
pub open spec fn is_plain_tag(tag: Seq<char>) -> bool {
    tag.len() > 0 && trimmed(tag) == tag && !tag.contains(',')
}

proof fn lemma_filled_concat(a: Seq<Seq<char>>, part: Seq<char>)
    ensures
        filled_parts(a + seq![part], a.len() as int + 1) == if trimmed(part).len() > 0 {
            filled_parts(a, a.len() as int).push(trimmed(part))
        } else {
            filled_parts(a, a.len() as int)
        },
{
    lemma_filled_prefix(a, a + seq![part], a.len() as int);
    assert((a + seq![part])[a.len() as int] == part);
}

proof fn lemma_filled_prefix(a: Seq<Seq<char>>, b: Seq<Seq<char>>, n: int)
    requires
        0 <= n <= a.len(),
        a.is_prefix_of(b),
    ensures
        filled_parts(a, n) == filled_parts(b, n),
    decreases n,
{
    if n > 0 {
        lemma_filled_prefix(a, b, n - 1);
    }
}

proof fn lemma_split_whole(s: Seq<char>, sep: char)
    requires
        !s.contains(sep),
    ensures
        split(s, sep) == seq![s],
{
    lemma_find_char(s, sep, 0);
    if find_char(s, sep, 0) < s.len() {
        assert(s.contains(s[find_char(s, sep, 0)]));
    }
}

proof fn lemma_trim_blank(tag: Seq<char>)
    ensures
        trimmed(seq![' '] + tag) == trimmed(tag),
{
    let s = seq![' '] + tag;
    lemma_space_end_shift(s, tag, 0);
    assert(space_end(s, 0) == space_end(s, 1));
    crate::text::lemma_space_end(tag, 0);
    assert(trim_start(s) =~= trim_start(tag));
}

proof fn lemma_space_end_shift(s: Seq<char>, tag: Seq<char>, i: int)
    requires
        s == seq![' '] + tag,
        0 <= i <= tag.len(),
    ensures
        space_end(s, i + 1) == space_end(tag, i) + 1,
    decreases tag.len() - i,
{
    if i < tag.len() {
        assert(s[i + 1] == tag[i]);
        if is_space(tag[i]) {
            lemma_space_end_shift(s, tag, i + 1);
        }
    }
}

proof fn lemma_tags_come_back(tags: Seq<Seq<char>>, n: int)
    requires
        0 < n <= tags.len(),
        forall|k: int| 0 <= k < tags.len() ==> is_plain_tag(#[trigger] tags[k]),
    ensures
        tag_list(joined(tags, ", "@, n)) == tags.take(n),
    decreases n,
{
    reveal_strlit(", ");
    let line = joined(tags, ", "@, n);
    let tag = tags[n - 1];
    assert(is_plain_tag(tag));
    if n == 1 {
        lemma_split_whole(tag, ',');
        assert(split(line, ',') == seq![tag]);
        assert(filled_parts(seq![tag], 0) == Seq::<Seq<char>>::empty());
        assert(filled_parts(seq![tag], 1) =~= seq![tag]);
        assert(tags.take(1) =~= seq![tag]);
    } else {
        lemma_tags_come_back(tags, n - 1);
        let before = joined(tags, ", "@, n - 1);
        let last = seq![' '] + tag;
        assert(line =~= before + seq![','] + last);
        lemma_split_around(before, last, ',');
        assert(!last.contains(',')) by {
            if last.contains(',') {
                let k = choose|k: int| 0 <= k < last.len() && last[k] == ',';
                assert(tag[k - 1] == ',');
            }
        }
        lemma_split_whole(last, ',');
        lemma_trim_blank(tag);
        lemma_filled_concat(split(before, ','), last);
        assert(tags.take(n) =~= tags.take(n - 1).push(tag));
    }
}

/// Tags written in one line are read back from it.
pub proof fn law_tags_come_back(tags: Seq<Seq<char>>)
    requires
        forall|k: int| 0 <= k < tags.len() ==> is_plain_tag(#[trigger] tags[k]),
    ensures
        tag_list(join(tags, ", "@)) == tags,
{
    if tags.len() > 0 {
        lemma_tags_come_back(tags, tags.len() as int);
        assert(tags.take(tags.len() as int) =~= tags);
    } else {
        let none = Seq::<char>::empty();
        assert(join(tags, ", "@) =~= none);
        lemma_split_whole(none, ',');
        assert(trimmed(none) =~= none);
        assert(filled_parts(seq![none], 0) == Seq::<Seq<char>>::empty());
        assert(filled_parts(seq![none], 1) =~= tags);
    }
}

proof fn lemma_find_colons(s: Seq<char>, i: int, j: int)
    requires
        0 <= i <= j,
        j + 1 < s.len(),
        s[j] == ':' && s[j + 1] == ':',
        forall|k: int| i <= k < j ==> !(#[trigger] s[k] == ':' && s[k + 1] == ':'),
    ensures
        find_colons(s, i) == j,
    decreases j - i,
{
    if i < j {
        assert(!(s[i] == ':' && s[i + 1] == ':'));
        lemma_find_colons(s, i + 1, j);
    }
}

/// The key of a procedure gives back the path of its module, unless the path itself holds
/// two colons in a row or ends with a colon.
pub proof fn law_key_gives_path(path: Seq<char>, name: Seq<char>)
    requires
        forall|k: int| 0 <= k < path.len() - 1 ==> !(#[trigger] path[k] == ':' && path[k + 1] == ':'),
        path.len() > 0 ==> path.last() != ':',
    ensures
        key_path(proc_key(path, name)) == path,
{
    reveal_strlit("::");
    let key = proc_key(path, name);
    let n = path.len() as int;
    assert(key[n] == ':' && key[n + 1] == ':');
    assert forall|k: int| 0 <= k < n implies !(#[trigger] key[k] == ':' && key[k + 1] == ':') by {
        assert(key[k] == path[k]);
        if k + 1 < n {
            assert(key[k + 1] == path[k + 1]);
        }
    }
    lemma_find_colons(key, 0, n);
    assert(key.take(n) =~= path);
}

/// What is kept of a procedure of a module.
pub open spec fn kept(
    path: Seq<char>,
    name: Seq<char>,
    comment: Option<CommentModel>,
) -> StagedModel {
    StagedModel {
        proc_key: proc_key(path, name),
        proc_name: name,
        object_meta_type: match module_owner(path) {
            Some((kind, _)) => Some(kind),
            None => None,
        },
        object_name: owner_name(path),
        comment_prose: match comment {
            Some(c) => c.prose,
            None => Seq::empty(),
        },
        comment_head: head_of(comment),
        comment_tags: join(tags_of(comment), ", "@),
        comment_len: length_of(comment),
    }
}

/// Both ways give the same row: what was kept of a procedure gives the row that the text
/// of the module gives, for plain tags and a comment whose length was kept.
pub proof fn law_kept_gives_same_row(
    path: Seq<char>,
    name: Seq<char>,
    comment: Option<CommentModel>,
    module_tags: Seq<Seq<char>>,
    modules: Seq<ModuleRowModel>,
    synonyms: Map<Seq<char>, Seq<char>>,
)
    requires
        forall|k: int| 0 <= k < path.len() - 1 ==> !(#[trigger] path[k] == ':' && path[k + 1] == ':'),
        path.len() > 0 ==> path.last() != ':',
        forall|k: int|
            0 <= k < tags_of(comment).len() ==> is_plain_tag(#[trigger] tags_of(comment)[k]),
        comment is Some ==> length_of(comment) > 0,
        module_tags == kept_tags(modules, path, modules.len() as int),
    ensures
        staged_row(kept(path, name, comment), modules, synonyms) == described_row(
            path,
            name,
            comment,
            module_tags,
            synonyms,
        ),
{
    law_key_gives_path(path, name);
    law_tags_come_back(tags_of(comment));
}

/// Every row of a module has terms, and its key is that of a procedure of the module.
pub proof fn law_rows_have_terms(
    path: Seq<char>,
    lines: Seq<Seq<char>>,
    procs: Seq<(Seq<char>, i64)>,
    synonyms: Map<Seq<char>, Seq<char>>,
    n: int,
)
    requires
        0 <= n <= procs.len(),
    ensures
        forall|k: int|
            0 <= k < module_rows(path, lines, procs, synonyms, n).len() ==> (
            #[trigger] module_rows(path, lines, procs, synonyms, n)[k]).terms.len() > 0 && exists|
                j: int,
            |
                0 <= j < n && module_rows(path, lines, procs, synonyms, n)[k].proc_key == proc_key(
                    path,
                    (#[trigger] procs[j]).0,
                ),
    decreases n,
{
    if n > 0 {
        law_rows_have_terms(path, lines, procs, synonyms, n - 1);
        let before = module_rows(path, lines, procs, synonyms, n - 1);
        let all = module_rows(path, lines, procs, synonyms, n);
        assert forall|k: int| 0 <= k < all.len() implies (#[trigger] all[k]).terms.len() > 0
            && exists|j: int|
            0 <= j < n && all[k].proc_key == proc_key(path, (#[trigger] procs[j]).0) by {
            if k < before.len() {
                assert(all[k] == before[k]);
                let j = choose|j: int|
                    0 <= j < n - 1 && before[k].proc_key == proc_key(path, (#[trigger] procs[j]).0);
                assert(all[k].proc_key == proc_key(path, procs[j].0));
            } else {
                assert(all[k].proc_key == proc_key(path, procs[n - 1].0));
            }
        }
    }
}

/// The row of a procedure: its key is the path of the module and the name with two colons
/// between them, its terms are built from the name, the owner of the module by its path,
/// the synonym of that owner, the comment and the tags of the module. Tags, head and
/// length are those of the comment. There is no row exactly where there are no terms.
pub proof fn law_row_of_procedure(
    path: Seq<char>,
    name: Seq<char>,
    c: CommentModel,
    module_tags: Seq<Seq<char>>,
    synonyms: Map<Seq<char>, Seq<char>>,
    kind: Seq<char>,
    owner: Seq<char>,
)
    requires
        module_owner(path) == Some((kind, owner)),
        c.len_chars <= i64::MAX,
        c.len_chars <= usize::MAX,
    ensures
        ({
            let synonym = if synonyms.contains_key(kind + "."@ + owner) {
                Some(synonyms[kind + "."@ + owner])
            } else {
                None
            };
            let terms = terms_line(
                term_sources(name, Some(owner), synonym, c.tags, Some(c.prose), module_tags),
            );
            let bare = terms_line(
                term_sources(name, Some(owner), synonym, Seq::empty(), None, module_tags),
            );
            &&& described_row(path, name, Some(c), module_tags, synonyms) == if terms.len() > 0 {
                Some(
                    ProcRowModel {
                        proc_key: path + "::"@ + name,
                        terms,
                        tags: join(c.tags, ", "@),
                        comment_head: c.head,
                        comment_len: c.len_chars as i64,
                    },
                )
            } else {
                None
            }
            &&& described_row(path, name, None, module_tags, synonyms) == if bare.len() > 0 {
                Some(
                    ProcRowModel {
                        proc_key: path + "::"@ + name,
                        terms: bare,
                        tags: Seq::empty(),
                        comment_head: Seq::empty(),
                        comment_len: 0,
                    },
                )
            } else {
                None
            }
        }),
{
    assert(join(Seq::<Seq<char>>::empty(), ", "@) =~= Seq::empty());
}

/// A procedure of a module without an owner has a row as well, with terms of its own.
pub proof fn law_row_without_owner(
    path: Seq<char>,
    name: Seq<char>,
    c: CommentModel,
    module_tags: Seq<Seq<char>>,
    synonyms: Map<Seq<char>, Seq<char>>,
)
    requires
        module_owner(path) is None,
        c.len_chars <= i64::MAX,
        c.len_chars <= usize::MAX,
    ensures
        ({
            let terms = terms_line(
                term_sources(name, None, None, c.tags, Some(c.prose), module_tags),
            );
            let bare = terms_line(term_sources(name, None, None, Seq::empty(), None, module_tags));
            &&& described_row(path, name, Some(c), module_tags, synonyms) == if terms.len() > 0 {
                Some(
                    ProcRowModel {
                        proc_key: path + "::"@ + name,
                        terms,
                        tags: join(c.tags, ", "@),
                        comment_head: c.head,
                        comment_len: c.len_chars as i64,
                    },
                )
            } else {
                None
            }
            &&& described_row(path, name, None, module_tags, synonyms) == if bare.len() > 0 {
                Some(
                    ProcRowModel {
                        proc_key: path + "::"@ + name,
                        terms: bare,
                        tags: Seq::empty(),
                        comment_head: Seq::empty(),
                        comment_len: 0,
                    },
                )
            } else {
                None
            }
        }),
{
    assert(join(Seq::<Seq<char>>::empty(), ", "@) =~= Seq::empty());
}

/// Every procedure counts, in their order: one more procedure adds its row behind the
/// others, described by the comment right above its line and by the tags of the header of
/// the module. A procedure whose line is not known has no comment.
pub proof fn law_one_more_procedure(
    path: Seq<char>,
    lines: Seq<Seq<char>>,
    procs: Seq<(Seq<char>, i64)>,
    p: (Seq<char>, i64),
    synonyms: Map<Seq<char>, Seq<char>>,
)
    requires
        p.1 <= usize::MAX,
    ensures
        ({
            let tags = match module_header(lines) {
                Some(h) => h.tags,
                None => Seq::empty(),
            };
            let comment = if p.1 > 0 {
                leading_comment(lines, p.1 as int)
            } else {
                None
            };
            let before = module_rows(path, lines, procs, synonyms, procs.len() as int);
            module_rows(path, lines, procs.push(p), synonyms, procs.len() as int + 1) == match described_row(
                path,
                p.0,
                comment,
                tags,
                synonyms,
            ) {
                Some(row) => before.push(row),
                None => before,
            }
        }),
        module_rows(path, lines, procs, synonyms, 0).len() == 0,
{
    lemma_module_rows_prefix(path, lines, procs, p, synonyms, procs.len() as int);
    assert(procs.push(p)[procs.len() as int] == p);
    assert(line_of(p.1) == if p.1 > 0 {
        p.1 as int
    } else {
        0int
    });
    assert(leading_comment(lines, 0) is None);
}

proof fn lemma_module_rows_prefix(
    path: Seq<char>,
    lines: Seq<Seq<char>>,
    procs: Seq<(Seq<char>, i64)>,
    p: (Seq<char>, i64),
    synonyms: Map<Seq<char>, Seq<char>>,
    n: int,
)
    requires
        0 <= n <= procs.len(),
    ensures
        module_rows(path, lines, procs.push(p), synonyms, n) == module_rows(
            path,
            lines,
            procs,
            synonyms,
            n,
        ),
    decreases n,
{
    if n > 0 {
        lemma_module_rows_prefix(path, lines, procs, p, synonyms, n - 1);
        assert(procs.push(p)[n - 1] == procs[n - 1]);
    }
}

/// The row of a procedure from what was kept of it: terms from the kept name, owner, its
/// synonym, tags and prose, and from the kept tags of the module that the key names. A
/// length of zero or less keeps tags and prose out of the terms. The key, the head and the
/// length stay as they were kept.
pub proof fn law_row_from_kept(
    p: StagedModel,
    modules: Seq<ModuleRowModel>,
    synonyms: Map<Seq<char>, Seq<char>>,
)
    ensures
        ({
            let synonym = match (p.object_meta_type, p.object_name) {
                (Some(kind), Some(name)) => if synonyms.contains_key(kind + "."@ + name) {
                    Some(synonyms[kind + "."@ + name])
                } else {
                    None
                },
                _ => None,
            };
            let module_tags = kept_tags(modules, key_path(p.proc_key), modules.len() as int);
            let terms = if p.comment_len > 0 {
                terms_line(
                    term_sources(
                        p.proc_name,
                        p.object_name,
                        synonym,
                        tag_list(p.comment_tags),
                        Some(p.comment_prose),
                        module_tags,
                    ),
                )
            } else {
                terms_line(
                    term_sources(
                        p.proc_name,
                        p.object_name,
                        synonym,
                        Seq::empty(),
                        None,
                        module_tags,
                    ),
                )
            };
            staged_row(p, modules, synonyms) == if terms.len() > 0 {
                Some(
                    ProcRowModel {
                        proc_key: p.proc_key,
                        terms,
                        tags: join(tag_list(p.comment_tags), ", "@),
                        comment_head: p.comment_head,
                        comment_len: p.comment_len,
                    },
                )
            } else {
                None
            }
        }),
{
}

/// Everything that was kept counts, in its order: one more procedure adds its row behind
/// the others.
pub proof fn law_one_more_kept(
    procs: Seq<StagedModel>,
    p: StagedModel,
    modules: Seq<ModuleRowModel>,
    synonyms: Map<Seq<char>, Seq<char>>,
)
    ensures
        staged_rows(procs, modules, synonyms, 0).len() == 0,
        staged_rows(procs.push(p), modules, synonyms, procs.len() as int + 1) == match staged_row(
            p,
            modules,
            synonyms,
        ) {
            Some(row) => staged_rows(procs, modules, synonyms, procs.len() as int).push(row),
            None => staged_rows(procs, modules, synonyms, procs.len() as int),
        },
{
    lemma_staged_rows_prefix(procs, p, modules, synonyms, procs.len() as int);
    assert(procs.push(p)[procs.len() as int] == p);
}

proof fn lemma_staged_rows_prefix(
    procs: Seq<StagedModel>,
    p: StagedModel,
    modules: Seq<ModuleRowModel>,
    synonyms: Map<Seq<char>, Seq<char>>,
    n: int,
)
    requires
        0 <= n <= procs.len(),
    ensures
        staged_rows(procs.push(p), modules, synonyms, n) == staged_rows(
            procs,
            modules,
            synonyms,
            n,
        ),
    decreases n,
{
    if n > 0 {
        lemma_staged_rows_prefix(procs, p, modules, synonyms, n - 1);
        assert(procs.push(p)[n - 1] == procs[n - 1]);
    }
}

/// The tags of a module are those of its last kept header; a module without one has none.
pub proof fn law_tags_of_last_header(modules: Seq<ModuleRowModel>, path: Seq<char>, k: int)
    requires
        -1 <= k < modules.len(),
        k >= 0 ==> modules[k].path == path,
        forall|j: int| k < j < modules.len() ==> (#[trigger] modules[j]).path != path,
    ensures
        kept_tags(modules, path, modules.len() as int) == if k >= 0 {
            tag_list(modules[k].tags)
        } else {
            Seq::empty()
        },
{
    lemma_tags_of_last_header(modules, path, k, modules.len() as int);
}

proof fn lemma_tags_of_last_header(
    modules: Seq<ModuleRowModel>,
    path: Seq<char>,
    k: int,
    n: int,
)
    requires
        -1 <= k < n <= modules.len() || (k == -1 && n == 0),
        k >= 0 ==> modules[k].path == path,
        forall|j: int| k < j < n ==> (#[trigger] modules[j]).path != path,
    ensures
        kept_tags(modules, path, n) == if k >= 0 {
            tag_list(modules[k].tags)
        } else {
            Seq::empty()
        },
    decreases n,
{
    if k < n - 1 {
        assert(modules[n - 1].path != path);
        lemma_tags_of_last_header(modules, path, k, n - 1);
    }
}

/// A comma parts tags; white space around a tag does not matter and a blank one is left
/// out.
pub proof fn law_commas_part_tags(a: Seq<char>, tag: Seq<char>)
    requires
        !tag.contains(','),
    ensures
        tag_list(tag) == if trimmed(tag).len() > 0 {
            seq![trimmed(tag)]
        } else {
            Seq::empty()
        },
        tag_list(a + seq![','] + tag) == tag_list(a) + tag_list(tag),
{
    lemma_split_whole(tag, ',');
    lemma_filled_concat(Seq::empty(), tag);
    assert(Seq::<Seq<char>>::empty() + seq![tag] =~= seq![tag]);
    assert(filled_parts(Seq::<Seq<char>>::empty(), 0) =~= Seq::empty());
    assert(tag_list(tag) =~= if trimmed(tag).len() > 0 {
        seq![trimmed(tag)]
    } else {
        Seq::empty()
    });
    lemma_split_around(a, tag, ',');
    lemma_filled_concat(split(a, ','), tag);
    assert(tag_list(a + seq![','] + tag) =~= tag_list(a) + tag_list(tag));
}

/// The row of a module header holds the path, the prose, and the tags and dependencies in
/// one line each, with commas and with semicolons.
pub proof fn law_row_of_header(path: Seq<char>, h: HeaderModel)
    ensures
        header_row(path, h) == (ModuleRowModel {
            path,
            header: h.prose,
            tags: join(h.tags, ", "@),
            depends: join(h.depends, "; "@),
        }),
{
}

/// A key without two colons in a row is a path as a whole.
pub proof fn law_key_without_colons(key: Seq<char>)
    requires
        forall|k: int| 0 <= k < key.len() - 1 ==> !(#[trigger] key[k] == ':' && key[k + 1] == ':'),
    ensures
        key_path(key) == key,
{
    lemma_no_colons(key, 0);
    assert(key.take(key.len() as int) =~= key);
}

proof fn lemma_no_colons(s: Seq<char>, i: int)
    requires
        0 <= i,
        forall|k: int| 0 <= k < s.len() - 1 ==> !(#[trigger] s[k] == ':' && s[k + 1] == ':'),
    ensures
        find_colons(s, i) == s.len(),
    decreases s.len() - i,
{
    if i < s.len() {
        if i + 1 < s.len() {
            assert(!(s[i] == ':' && s[i + 1] == ':'));
        }
        lemma_no_colons(s, i + 1);
    }
}

} // verus!
