//! Rows of the graph of references between objects.

use vstd::prelude::*;

use super::names::NameMap;
use super::paths::{full_name, make_full_name};
use crate::text::{has_char, texts};
use crate::xml::form_refs::{edge_models, DataLinkEdge, EdgeModel};

verus! {

/// One row of the graph: a reference from an object to an object.
#[derive(Debug, Clone, PartialEq, Eq)]
pub struct LinkRow {
    pub from_object: String,
    pub from_path: String,
    pub to_object: String,
    pub link_kind: &'static str,
    pub is_composite: bool,
    pub is_universal: bool,
}

/// Model of a [`LinkRow`].
#[verifier::ext_equal]
pub struct RowModel {
    pub from_object: Seq<char>,
    pub from_path: Seq<char>,
    pub to_object: Seq<char>,
    pub link_kind: Seq<char>,
    pub is_composite: bool,
    pub is_universal: bool,
}

impl View for LinkRow {
    type V = RowModel;

    open spec fn view(&self) -> RowModel {
        RowModel {
            from_object: self.from_object@,
            from_path: self.from_path@,
            to_object: self.to_object@,
            link_kind: self.link_kind@,
            is_composite: self.is_composite,
            is_universal: self.is_universal,
        }
    }
}

/// Models of rows.
pub open spec fn rows(v: Seq<LinkRow>) -> Seq<RowModel> {
    v.map_values(|r: LinkRow| r@)
}

/// Row for an object that belongs to the content of another.
pub open spec fn content_row(from: Seq<char>, to: Seq<char>, kind: Seq<char>) -> RowModel {
    RowModel {
        from_object: from,
        from_path: Seq::empty(),
        to_object: to,
        link_kind: kind,
        is_composite: false,
        is_universal: false,
    }
}

/// Rows for all objects of a content.
pub open spec fn content_rows(from: Seq<char>, items: Seq<Seq<char>>, kind: Seq<char>) -> Seq<
    RowModel,
> {
    items.map_values(|to: Seq<char>| content_row(from, to, kind))
}

/// Full name of an item of a subsystem: a full name as it is, an identifier by the map
/// of identifiers, nothing for an unknown identifier.
pub open spec fn item_name(item: Seq<char>, ids: Map<Seq<char>, Seq<char>>) -> Option<Seq<char>> {
    if item.contains('.') {
        Some(item)
    } else if ids.contains_key(item) {
        Some(ids[item])
    } else {
        None
    }
}

/// Full names of the first `n` items of a subsystem.
pub open spec fn item_names(
    items: Seq<Seq<char>>,
    ids: Map<Seq<char>, Seq<char>>,
    n: int,
) -> Seq<Seq<char>>
    decreases n,
{
    if n <= 0 {
        Seq::empty()
    } else {
        match item_name(items[n - 1], ids) {
            Some(name) => item_names(items, ids, n - 1).push(name),
            None => item_names(items, ids, n - 1),
        }
    }
}

/// Rows of a subsystem.
pub open spec fn subsystem_rows(
    name: Seq<char>,
    items: Seq<Seq<char>>,
    ids: Map<Seq<char>, Seq<char>>,
) -> Seq<RowModel> {
    content_rows(
        full_name("Subsystem"@, name),
        item_names(items, ids, items.len() as int),
        "subsystem_content"@,
    )
}

/// Row for one type of a defined type.
pub open spec fn target_row(from: Seq<char>, target: (Seq<char>, bool), several: bool) -> RowModel {
    RowModel {
        from_object: from,
        from_path: Seq::empty(),
        to_object: target.0,
        link_kind: "defined_type_content"@,
        is_composite: several,
        is_universal: target.1,
    }
}

/// Types of a defined type with the mark of a universal one.
pub open spec fn targets(v: Seq<(String, bool)>) -> Seq<(Seq<char>, bool)> {
    v.map_values(|t: (String, bool)| (t.0@, t.1))
}

/// Rows of a defined type; several types make it a composite one.
pub open spec fn defined_type_rows(name: Seq<char>, v: Seq<(Seq<char>, bool)>) -> Seq<RowModel> {
    v.map_values(
        |t: (Seq<char>, bool)| target_row(full_name("DefinedType"@, name), t, v.len() > 1),
    )
}

/// Where the value of a functional option is kept: the object and the place in it.
pub open spec fn location(l: Option<(String, String)>) -> Option<(Seq<char>, Seq<char>)> {
    match l {
        Some((object, place)) => Some((object@, place@)),
        None => None,
    }
}

/// Rows of a functional option: first the place of its value, then its content.
pub open spec fn option_rows(
    name: Seq<char>,
    location: Option<(Seq<char>, Seq<char>)>,
    items: Seq<Seq<char>>,
) -> Seq<RowModel> {
    let from = full_name("FunctionalOption"@, name);
    let first = match location {
        Some((object, place)) => seq![
            RowModel {
                from_path: place,
                ..content_row(from, object, "functional_option_location"@)
            },
        ],
        None => Seq::empty(),
    };
    first + content_rows(from, items, "functional_option_content"@)
}

/// Row of an edge whose path is put behind a prefix.
pub open spec fn edge_row(from: Seq<char>, prefix: Seq<char>, e: EdgeModel) -> RowModel {
    RowModel {
        from_object: from,
        from_path: prefix + e.from_path,
        to_object: e.to_object,
        link_kind: e.link_kind,
        is_composite: e.is_composite,
        is_universal: e.is_universal,
    }
}

/// Rows of edges.
pub open spec fn edge_rows(from: Seq<char>, prefix: Seq<char>, edges: Seq<EdgeModel>) -> Seq<
    RowModel,
> {
    edges.map_values(|e: EdgeModel| edge_row(from, prefix, e))
}

/// Prefix of the paths of a form.
pub open spec fn form_prefix(form: Seq<char>) -> Seq<char> {
    "Form."@ + form + "."@
}

/// Append rows for all objects of a content.
fn push_content(out: &mut Vec<LinkRow>, from: &String, items: &Vec<String>, kind: &'static str)
    ensures
        rows(final(out)@) == rows(old(out)@) + content_rows(from@, texts(items@), kind@),
{
    let ghost start = rows(out@);
    let ghost more = content_rows(from@, texts(items@), kind@);
    let n: usize = items.len();
    let mut i: usize = 0;
    assert(start + more.take(0) == start);
    while i < n
        invariant
            i <= n,
            n == items@.len(),
            more == content_rows(from@, texts(items@), kind@),
            rows(out@) == start + more.take(i as int),
        decreases n - i,
    {
        let ghost before = rows(out@);
        let row = LinkRow {
            from_object: from.clone(),
            from_path: String::new(),
            to_object: items[i].clone(),
            link_kind: kind,
            is_composite: false,
            is_universal: false,
        };
        let ghost model = row@;
        out.push(row);
        proof {
            assert(model =~= more[i as int]);
            assert(rows(out@) == before.push(model));
            assert(more.take(i + 1) == more.take(i as int).push(more[i as int]));
        }
        i = i + 1;
    }
    assert(more.take(n as int) == more);
}

/// Whether the items of a subsystem hold an identifier, so that the map of identifiers
/// is needed. Only dumps of extensions have identifiers there.
pub fn needs_id_map(items: &Vec<String>) -> (r: bool)
    ensures
        r == exists|k: int| 0 <= k < items@.len() && !(#[trigger] items@[k]@.contains('.')),
{
    let n: usize = items.len();
    let mut i: usize = 0;
    while i < n
        invariant
            i <= n,
            n == items@.len(),
            forall|k: int| 0 <= k < i ==> #[trigger] items@[k]@.contains('.'),
        decreases n - i,
    {
        if !has_char(items[i].as_str(), '.') {
            return true;
        }
        i = i + 1;
    }
    false
}

/// Full names of the items of a subsystem; unknown identifiers are left out.
pub fn resolve_items(items: &Vec<String>, ids: &NameMap) -> (r: Vec<String>)
    ensures
        texts(r@) == item_names(texts(items@), ids@, items@.len() as int),
{
    let ghost all = texts(items@);
    let mut out: Vec<String> = Vec::new();
    assert(texts(out@) =~= Seq::empty());
    let n: usize = items.len();
    let mut i: usize = 0;
    while i < n
        invariant
            i <= n,
            n == items@.len(),
            all == texts(items@),
            texts(out@) == item_names(all, ids@, i as int),
        decreases n - i,
    {
        assert(all[i as int] == items@[i as int]@);
        let ghost before = texts(out@);
        let found = if has_char(items[i].as_str(), '.') {
            Some(items[i].clone())
        } else {
            ids.get(items[i].as_str())
        };
        match found {
            Some(name) => {
                let ghost text = name@;
                out.push(name);
                assert(texts(out@) == before.push(text));
            },
            None => {},
        }
        i = i + 1;
    }
    out
}

/// Rows of a subsystem: the objects of its content. An object borrowed by an extension
/// is given by its identifier, which the map resolves; an unknown one gives no row.
pub fn subsystem_links(name: &str, items: &Vec<String>, ids: &NameMap) -> (r: Vec<LinkRow>)
    ensures
        rows(r@) == subsystem_rows(name@, texts(items@), ids@),
{
    let from = make_full_name("Subsystem", name);
    let names = resolve_items(items, ids);
    let mut out: Vec<LinkRow> = Vec::new();
    push_content(&mut out, &from, &names, "subsystem_content");
    assert(rows(out@) =~= subsystem_rows(name@, texts(items@), ids@));
    out
}

/// Rows of an exchange plan: the objects of its content.
pub fn exchange_plan_links(name: &str, items: &Vec<String>) -> (r: Vec<LinkRow>)
    ensures
        rows(r@) == content_rows(
            full_name("ExchangePlan"@, name@),
            texts(items@),
            "exchange_plan_content"@,
        ),
{
    let from = make_full_name("ExchangePlan", name);
    let mut out: Vec<LinkRow> = Vec::new();
    push_content(&mut out, &from, items, "exchange_plan_content");
    assert(rows(out@) =~= content_rows(from@, texts(items@), "exchange_plan_content"@));
    out
}

/// Rows of a defined type: the types that it stands for.
pub fn defined_type_links(name: &str, list: &Vec<(String, bool)>) -> (r: Vec<LinkRow>)
    ensures
        rows(r@) == defined_type_rows(name@, targets(list@)),
{
    let from = make_full_name("DefinedType", name);
    let ghost all = targets(list@);
    let ghost want = defined_type_rows(name@, all);
    let mut out: Vec<LinkRow> = Vec::new();
    let n: usize = list.len();
    let several = n > 1;
    let mut i: usize = 0;
    assert(rows(out@) =~= want.take(0));
    while i < n
        invariant
            i <= n,
            n == list@.len(),
            several == (n > 1),
            from@ == full_name("DefinedType"@, name@),
            all == targets(list@),
            want == defined_type_rows(name@, all),
            rows(out@) == want.take(i as int),
        decreases n - i,
    {
        let ghost before = rows(out@);
        let row = LinkRow {
            from_object: from.clone(),
            from_path: String::new(),
            to_object: list[i].0.clone(),
            link_kind: "defined_type_content",
            is_composite: several,
            is_universal: list[i].1,
        };
        let ghost model = row@;
        out.push(row);
        proof {
            assert(all[i as int] == (list@[i as int].0@, list@[i as int].1));
            assert(model =~= want[i as int]);
            assert(rows(out@) == before.push(model));
            assert(want.take(i + 1) == want.take(i as int).push(want[i as int]));
        }
        i = i + 1;
    }
    assert(want.take(n as int) == want);
    out
}

/// Rows of a functional option: the place where its value is kept and the objects of
/// its content.
pub fn functional_option_links(
    name: &str,
    place: &Option<(String, String)>,
    items: &Vec<String>,
) -> (r: Vec<LinkRow>)
    ensures
        rows(r@) == option_rows(name@, location(*place), texts(items@)),
{
    let from = make_full_name("FunctionalOption", name);
    let mut out: Vec<LinkRow> = Vec::new();
    match place {
        Some((object, path)) => {
            let row = LinkRow {
                from_object: from.clone(),
                from_path: path.clone(),
                to_object: object.clone(),
                link_kind: "functional_option_location",
                is_composite: false,
                is_universal: false,
            };
            let ghost model = row@;
            out.push(row);
            assert(rows(out@) =~= seq![model]);
        },
        None => {
            assert(rows(out@) =~= Seq::empty());
        },
    }
    push_content(&mut out, &from, items, "functional_option_content");
    out
}

/// Rows of edges whose paths are put behind a prefix.
fn edge_links(from: &str, prefix: &str, edges: &Vec<DataLinkEdge>) -> (r: Vec<LinkRow>)
    ensures
        rows(r@) == edge_rows(from@, prefix@, edge_models(edges@)),
{
    let ghost all = edge_models(edges@);
    let ghost want = edge_rows(from@, prefix@, all);
    let mut out: Vec<LinkRow> = Vec::new();
    let n: usize = edges.len();
    let mut i: usize = 0;
    assert(rows(out@) =~= want.take(0));
    while i < n
        invariant
            i <= n,
            n == edges@.len(),
            all == edge_models(edges@),
            want == edge_rows(from@, prefix@, all),
            rows(out@) == want.take(i as int),
        decreases n - i,
    {
        let ghost before = rows(out@);
        let e = &edges[i];
        let mut from_path = prefix.to_string();
        from_path.append(e.from_path.as_str());
        let row = LinkRow {
            from_object: from.to_string(),
            from_path,
            to_object: e.to_object.clone(),
            link_kind: e.link_kind,
            is_composite: e.is_composite,
            is_universal: e.is_universal,
        };
        let ghost model = row@;
        out.push(row);
        proof {
            assert(all[i as int] == edges@[i as int]@);
            assert(model =~= want[i as int]);
            assert(rows(out@) == before.push(model));
            assert(want.take(i + 1) == want.take(i as int).push(want[i as int]));
        }
        i = i + 1;
    }
    assert(want.take(n as int) == want);
    out
}

/// Rows of an object: the edges of its attributes.
pub fn object_links(owner: &str, edges: &Vec<DataLinkEdge>) -> (r: Vec<LinkRow>)
    ensures
        rows(r@) == edge_rows(owner@, Seq::empty(), edge_models(edges@)),
{
    proof {
        reveal_strlit("");
        assert(""@ =~= Seq::<char>::empty());
    }
    edge_links(owner, "", edges)
}

/// Rows of a form: its edges, which start at the owner of the form and whose paths name
/// the form.
pub fn form_links(owner: &str, form: &str, edges: &Vec<DataLinkEdge>) -> (r: Vec<LinkRow>)
    ensures
        rows(r@) == edge_rows(owner@, form_prefix(form@), edge_models(edges@)),
{
    let mut prefix = "Form.".to_string();
    prefix.append(form);
    prefix.append(".");
    edge_links(owner, prefix.as_str(), edges)
}

proof fn lemma_item_names(
    items: Seq<Seq<char>>,
    ids: Map<Seq<char>, Seq<char>>,
    n: int,
    name: Seq<char>,
)
    requires
        0 <= n <= items.len(),
    ensures
        item_names(items, ids, n).contains(name) <==> exists|k: int|
            0 <= k < n && item_name(#[trigger] items[k], ids) == Some(name),
    decreases n,
{
    if n > 0 {
        lemma_item_names(items, ids, n - 1, name);
        let before = item_names(items, ids, n - 1);
        let all = item_names(items, ids, n);
        if before.contains(name) {
            let k = choose|k: int| 0 <= k < before.len() && before[k] == name;
            assert(all[k] == name);
            let j = choose|j: int|
                0 <= j < n - 1 && item_name(#[trigger] items[j], ids) == Some(name);
            assert(item_name(items[j], ids) == Some(name));
        }
        if item_name(items[n - 1], ids) is Some {
            assert(all[before.len() as int] == item_name(items[n - 1], ids)->0);
        }
        if all.contains(name) && !before.contains(name) {
            let k = choose|k: int| 0 <= k < all.len() && all[k] == name;
            if k < before.len() {
                assert(before[k] == name);
            }
            assert(item_name(items[n - 1], ids) == Some(name));
        }
    }
}

/// A subsystem refers to an object exactly when one of its items is the full name of the
/// object or an identifier that the map resolves to it. An unknown identifier is no
/// reference.
pub proof fn law_subsystem_refers(
    name: Seq<char>,
    items: Seq<Seq<char>>,
    ids: Map<Seq<char>, Seq<char>>,
    to: Seq<char>,
)
    ensures
        (exists|k: int|
            0 <= k < subsystem_rows(name, items, ids).len() && (#[trigger] subsystem_rows(
                name,
                items,
                ids,
            )[k]).to_object == to) <==> (exists|k: int|
            0 <= k < items.len() && item_name(#[trigger] items[k], ids) == Some(to)),
{
    let n = items.len() as int;
    lemma_item_names(items, ids, n, to);
    let names = item_names(items, ids, n);
    let all = subsystem_rows(name, items, ids);
    assert forall|k: int| 0 <= k < all.len() implies (#[trigger] all[k]).to_object == names[k] by {}
    if names.contains(to) {
        let k = choose|k: int| 0 <= k < names.len() && names[k] == to;
        assert(all[k].to_object == to);
    }
    if exists|k: int| 0 <= k < all.len() && (#[trigger] all[k]).to_object == to {
        let k = choose|k: int| 0 <= k < all.len() && (#[trigger] all[k]).to_object == to;
        assert(names[k] == to);
        assert(names.contains(to));
    }
}

/// Every object of a content has one row, in the order of the content, and there are no
/// other rows.
pub proof fn law_content_rows(from: Seq<char>, items: Seq<Seq<char>>, kind: Seq<char>)
    ensures
        content_rows(from, items, kind).len() == items.len(),
        forall|k: int|
            0 <= k < items.len() ==> #[trigger] content_rows(from, items, kind)[k] == (RowModel {
                from_object: from,
                from_path: Seq::empty(),
                to_object: items[k],
                link_kind: kind,
                is_composite: false,
                is_universal: false,
            }),
{
}

/// Every type that a defined type stands for has one row, in their order. The rows are
/// marked as composite exactly when there are several types, and as universal exactly
/// where the type is.
pub proof fn law_defined_type_rows(name: Seq<char>, v: Seq<(Seq<char>, bool)>)
    ensures
        defined_type_rows(name, v).len() == v.len(),
        forall|k: int|
            0 <= k < v.len() ==> #[trigger] defined_type_rows(name, v)[k] == (RowModel {
                from_object: "DefinedType"@ + "."@ + name,
                from_path: Seq::empty(),
                to_object: v[k].0,
                link_kind: "defined_type_content"@,
                is_composite: v.len() >= 2,
                is_universal: v[k].1,
            }),
{
}

/// A functional option has a row for the place of its value if that is known, and behind it
/// one row for each object of its content.
pub proof fn law_option_rows(
    name: Seq<char>,
    place: Option<(Seq<char>, Seq<char>)>,
    items: Seq<Seq<char>>,
)
    ensures
        ({
            let all = option_rows(name, place, items);
            let from = "FunctionalOption"@ + "."@ + name;
            let first: int = if place is Some {
                1
            } else {
                0
            };
            &&& all.len() == first + items.len()
            &&& place matches Some((object, path)) ==> all[0] == (RowModel {
                from_object: from,
                from_path: path,
                to_object: object,
                link_kind: "functional_option_location"@,
                is_composite: false,
                is_universal: false,
            })
            &&& forall|k: int|
                0 <= k < items.len() ==> #[trigger] all[first + k] == (RowModel {
                    from_object: from,
                    from_path: Seq::empty(),
                    to_object: items[k],
                    link_kind: "functional_option_content"@,
                    is_composite: false,
                    is_universal: false,
                })
        }),
{
}

/// Every edge has one row, in their order: it starts at the object, its path is that of the
/// edge behind the prefix, and everything else is as the edge has it.
pub proof fn law_edge_rows(from: Seq<char>, prefix: Seq<char>, edges: Seq<EdgeModel>)
    ensures
        edge_rows(from, prefix, edges).len() == edges.len(),
        forall|k: int|
            0 <= k < edges.len() ==> #[trigger] edge_rows(from, prefix, edges)[k] == (RowModel {
                from_object: from,
                from_path: prefix + edges[k].from_path,
                to_object: edges[k].to_object,
                link_kind: edges[k].link_kind,
                is_composite: edges[k].is_composite,
                is_universal: edges[k].is_universal,
            }),
{
}

/// The paths of the edges of a form begin with a word for a form and its name, a point
/// behind each.
pub proof fn law_form_paths(from: Seq<char>, form: Seq<char>, e: EdgeModel)
    ensures
        edge_rows(from, form_prefix(form), seq![e])[0].from_path == "Form."@ + form + "."@
            + e.from_path,
{
}

/// An item of a subsystem with a point in it is a full name and stays as it is; one without
/// is an identifier and stands for what the map knows of it.
pub proof fn law_item_name(item: Seq<char>, ids: Map<Seq<char>, Seq<char>>)
    ensures
        item.contains('.') ==> item_name(item, ids) == Some(item),
        !item.contains('.') && ids.contains_key(item) ==> item_name(item, ids) == Some(ids[item]),
        !item.contains('.') && !ids.contains_key(item) ==> item_name(item, ids) is None,
{
}

/// The rows of a subsystem stand in the order of its items, one for each item that is
/// known: adding an item adds its row at the end or, where it is not known, nothing.
pub proof fn law_subsystem_rows(
    name: Seq<char>,
    items: Seq<Seq<char>>,
    item: Seq<char>,
    ids: Map<Seq<char>, Seq<char>>,
)
    ensures
        subsystem_rows(name, Seq::empty(), ids).len() == 0,
        subsystem_rows(name, items.push(item), ids) == if item.contains('.') || ids.contains_key(
            item,
        ) {
            subsystem_rows(name, items, ids).push(
                RowModel {
                    from_object: "Subsystem"@ + "."@ + name,
                    from_path: Seq::empty(),
                    to_object: if item.contains('.') {
                        item
                    } else {
                        ids[item]
                    },
                    link_kind: "subsystem_content"@,
                    is_composite: false,
                    is_universal: false,
                },
            )
        } else {
            subsystem_rows(name, items, ids)
        },
{
    let n = items.len() as int;
    lemma_item_names_prefix(items, item, ids, n);
    let a = item_names(items, ids, n);
    let b = item_names(items.push(item), ids, n + 1);
    assert(subsystem_rows(name, items.push(item), ids) =~= if item.contains('.')
        || ids.contains_key(item) {
        subsystem_rows(name, items, ids).push(
            content_row(full_name("Subsystem"@, name), item_name(item, ids)->0, "subsystem_content"@),
        )
    } else {
        subsystem_rows(name, items, ids)
    });
}

proof fn lemma_item_names_prefix(
    items: Seq<Seq<char>>,
    item: Seq<char>,
    ids: Map<Seq<char>, Seq<char>>,
    n: int,
)
    requires
        0 <= n <= items.len(),
    ensures
        item_names(items.push(item), ids, n) == item_names(items, ids, n),
    decreases n,
{
    if n > 0 {
        lemma_item_names_prefix(items, item, ids, n - 1);
        assert(items.push(item)[n - 1] == items[n - 1]);
    }
}

} // verus!
