//! Rows of references between the objects of whole configurations: contents of
//! subsystems, exchange plans, defined types and functional options.

use vstd::prelude::*;

use super::links::{
    content_rows, defined_type_links, defined_type_rows, exchange_plan_links,
    functional_option_links, item_name, item_names, law_content_rows, law_defined_type_rows,
    law_item_name, law_option_rows, law_subsystem_rows, location, needs_id_map, option_rows, rows,
    subsystem_links, subsystem_rows, targets, LinkRow, RowModel,
};
use super::names::NameMap;
use super::paths::full_name;
use crate::text::texts;

verus! {

/// A functional option: its name, where its value is kept, and its content.
pub struct FunctionalOption {
    pub name: String,
    /// The object and the place in it.
    pub location: Option<(String, String)>,
    pub content: Vec<String>,
}

/// What was read of one area of a dump, the base configuration or an extension.
pub struct AreaRefs {
    /// Names of subsystems with their contents.
    pub subsystems: Vec<(String, Vec<String>)>,
    /// Names of exchange plans with their contents.
    pub exchange_plans: Vec<(String, Vec<String>)>,
    /// Names of defined types with the types that they stand for; the mark tells a
    /// universal one.
    pub defined_types: Vec<(String, Vec<(String, bool)>)>,
    pub functional_options: Vec<FunctionalOption>,
}

/// Model of [`AreaRefs`].
#[verifier::ext_equal]
pub struct AreaModel {
    pub subsystems: Seq<(Seq<char>, Seq<Seq<char>>)>,
    pub exchange_plans: Seq<(Seq<char>, Seq<Seq<char>>)>,
    pub defined_types: Seq<(Seq<char>, Seq<(Seq<char>, bool)>)>,
    pub functional_options: Seq<(Seq<char>, Option<(Seq<char>, Seq<char>)>, Seq<Seq<char>>)>,
}

/// Names with contents.
pub open spec fn contents(v: Seq<(String, Vec<String>)>) -> Seq<(Seq<char>, Seq<Seq<char>>)> {
    v.map_values(|c: (String, Vec<String>)| (c.0@, texts(c.1@)))
}

/// Names with types.
pub open spec fn typed(v: Seq<(String, Vec<(String, bool)>)>) -> Seq<
    (Seq<char>, Seq<(Seq<char>, bool)>),
> {
    v.map_values(|c: (String, Vec<(String, bool)>)| (c.0@, targets(c.1@)))
}

/// Models of functional options.
pub open spec fn options(v: Seq<FunctionalOption>) -> Seq<
    (Seq<char>, Option<(Seq<char>, Seq<char>)>, Seq<Seq<char>>),
> {
    v.map_values(|o: FunctionalOption| (o.name@, location(o.location), texts(o.content@)))
}

impl View for AreaRefs {
    type V = AreaModel;

    open spec fn view(&self) -> AreaModel {
        AreaModel {
            subsystems: contents(self.subsystems@),
            exchange_plans: contents(self.exchange_plans@),
            defined_types: typed(self.defined_types@),
            functional_options: options(self.functional_options@),
        }
    }
}

/// Models of areas.
pub open spec fn areas(v: Seq<AreaRefs>) -> Seq<AreaModel> {
    v.map_values(|a: AreaRefs| a@)
}

/// Rows of the first `n` subsystems.
pub open spec fn subsystems_rows(
    list: Seq<(Seq<char>, Seq<Seq<char>>)>,
    ids: Map<Seq<char>, Seq<char>>,
    n: int,
) -> Seq<RowModel>
    decreases n,
{
    if n <= 0 {
        Seq::empty()
    } else {
        subsystems_rows(list, ids, n - 1) + subsystem_rows(list[n - 1].0, list[n - 1].1, ids)
    }
}

/// Rows of the first `n` exchange plans.
pub open spec fn plans_rows(list: Seq<(Seq<char>, Seq<Seq<char>>)>, n: int) -> Seq<RowModel>
    decreases n,
{
    if n <= 0 {
        Seq::empty()
    } else {
        plans_rows(list, n - 1) + content_rows(
            full_name("ExchangePlan"@, list[n - 1].0),
            list[n - 1].1,
            "exchange_plan_content"@,
        )
    }
}

/// Rows of the first `n` defined types.
pub open spec fn types_rows(list: Seq<(Seq<char>, Seq<(Seq<char>, bool)>)>, n: int) -> Seq<RowModel>
    decreases n,
{
    if n <= 0 {
        Seq::empty()
    } else {
        types_rows(list, n - 1) + defined_type_rows(list[n - 1].0, list[n - 1].1)
    }
}

/// Rows of the first `n` functional options.
pub open spec fn options_rows(
    list: Seq<(Seq<char>, Option<(Seq<char>, Seq<char>)>, Seq<Seq<char>>)>,
    n: int,
) -> Seq<RowModel>
    decreases n,
{
    if n <= 0 {
        Seq::empty()
    } else {
        options_rows(list, n - 1) + option_rows(list[n - 1].0, list[n - 1].1, list[n - 1].2)
    }
}

/// Rows of an area: subsystems, exchange plans, defined types, functional options.
pub open spec fn area_rows(a: AreaModel, ids: Map<Seq<char>, Seq<char>>) -> Seq<RowModel> {
    subsystems_rows(a.subsystems, ids, a.subsystems.len() as int) + plans_rows(
        a.exchange_plans,
        a.exchange_plans.len() as int,
    ) + types_rows(a.defined_types, a.defined_types.len() as int) + options_rows(
        a.functional_options,
        a.functional_options.len() as int,
    )
}

/// Rows of the first `n` areas.
pub open spec fn config_rows(
    all: Seq<AreaModel>,
    ids: Map<Seq<char>, Seq<char>>,
    n: int,
) -> Seq<RowModel>
    decreases n,
{
    if n <= 0 {
        Seq::empty()
    } else {
        config_rows(all, ids, n - 1) + area_rows(all[n - 1], ids)
    }
}

/// Whether the content of a subsystem holds full names only.
pub open spec fn full_names_only(items: Seq<Seq<char>>) -> bool {
    forall|k: int| 0 <= k < items.len() ==> (#[trigger] items[k]).contains('.')
}

/// Whether the subsystems of an area hold full names only.
pub open spec fn area_is_plain(a: AreaModel) -> bool {
    forall|k: int| 0 <= k < a.subsystems.len() ==> full_names_only((#[trigger] a.subsystems[k]).1)
}

/// Append rows to rows.
fn append_rows(out: &mut Vec<LinkRow>, more: Vec<LinkRow>)
    ensures
        rows(final(out)@) == rows(old(out)@) + rows(more@),
{
    let ghost before = rows(out@);
    let ghost tail = rows(more@);
    let mut list = more;
    out.append(&mut list);
    assert(rows(out@) =~= before + tail);
}

/// Whether any subsystem holds an identifier in place of a full name, so that the map of
/// identifiers is needed.
pub fn needs_ids(list: &Vec<AreaRefs>) -> (r: bool)
    ensures
        r == exists|a: int| 0 <= a < list@.len() && !area_is_plain((#[trigger] list@[a])@),
{
    let n: usize = list.len();
    let mut i: usize = 0;
    while i < n
        invariant
            i <= n,
            n == list@.len(),
            forall|a: int| 0 <= a < i ==> area_is_plain((#[trigger] list@[a])@),
        decreases n - i,
    {
        let ghost model = list@[i as int]@;
        let subsystems = &list[i].subsystems;
        let m: usize = subsystems.len();
        let mut j: usize = 0;
        while j < m
            invariant
                j <= m,
                m == subsystems@.len(),
                i < n,
                n == list@.len(),
                model == list@[i as int]@,
                model.subsystems == contents(subsystems@),
                forall|k: int|
                    0 <= k < j ==> full_names_only((#[trigger] model.subsystems[k]).1),
            decreases m - j,
        {
            let items = &subsystems[j].1;
            assert(model.subsystems[j as int].1 == texts(items@));
            if needs_id_map(items) {
                proof {
                    let k = choose|k: int|
                        0 <= k < items@.len() && !(#[trigger] items@[k]@.contains('.'));
                    assert(!texts(items@)[k].contains('.'));
                    assert(!full_names_only(model.subsystems[j as int].1));
                    assert(!area_is_plain(list@[i as int]@));
                }
                return true;
            }
            assert forall|k: int| 0 <= k < texts(items@).len() implies (
            #[trigger] texts(items@)[k]).contains('.') by {
                assert(items@[k]@.contains('.'));
            }
            j = j + 1;
        }
        i = i + 1;
    }
    false
}

/// Rows of references between the objects of all areas of a dump. `ids` resolves the
/// identifiers that stand for borrowed objects in the subsystems of extensions.
pub fn config_link_rows(list: &Vec<AreaRefs>, ids: &NameMap) -> (r: Vec<LinkRow>)
    ensures
        rows(r@) == config_rows(areas(list@), ids@, list@.len() as int),
{
    let ghost all = areas(list@);
    let mut out: Vec<LinkRow> = Vec::new();
    assert(rows(out@) =~= Seq::empty());
    let n: usize = list.len();
    let mut i: usize = 0;
    while i < n
        invariant
            i <= n,
            n == list@.len(),
            all == areas(list@),
            rows(out@) == config_rows(all, ids@, i as int),
        decreases n - i,
    {
        assert(all[i as int] == list@[i as int]@);
        append_rows(&mut out, area_link_rows(&list[i], ids));
        i = i + 1;
    }
    out
}

/// Rows of one area.
fn area_link_rows(area: &AreaRefs, ids: &NameMap) -> (r: Vec<LinkRow>)
    ensures
        rows(r@) == area_rows(area@, ids@),
{
    let mut out: Vec<LinkRow> = Vec::new();
    let ghost none = Seq::<RowModel>::empty();
    assert(rows(out@) =~= none);
    let n: usize = area.subsystems.len();
    let mut i: usize = 0;
    while i < n
        invariant
            i <= n,
            n == area.subsystems@.len(),
            rows(out@) == subsystems_rows(area@.subsystems, ids@, i as int),
        decreases n - i,
    {
        let s = &area.subsystems[i];
        assert(area@.subsystems[i as int] == (s.0@, texts(s.1@)));
        append_rows(&mut out, subsystem_links(s.0.as_str(), &s.1, ids));
        i = i + 1;
    }
    let ghost done = rows(out@);
    assert(done + none == done);
    let n: usize = area.exchange_plans.len();
    let mut i: usize = 0;
    while i < n
        invariant
            i <= n,
            n == area.exchange_plans@.len(),
            rows(out@) == done + plans_rows(area@.exchange_plans, i as int),
        decreases n - i,
    {
        let p = &area.exchange_plans[i];
        assert(area@.exchange_plans[i as int] == (p.0@, texts(p.1@)));
        append_rows(&mut out, exchange_plan_links(p.0.as_str(), &p.1));
        assert(rows(out@) =~= done + plans_rows(area@.exchange_plans, i + 1));
        i = i + 1;
    }
    let ghost done = rows(out@);
    assert(done + none == done);
    let n: usize = area.defined_types.len();
    let mut i: usize = 0;
    while i < n
        invariant
            i <= n,
            n == area.defined_types@.len(),
            rows(out@) == done + types_rows(area@.defined_types, i as int),
        decreases n - i,
    {
        let t = &area.defined_types[i];
        assert(area@.defined_types[i as int] == (t.0@, targets(t.1@)));
        append_rows(&mut out, defined_type_links(t.0.as_str(), &t.1));
        assert(rows(out@) =~= done + types_rows(area@.defined_types, i + 1));
        i = i + 1;
    }
    let ghost done = rows(out@);
    assert(done + none == done);
    let n: usize = area.functional_options.len();
    let mut i: usize = 0;
    while i < n
        invariant
            i <= n,
            n == area.functional_options@.len(),
            rows(out@) == done + options_rows(area@.functional_options, i as int),
        decreases n - i,
    {
        let o = &area.functional_options[i];
        assert(area@.functional_options[i as int] == (
            o.name@,
            location(o.location),
            texts(o.content@),
        ));
        append_rows(
            &mut out,
            functional_option_links(o.name.as_str(), &o.location, &o.content),
        );
        assert(rows(out@) =~= done + options_rows(area@.functional_options, i + 1));
        i = i + 1;
    }
    out
}

proof fn lemma_full_names(
    items: Seq<Seq<char>>,
    ids: Map<Seq<char>, Seq<char>>,
    n: int,
)
    requires
        0 <= n <= items.len(),
        full_names_only(items),
    ensures
        item_names(items, ids, n) == items.take(n),
    decreases n,
{
    if n > 0 {
        lemma_full_names(items, ids, n - 1);
        assert(items[n - 1].contains('.'));
        assert(item_name(items[n - 1], ids) == Some(items[n - 1]));
        assert(items.take(n) =~= items.take(n - 1).push(items[n - 1]));
    } else {
        assert(items.take(0) =~= Seq::empty());
    }
}

proof fn lemma_plain_subsystems(
    a: AreaModel,
    x: Map<Seq<char>, Seq<char>>,
    y: Map<Seq<char>, Seq<char>>,
    n: int,
)
    requires
        0 <= n <= a.subsystems.len(),
        area_is_plain(a),
    ensures
        subsystems_rows(a.subsystems, x, n) == subsystems_rows(a.subsystems, y, n),
    decreases n,
{
    if n > 0 {
        lemma_plain_subsystems(a, x, y, n - 1);
        let items = a.subsystems[n - 1].1;
        assert(full_names_only(items));
        lemma_full_names(items, x, items.len() as int);
        lemma_full_names(items, y, items.len() as int);
    }
}

/// The map of identifiers matters only where a subsystem holds an identifier: without
/// one any map, the empty one too, gives the same rows.
pub proof fn law_ids_matter_only_when_needed(
    all: Seq<AreaModel>,
    x: Map<Seq<char>, Seq<char>>,
    y: Map<Seq<char>, Seq<char>>,
    n: int,
)
    requires
        0 <= n <= all.len(),
        forall|a: int| 0 <= a < all.len() ==> area_is_plain(#[trigger] all[a]),
    ensures
        config_rows(all, x, n) == config_rows(all, y, n),
    decreases n,
{
    if n > 0 {
        law_ids_matter_only_when_needed(all, x, y, n - 1);
        let a = all[n - 1];
        assert(area_is_plain(a));
        lemma_plain_subsystems(a, x, y, a.subsystems.len() as int);
    }
}

/// Whether a kind of reference is one of those that the rows of configurations have.
pub open spec fn is_config_kind(kind: Seq<char>) -> bool {
    ||| kind == "subsystem_content"@
    ||| kind == "exchange_plan_content"@
    ||| kind == "defined_type_content"@
    ||| kind == "functional_option_location"@
    ||| kind == "functional_option_content"@
}

/// Whether all rows have such a kind.
pub open spec fn config_kinds_only(v: Seq<RowModel>) -> bool {
    forall|k: int| 0 <= k < v.len() ==> is_config_kind((#[trigger] v[k]).link_kind)
}

proof fn lemma_kinds_concat(a: Seq<RowModel>, b: Seq<RowModel>)
    requires
        config_kinds_only(a),
        config_kinds_only(b),
    ensures
        config_kinds_only(a + b),
{
    assert forall|k: int| 0 <= k < (a + b).len() implies is_config_kind(
        (#[trigger] (a + b)[k]).link_kind,
    ) by {
        if k < a.len() {
            assert((a + b)[k] == a[k]);
        } else {
            assert((a + b)[k] == b[k - a.len()]);
        }
    }
}

proof fn lemma_subsystems_kinds(
    list: Seq<(Seq<char>, Seq<Seq<char>>)>,
    ids: Map<Seq<char>, Seq<char>>,
    n: int,
)
    ensures
        config_kinds_only(subsystems_rows(list, ids, n)),
    decreases n,
{
    if n > 0 {
        lemma_subsystems_kinds(list, ids, n - 1);
        lemma_kinds_concat(
            subsystems_rows(list, ids, n - 1),
            subsystem_rows(list[n - 1].0, list[n - 1].1, ids),
        );
    }
}

proof fn lemma_plans_kinds(list: Seq<(Seq<char>, Seq<Seq<char>>)>, n: int)
    ensures
        config_kinds_only(plans_rows(list, n)),
    decreases n,
{
    if n > 0 {
        lemma_plans_kinds(list, n - 1);
        lemma_kinds_concat(
            plans_rows(list, n - 1),
            content_rows(
                full_name("ExchangePlan"@, list[n - 1].0),
                list[n - 1].1,
                "exchange_plan_content"@,
            ),
        );
    }
}

proof fn lemma_types_kinds(list: Seq<(Seq<char>, Seq<(Seq<char>, bool)>)>, n: int)
    ensures
        config_kinds_only(types_rows(list, n)),
    decreases n,
{
    if n > 0 {
        lemma_types_kinds(list, n - 1);
        lemma_kinds_concat(
            types_rows(list, n - 1),
            defined_type_rows(list[n - 1].0, list[n - 1].1),
        );
    }
}

proof fn lemma_options_kinds(
    list: Seq<(Seq<char>, Option<(Seq<char>, Seq<char>)>, Seq<Seq<char>>)>,
    n: int,
)
    ensures
        config_kinds_only(options_rows(list, n)),
    decreases n,
{
    if n > 0 {
        lemma_options_kinds(list, n - 1);
        let (name, place, items) = list[n - 1];
        let from = full_name("FunctionalOption"@, name);
        assert(config_kinds_only(content_rows(from, items, "functional_option_content"@)));
        assert(config_kinds_only(option_rows(name, place, items)));
        lemma_kinds_concat(options_rows(list, n - 1), option_rows(name, place, items));
    }
}

/// Every row of the configurations has one of the kinds that are theirs.
pub proof fn law_config_rows_have_own_kinds(
    all: Seq<AreaModel>,
    ids: Map<Seq<char>, Seq<char>>,
    n: int,
)
    requires
        0 <= n <= all.len(),
    ensures
        config_kinds_only(config_rows(all, ids, n)),
    decreases n,
{
    if n > 0 {
        law_config_rows_have_own_kinds(all, ids, n - 1);
        let a = all[n - 1];
        let subsystems = subsystems_rows(a.subsystems, ids, a.subsystems.len() as int);
        let plans = plans_rows(a.exchange_plans, a.exchange_plans.len() as int);
        let types = types_rows(a.defined_types, a.defined_types.len() as int);
        let options = options_rows(a.functional_options, a.functional_options.len() as int);
        lemma_subsystems_kinds(a.subsystems, ids, a.subsystems.len() as int);
        lemma_plans_kinds(a.exchange_plans, a.exchange_plans.len() as int);
        lemma_types_kinds(a.defined_types, a.defined_types.len() as int);
        lemma_options_kinds(a.functional_options, a.functional_options.len() as int);
        lemma_kinds_concat(subsystems, plans);
        lemma_kinds_concat(subsystems + plans, types);
        lemma_kinds_concat(subsystems + plans + types, options);
        lemma_kinds_concat(config_rows(all, ids, n - 1), area_rows(a, ids));
    }
}

/// Whether a row is that of an object in the content of another.
pub open spec fn is_content_row(
    r: RowModel,
    from: Seq<char>,
    to: Seq<char>,
    kind: Seq<char>,
) -> bool {
    r == (RowModel {
        from_object: from,
        from_path: Seq::empty(),
        to_object: to,
        link_kind: kind,
        is_composite: false,
        is_universal: false,
    })
}

/// Whether a row is that of an item of a subsystem of an area: a full name as it is, an
/// identifier as the map resolves it.
pub open spec fn comes_of_subsystem(
    a: AreaModel,
    ids: Map<Seq<char>, Seq<char>>,
    r: RowModel,
    p: int,
    k: int,
) -> bool {
    &&& 0 <= p < a.subsystems.len()
    &&& 0 <= k < a.subsystems[p].1.len()
    &&& a.subsystems[p].1[k].contains('.') || ids.contains_key(a.subsystems[p].1[k])
    &&& is_content_row(
        r,
        "Subsystem"@ + "."@ + a.subsystems[p].0,
        if a.subsystems[p].1[k].contains('.') {
            a.subsystems[p].1[k]
        } else {
            ids[a.subsystems[p].1[k]]
        },
        "subsystem_content"@,
    )
}

/// Whether a row is that of an item of an exchange plan of an area.
pub open spec fn comes_of_plan(a: AreaModel, r: RowModel, p: int, k: int) -> bool {
    &&& 0 <= p < a.exchange_plans.len()
    &&& 0 <= k < a.exchange_plans[p].1.len()
    &&& is_content_row(
        r,
        "ExchangePlan"@ + "."@ + a.exchange_plans[p].0,
        a.exchange_plans[p].1[k],
        "exchange_plan_content"@,
    )
}

/// Whether a row is that of a type of a defined type of an area.
pub open spec fn comes_of_type(a: AreaModel, r: RowModel, p: int, k: int) -> bool {
    &&& 0 <= p < a.defined_types.len()
    &&& 0 <= k < a.defined_types[p].1.len()
    &&& r == (RowModel {
        from_object: "DefinedType"@ + "."@ + a.defined_types[p].0,
        from_path: Seq::empty(),
        to_object: a.defined_types[p].1[k].0,
        link_kind: "defined_type_content"@,
        is_composite: a.defined_types[p].1.len() >= 2,
        is_universal: a.defined_types[p].1[k].1,
    })
}

/// Whether a row is that of an object in the content of a functional option of an area.
pub open spec fn comes_of_option(a: AreaModel, r: RowModel, p: int, k: int) -> bool {
    &&& 0 <= p < a.functional_options.len()
    &&& 0 <= k < a.functional_options[p].2.len()
    &&& is_content_row(
        r,
        "FunctionalOption"@ + "."@ + a.functional_options[p].0,
        a.functional_options[p].2[k],
        "functional_option_content"@,
    )
}

/// Whether a row is that of the place where the value of a functional option is kept.
pub open spec fn comes_of_place(a: AreaModel, r: RowModel, p: int) -> bool {
    &&& 0 <= p < a.functional_options.len()
    &&& a.functional_options[p].1 matches Some((object, path)) && r == (RowModel {
        from_object: "FunctionalOption"@ + "."@ + a.functional_options[p].0,
        from_path: path,
        to_object: object,
        link_kind: "functional_option_location"@,
        is_composite: false,
        is_universal: false,
    })
}

/// Whether a row comes of something that was read of an area.
pub open spec fn comes_of_area(a: AreaModel, ids: Map<Seq<char>, Seq<char>>, r: RowModel) -> bool {
    ||| exists|p: int, k: int| comes_of_subsystem(a, ids, r, p, k)
    ||| exists|p: int, k: int| comes_of_plan(a, r, p, k)
    ||| exists|p: int, k: int| comes_of_type(a, r, p, k)
    ||| exists|p: int, k: int| comes_of_option(a, r, p, k)
    ||| exists|p: int| comes_of_place(a, r, p)
}

proof fn lemma_contains_concat(a: Seq<RowModel>, b: Seq<RowModel>, r: RowModel)
    ensures
        (a + b).contains(r) <==> a.contains(r) || b.contains(r),
{
    if a.contains(r) {
        let k = choose|k: int| 0 <= k < a.len() && a[k] == r;
        assert((a + b)[k] == r);
    }
    if b.contains(r) {
        let k = choose|k: int| 0 <= k < b.len() && b[k] == r;
        assert((a + b)[a.len() + k] == r);
    }
    if (a + b).contains(r) {
        let k = choose|k: int| 0 <= k < (a + b).len() && (a + b)[k] == r;
        if k < a.len() {
            assert(a[k] == r);
        } else {
            assert(b[k - a.len()] == r);
        }
    }
}

proof fn lemma_subsystem_row(
    name: Seq<char>,
    items: Seq<Seq<char>>,
    ids: Map<Seq<char>, Seq<char>>,
    r: RowModel,
)
    ensures
        subsystem_rows(name, items, ids).contains(r) <==> exists|k: int|
            0 <= k < items.len() && item_name(#[trigger] items[k], ids) is Some && is_content_row(
                r,
                "Subsystem"@ + "."@ + name,
                item_name(items[k], ids)->0,
                "subsystem_content"@,
            ),
    decreases items.len(),
{
    if items.len() > 0 {
        let rest = items.drop_last();
        let item = items.last();
        lemma_subsystem_row(name, rest, ids, r);
        law_subsystem_rows(name, rest, item, ids);
        assert(rest.push(item) =~= items);
        let before = subsystem_rows(name, rest, ids);
        let all = subsystem_rows(name, items, ids);
        if before.contains(r) {
            let k = choose|k: int| 0 <= k < before.len() && before[k] == r;
            assert(all[k] == r);
            let j = choose|j: int|
                0 <= j < rest.len() && item_name(#[trigger] rest[j], ids) is Some
                    && is_content_row(
                    r,
                    "Subsystem"@ + "."@ + name,
                    item_name(rest[j], ids)->0,
                    "subsystem_content"@,
                );
            assert(items[j] == rest[j]);
        } else {
            if all.contains(r) {
                let k = choose|k: int| 0 <= k < all.len() && all[k] == r;
                if k < before.len() {
                    assert(before[k] == r);
                }
                assert(items[items.len() - 1] == item);
            }
            if exists|k: int|
                0 <= k < items.len() && item_name(#[trigger] items[k], ids) is Some
                    && is_content_row(
                    r,
                    "Subsystem"@ + "."@ + name,
                    item_name(items[k], ids)->0,
                    "subsystem_content"@,
                ) {
                let j = choose|j: int|
                    0 <= j < items.len() && item_name(#[trigger] items[j], ids) is Some
                        && is_content_row(
                        r,
                        "Subsystem"@ + "."@ + name,
                        item_name(items[j], ids)->0,
                        "subsystem_content"@,
                    );
                if j < rest.len() {
                    assert(rest[j] == items[j]);
                    assert(false);
                }
                assert(all[before.len() as int] == r);
            }
        }
    } else {
        law_subsystem_rows(name, items, name, ids);
        assert(items =~= Seq::empty());
    }
}

proof fn lemma_subsystems_contain(
    a: AreaModel,
    ids: Map<Seq<char>, Seq<char>>,
    r: RowModel,
    n: int,
)
    requires
        0 <= n <= a.subsystems.len(),
    ensures
        subsystems_rows(a.subsystems, ids, n).contains(r) <==> exists|p: int, k: int|
            p < n && #[trigger] comes_of_subsystem(a, ids, r, p, k),
    decreases n,
{
    if n > 0 {
        lemma_subsystems_contain(a, ids, r, n - 1);
        let (name, items) = a.subsystems[n - 1];
        lemma_contains_concat(
            subsystems_rows(a.subsystems, ids, n - 1),
            subsystem_rows(name, items, ids),
            r,
        );
        lemma_subsystem_row(name, items, ids, r);
        if subsystem_rows(name, items, ids).contains(r) {
            let k = choose|k: int|
                0 <= k < items.len() && item_name(#[trigger] items[k], ids) is Some
                    && is_content_row(
                    r,
                    "Subsystem"@ + "."@ + name,
                    item_name(items[k], ids)->0,
                    "subsystem_content"@,
                );
            law_item_name(items[k], ids);
            assert(comes_of_subsystem(a, ids, r, n - 1, k));
        }
        if exists|p: int, k: int| p < n && #[trigger] comes_of_subsystem(a, ids, r, p, k) {
            let (p, k) = choose|p: int, k: int|
                p < n && #[trigger] comes_of_subsystem(a, ids, r, p, k);
            if p == n - 1 {
                law_item_name(items[k], ids);
            }
        }
    }
}

proof fn lemma_plans_contain(a: AreaModel, r: RowModel, n: int)
    requires
        0 <= n <= a.exchange_plans.len(),
    ensures
        plans_rows(a.exchange_plans, n).contains(r) <==> exists|p: int, k: int|
            p < n && #[trigger] comes_of_plan(a, r, p, k),
    decreases n,
{
    if n > 0 {
        lemma_plans_contain(a, r, n - 1);
        let (name, items) = a.exchange_plans[n - 1];
        let from = full_name("ExchangePlan"@, name);
        let more = content_rows(from, items, "exchange_plan_content"@);
        lemma_contains_concat(plans_rows(a.exchange_plans, n - 1), more, r);
        law_content_rows(from, items, "exchange_plan_content"@);
        if more.contains(r) {
            let k = choose|k: int| 0 <= k < more.len() && more[k] == r;
            assert(comes_of_plan(a, r, n - 1, k));
        }
        if exists|p: int, k: int| p < n && #[trigger] comes_of_plan(a, r, p, k) {
            let (p, k) = choose|p: int, k: int| p < n && #[trigger] comes_of_plan(a, r, p, k);
            if p == n - 1 {
                assert(more[k] == r);
            }
        }
    }
}

proof fn lemma_types_contain(a: AreaModel, r: RowModel, n: int)
    requires
        0 <= n <= a.defined_types.len(),
    ensures
        types_rows(a.defined_types, n).contains(r) <==> exists|p: int, k: int|
            p < n && #[trigger] comes_of_type(a, r, p, k),
    decreases n,
{
    if n > 0 {
        lemma_types_contain(a, r, n - 1);
        let (name, items) = a.defined_types[n - 1];
        let more = defined_type_rows(name, items);
        lemma_contains_concat(types_rows(a.defined_types, n - 1), more, r);
        law_defined_type_rows(name, items);
        if more.contains(r) {
            let k = choose|k: int| 0 <= k < more.len() && more[k] == r;
            assert(comes_of_type(a, r, n - 1, k));
        }
        if exists|p: int, k: int| p < n && #[trigger] comes_of_type(a, r, p, k) {
            let (p, k) = choose|p: int, k: int| p < n && #[trigger] comes_of_type(a, r, p, k);
            if p == n - 1 {
                assert(more[k] == r);
            }
        }
    }
}

proof fn lemma_options_contain(a: AreaModel, r: RowModel, n: int)
    requires
        0 <= n <= a.functional_options.len(),
    ensures
        options_rows(a.functional_options, n).contains(r) <==> (exists|p: int, k: int|
            p < n && #[trigger] comes_of_option(a, r, p, k)) || (exists|p: int|
            p < n && #[trigger] comes_of_place(a, r, p)),
    decreases n,
{
    if n > 0 {
        lemma_options_contain(a, r, n - 1);
        let (name, place, items) = a.functional_options[n - 1];
        let more = option_rows(name, place, items);
        lemma_contains_concat(options_rows(a.functional_options, n - 1), more, r);
        law_option_rows(name, place, items);
        let first: int = if place is Some {
            1
        } else {
            0
        };
        if more.contains(r) {
            let k = choose|k: int| 0 <= k < more.len() && more[k] == r;
            if k < first {
                assert(comes_of_place(a, r, n - 1));
            } else {
                assert(more[first + (k - first)] == r);
                assert(comes_of_option(a, r, n - 1, k - first));
            }
        }
        if exists|p: int, k: int| p < n && #[trigger] comes_of_option(a, r, p, k) {
            let (p, k) = choose|p: int, k: int| p < n && #[trigger] comes_of_option(a, r, p, k);
            if p == n - 1 {
                assert(more[first + k] == r);
            }
        }
        if exists|p: int| p < n && #[trigger] comes_of_place(a, r, p) {
            let p = choose|p: int| p < n && #[trigger] comes_of_place(a, r, p);
            if p == n - 1 {
                assert(more[0] == r);
            }
        }
    }
}

proof fn lemma_area_contains(a: AreaModel, ids: Map<Seq<char>, Seq<char>>, r: RowModel)
    ensures
        area_rows(a, ids).contains(r) <==> comes_of_area(a, ids, r),
{
    let subsystems = subsystems_rows(a.subsystems, ids, a.subsystems.len() as int);
    let plans = plans_rows(a.exchange_plans, a.exchange_plans.len() as int);
    let types = types_rows(a.defined_types, a.defined_types.len() as int);
    let options = options_rows(a.functional_options, a.functional_options.len() as int);
    lemma_subsystems_contain(a, ids, r, a.subsystems.len() as int);
    lemma_plans_contain(a, r, a.exchange_plans.len() as int);
    lemma_types_contain(a, r, a.defined_types.len() as int);
    lemma_options_contain(a, r, a.functional_options.len() as int);
    lemma_contains_concat(subsystems, plans, r);
    lemma_contains_concat(subsystems + plans, types, r);
    lemma_contains_concat(subsystems + plans + types, options, r);
    if exists|p: int, k: int| comes_of_subsystem(a, ids, r, p, k) {
        let (p, k) = choose|p: int, k: int| comes_of_subsystem(a, ids, r, p, k);
        assert(p < a.subsystems.len() && comes_of_subsystem(a, ids, r, p, k));
    }
    if exists|p: int, k: int| comes_of_plan(a, r, p, k) {
        let (p, k) = choose|p: int, k: int| comes_of_plan(a, r, p, k);
        assert(p < a.exchange_plans.len() && comes_of_plan(a, r, p, k));
    }
    if exists|p: int, k: int| comes_of_type(a, r, p, k) {
        let (p, k) = choose|p: int, k: int| comes_of_type(a, r, p, k);
        assert(p < a.defined_types.len() && comes_of_type(a, r, p, k));
    }
    if exists|p: int, k: int| comes_of_option(a, r, p, k) {
        let (p, k) = choose|p: int, k: int| comes_of_option(a, r, p, k);
        assert(p < a.functional_options.len() && comes_of_option(a, r, p, k));
    }
    if exists|p: int| comes_of_place(a, r, p) {
        let p = choose|p: int| comes_of_place(a, r, p);
        assert(p < a.functional_options.len() && comes_of_place(a, r, p));
    }
}

/// Everything that was read has its row and there are no other rows: every known item of
/// every subsystem, every item of every exchange plan, every type of every defined type,
/// the place and every object of the content of every functional option, of every area.
pub proof fn law_everything_has_its_row(
    all: Seq<AreaModel>,
    ids: Map<Seq<char>, Seq<char>>,
    r: RowModel,
    n: int,
)
    requires
        0 <= n <= all.len(),
    ensures
        config_rows(all, ids, n).contains(r) <==> exists|a: int|
            0 <= a < n && comes_of_area(#[trigger] all[a], ids, r),
    decreases n,
{
    if n > 0 {
        law_everything_has_its_row(all, ids, r, n - 1);
        lemma_contains_concat(config_rows(all, ids, n - 1), area_rows(all[n - 1], ids), r);
        lemma_area_contains(all[n - 1], ids, r);
        if config_rows(all, ids, n - 1).contains(r) {
            let a = choose|a: int| 0 <= a < n - 1 && comes_of_area(#[trigger] all[a], ids, r);
            assert(0 <= a < n && comes_of_area(all[a], ids, r));
        }
        if area_rows(all[n - 1], ids).contains(r) {
            assert(comes_of_area(all[n - 1], ids, r));
        }
    }
}

/// The rows of several areas are those of each area one behind the other: an area takes
/// nothing away from another.
pub proof fn law_areas_add_up(
    x: Seq<AreaModel>,
    y: Seq<AreaModel>,
    ids: Map<Seq<char>, Seq<char>>,
)
    ensures
        config_rows(x + y, ids, (x + y).len() as int) == config_rows(x, ids, x.len() as int)
            + config_rows(y, ids, y.len() as int),
    decreases y.len(),
{
    let all = x + y;
    if y.len() == 0 {
        assert(all =~= x);
        assert(config_rows(x, ids, x.len() as int) + Seq::<RowModel>::empty() =~= config_rows(
            x,
            ids,
            x.len() as int,
        ));
    } else {
        let rest = y.drop_last();
        law_areas_add_up(x, rest, ids);
        lemma_config_prefix(all, x + rest, ids, all.len() - 1);
        lemma_config_prefix(y, rest, ids, y.len() - 1);
        assert(all.last() == y.last());
        assert(config_rows(all, ids, all.len() as int) =~= config_rows(x, ids, x.len() as int)
            + config_rows(y, ids, y.len() as int));
    }
}

proof fn lemma_config_prefix(
    x: Seq<AreaModel>,
    y: Seq<AreaModel>,
    ids: Map<Seq<char>, Seq<char>>,
    n: int,
)
    requires
        0 <= n <= x.len(),
        n <= y.len(),
        forall|k: int| 0 <= k < n ==> #[trigger] x[k] == y[k],
    ensures
        config_rows(x, ids, n) == config_rows(y, ids, n),
    decreases n,
{
    if n > 0 {
        lemma_config_prefix(x, y, ids, n - 1);
        assert(x[n - 1] == y[n - 1]);
    }
}

/// No row is written twice: one more subsystem, exchange plan, defined type or functional
/// option makes the rows of an area longer by its own rows and no more.
pub proof fn law_rows_are_counted(
    a: AreaModel,
    ids: Map<Seq<char>, Seq<char>>,
    name: Seq<char>,
    items: Seq<Seq<char>>,
    types: Seq<(Seq<char>, bool)>,
    place: Option<(Seq<char>, Seq<char>)>,
)
    ensures
        area_rows(
            AreaModel {
                subsystems: Seq::empty(),
                exchange_plans: Seq::empty(),
                defined_types: Seq::empty(),
                functional_options: Seq::empty(),
            },
            ids,
        ).len() == 0,
        full_names_only(items) ==> area_rows(
            AreaModel { subsystems: a.subsystems.push((name, items)), ..a },
            ids,
        ).len() == area_rows(a, ids).len() + items.len(),
        area_rows(
            AreaModel { exchange_plans: a.exchange_plans.push((name, items)), ..a },
            ids,
        ).len() == area_rows(a, ids).len() + items.len(),
        area_rows(
            AreaModel { defined_types: a.defined_types.push((name, types)), ..a },
            ids,
        ).len() == area_rows(a, ids).len() + types.len(),
        area_rows(
            AreaModel { functional_options: a.functional_options.push((name, place, items)), ..a },
            ids,
        ).len() == area_rows(a, ids).len() + items.len() + if place is Some {
            1int
        } else {
            0int
        },
{
    let subsystems = a.subsystems.push((name, items));
    lemma_subsystems_prefix(subsystems, a.subsystems, ids, a.subsystems.len() as int);
    if full_names_only(items) {
        lemma_full_names(items, ids, items.len() as int);
        assert(subsystem_rows(name, items, ids).len() == items.len());
    }
    let plans = a.exchange_plans.push((name, items));
    lemma_plans_prefix(plans, a.exchange_plans, a.exchange_plans.len() as int);
    law_content_rows(full_name("ExchangePlan"@, name), items, "exchange_plan_content"@);
    let list = a.defined_types.push((name, types));
    lemma_types_prefix(list, a.defined_types, a.defined_types.len() as int);
    law_defined_type_rows(name, types);
    let options = a.functional_options.push((name, place, items));
    lemma_options_prefix(options, a.functional_options, a.functional_options.len() as int);
    law_option_rows(name, place, items);
}

proof fn lemma_subsystems_prefix(
    x: Seq<(Seq<char>, Seq<Seq<char>>)>,
    y: Seq<(Seq<char>, Seq<Seq<char>>)>,
    ids: Map<Seq<char>, Seq<char>>,
    n: int,
)
    requires
        0 <= n <= y.len(),
        y.is_prefix_of(x),
    ensures
        subsystems_rows(x, ids, n) == subsystems_rows(y, ids, n),
    decreases n,
{
    if n > 0 {
        lemma_subsystems_prefix(x, y, ids, n - 1);
    }
}

proof fn lemma_plans_prefix(
    x: Seq<(Seq<char>, Seq<Seq<char>>)>,
    y: Seq<(Seq<char>, Seq<Seq<char>>)>,
    n: int,
)
    requires
        0 <= n <= y.len(),
        y.is_prefix_of(x),
    ensures
        plans_rows(x, n) == plans_rows(y, n),
    decreases n,
{
    if n > 0 {
        lemma_plans_prefix(x, y, n - 1);
    }
}

proof fn lemma_types_prefix(
    x: Seq<(Seq<char>, Seq<(Seq<char>, bool)>)>,
    y: Seq<(Seq<char>, Seq<(Seq<char>, bool)>)>,
    n: int,
)
    requires
        0 <= n <= y.len(),
        y.is_prefix_of(x),
    ensures
        types_rows(x, n) == types_rows(y, n),
    decreases n,
{
    if n > 0 {
        lemma_types_prefix(x, y, n - 1);
    }
}

proof fn lemma_options_prefix(
    x: Seq<(Seq<char>, Option<(Seq<char>, Seq<char>)>, Seq<Seq<char>>)>,
    y: Seq<(Seq<char>, Option<(Seq<char>, Seq<char>)>, Seq<Seq<char>>)>,
    n: int,
)
    requires
        0 <= n <= y.len(),
        y.is_prefix_of(x),
    ensures
        options_rows(x, n) == options_rows(y, n),
    decreases n,
{
    if n > 0 {
        lemma_options_prefix(x, y, n - 1);
    }
}

/// An area has full names only exactly when every item of every subsystem holds a point.
pub proof fn law_when_ids_are_needed(a: AreaModel)
    ensures
        area_is_plain(a) <==> forall|p: int, k: int|
            0 <= p < a.subsystems.len() && 0 <= k < a.subsystems[p].1.len() ==> (
            #[trigger] a.subsystems[p].1[k]).contains('.'),
{
    if area_is_plain(a) {
        assert forall|p: int, k: int|
            0 <= p < a.subsystems.len() && 0 <= k < a.subsystems[p].1.len() implies (
        #[trigger] a.subsystems[p].1[k]).contains('.') by {
            assert(full_names_only(a.subsystems[p].1));
        }
    }
}

} // verus!
