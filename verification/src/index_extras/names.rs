//! Maps from text to text: full names by identifier, synonyms by full name.

use vstd::hash_map::StringHashMap;
use vstd::prelude::*;

use super::paths::{full_name, make_full_name};
use crate::xml::forms::maybe_text;

verus! {

/// A map from text to text.
pub struct NameMap {
    map: StringHashMap<String>,
}

impl View for NameMap {
    type V = Map<Seq<char>, Seq<char>>;

    closed spec fn view(&self) -> Map<Seq<char>, Seq<char>> {
        self.map@.map_values(|s: String| s@)
    }
}

impl NameMap {
    /// Map without entries.
    pub fn new() -> (r: NameMap)
        ensures
            r@ == Map::<Seq<char>, Seq<char>>::empty(),
    {
        let r = NameMap { map: StringHashMap::new() };
        assert(r@ =~= Map::empty());
        r
    }

    /// Set an entry; an earlier one of the same key is replaced.
    pub fn put(&mut self, key: String, value: String)
        ensures
            final(self)@ == old(self)@.insert(key@, value@),
    {
        let ghost before = self@;
        let ghost k = key@;
        let ghost v = value@;
        self.map.insert(key, value);
        assert(self@ =~= before.insert(k, v));
    }

    /// Set an entry unless there is one of the same key.
    pub fn put_first(&mut self, key: String, value: String)
        ensures
            final(self)@ == if old(self)@.contains_key(key@) {
                old(self)@
            } else {
                old(self)@.insert(key@, value@)
            },
    {
        if self.get(key.as_str()).is_none() {
            self.put(key, value);
        }
    }

    /// Value of a key.
    pub fn get(&self, key: &str) -> (r: Option<String>)
        ensures
            maybe_text(r) == if self@.contains_key(key@) {
                Some(self@[key@])
            } else {
                None
            },
    {
        match self.map.get(key) {
            Some(value) => Some(value.clone()),
            None => None,
        }
    }
}

/// Entries as pairs of texts.
pub open spec fn pairs(v: Seq<(String, String)>) -> Seq<(Seq<char>, Seq<char>)> {
    v.map_values(|e: (String, String)| (e.0@, e.1@))
}

/// A map with the first `n` of a list of entries set one after the other.
pub open spec fn with_entries(
    m: Map<Seq<char>, Seq<char>>,
    entries: Seq<(Seq<char>, Seq<char>)>,
    n: int,
) -> Map<Seq<char>, Seq<char>>
    decreases n,
{
    if n <= 0 {
        m
    } else {
        with_entries(m, entries, n - 1).insert(entries[n - 1].0, entries[n - 1].1)
    }
}

/// Entries of the areas of a dump; an area whose inventory cannot be read has none.
pub open spec fn area_entries(areas: Seq<Option<Vec<(String, String)>>>) -> Seq<
    Seq<(Seq<char>, Seq<char>)>,
> {
    areas.map_values(
        |a: Option<Vec<(String, String)>>|
            match a {
                Some(v) => pairs(v@),
                None => Seq::empty(),
            },
    )
}

/// Names by identifier over the first `n` areas; a later area replaces an earlier one.
pub open spec fn id_map(areas: Seq<Seq<(Seq<char>, Seq<char>)>>, n: int) -> Map<
    Seq<char>,
    Seq<char>,
>
    decreases n,
{
    if n <= 0 {
        Map::empty()
    } else {
        with_entries(id_map(areas, n - 1), areas[n - 1], areas[n - 1].len() as int)
    }
}

/// Full names of objects by their identifiers, over the inventories of all areas of a
/// dump: an object borrowed by an extension is named by its identifier there and lives
/// in the base configuration. An area whose inventory cannot be read is left out.
pub fn build_id_map(areas: &Vec<Option<Vec<(String, String)>>>) -> (r: NameMap)
    ensures
        r@ == id_map(area_entries(areas@), areas@.len() as int),
{
    let ghost all = area_entries(areas@);
    let mut out = NameMap::new();
    let n: usize = areas.len();
    let mut i: usize = 0;
    while i < n
        invariant
            i <= n,
            n == areas@.len(),
            all == area_entries(areas@),
            out@ == id_map(all, i as int),
        decreases n - i,
    {
        let ghost before = out@;
        match &areas[i] {
            Some(entries) => {
                assert(all[i as int] == pairs(entries@));
                put_all(&mut out, entries);
            },
            None => {
                assert(all[i as int] == Seq::<(Seq<char>, Seq<char>)>::empty());
            },
        }
        assert(out@ == with_entries(before, all[i as int], all[i as int].len() as int));
        i = i + 1;
    }
    out
}

/// Set entries one after the other.
fn put_all(out: &mut NameMap, entries: &Vec<(String, String)>)
    ensures
        final(out)@ == with_entries(old(out)@, pairs(entries@), entries@.len() as int),
{
    let ghost start = out@;
    let ghost all = pairs(entries@);
    let n: usize = entries.len();
    let mut i: usize = 0;
    while i < n
        invariant
            i <= n,
            n == entries@.len(),
            all == pairs(entries@),
            out@ == with_entries(start, all, i as int),
        decreases n - i,
    {
        assert(all[i as int] == (entries@[i as int].0@, entries@[i as int].1@));
        out.put(entries[i].0.clone(), entries[i].1.clone());
        i = i + 1;
    }
}

/// Head of the description of an object: type, name, synonym.
pub struct ObjectHeader {
    pub kind: String,
    pub name: String,
    pub synonym: Option<String>,
}

/// Model of an [`ObjectHeader`].
#[verifier::ext_equal]
pub struct HeaderModel {
    pub kind: Seq<char>,
    pub name: Seq<char>,
    pub synonym: Option<Seq<char>>,
}

impl View for ObjectHeader {
    type V = HeaderModel;

    open spec fn view(&self) -> HeaderModel {
        HeaderModel { kind: self.kind@, name: self.name@, synonym: maybe_text(self.synonym) }
    }
}

/// Models of headers.
pub open spec fn headers(v: Seq<ObjectHeader>) -> Seq<HeaderModel> {
    v.map_values(|h: ObjectHeader| h@)
}

/// Synonyms with one more object: a synonym that is not empty counts unless the object
/// has one already.
pub open spec fn with_synonym(m: Map<Seq<char>, Seq<char>>, h: HeaderModel) -> Map<
    Seq<char>,
    Seq<char>,
> {
    match h.synonym {
        Some(s) => if s.len() > 0 && !m.contains_key(full_name(h.kind, h.name)) {
            m.insert(full_name(h.kind, h.name), s)
        } else {
            m
        },
        None => m,
    }
}

/// Synonyms of the first `n` objects.
pub open spec fn synonyms(all: Seq<HeaderModel>, n: int) -> Map<Seq<char>, Seq<char>>
    decreases n,
{
    if n <= 0 {
        Map::empty()
    } else {
        with_synonym(synonyms(all, n - 1), all[n - 1])
    }
}

/// Synonyms of objects by full name. The descriptions come base configuration first, so
/// the synonym of the base is not replaced by that of an extension.
pub fn collect_synonyms(list: &Vec<ObjectHeader>) -> (r: NameMap)
    ensures
        r@ == synonyms(headers(list@), list@.len() as int),
{
    let ghost all = headers(list@);
    let mut out = NameMap::new();
    let n: usize = list.len();
    let mut i: usize = 0;
    while i < n
        invariant
            i <= n,
            n == list@.len(),
            all == headers(list@),
            out@ == synonyms(all, i as int),
        decreases n - i,
    {
        assert(all[i as int] == list@[i as int]@);
        match &list[i].synonym {
            Some(s) => {
                if !s.is_empty() {
                    let key = make_full_name(list[i].kind.as_str(), list[i].name.as_str());
                    out.put_first(key, s.clone());
                }
            },
            None => {},
        }
        i = i + 1;
    }
    out
}

/// A synonym is that of the first description of the object that has one: later ones
/// change nothing.
pub proof fn law_first_synonym_wins(all: Seq<HeaderModel>, k: int, n: int, key: Seq<char>)
    requires
        0 <= k <= n <= all.len(),
        synonyms(all, k).contains_key(key),
    ensures
        synonyms(all, n).contains_key(key),
        synonyms(all, n)[key] == synonyms(all, k)[key],
    decreases n - k,
{
    if k < n {
        law_first_synonym_wins(all, k, n - 1, key);
    }
}

/// No object gets an empty synonym.
pub proof fn law_synonyms_not_empty(all: Seq<HeaderModel>, n: int, key: Seq<char>)
    requires
        0 <= n <= all.len(),
        synonyms(all, n).contains_key(key),
    ensures
        synonyms(all, n)[key].len() > 0,
    decreases n,
{
    if n > 0 {
        if synonyms(all, n - 1).contains_key(key) {
            law_synonyms_not_empty(all, n - 1, key);
        }
    }
}

proof fn lemma_entries_known(
    m: Map<Seq<char>, Seq<char>>,
    entries: Seq<(Seq<char>, Seq<char>)>,
    n: int,
    id: Seq<char>,
)
    requires
        0 <= n <= entries.len(),
    ensures
        with_entries(m, entries, n).contains_key(id) <==> m.contains_key(id) || exists|k: int|
            0 <= k < n && (#[trigger] entries[k]).0 == id,
    decreases n,
{
    if n > 0 {
        lemma_entries_known(m, entries, n - 1, id);
        if exists|k: int| 0 <= k < n - 1 && (#[trigger] entries[k]).0 == id {
            let k = choose|k: int| 0 <= k < n - 1 && (#[trigger] entries[k]).0 == id;
            assert(entries[k].0 == id);
        }
    }
}

/// Whether an inventory names an identifier.
pub open spec fn names_id(entries: Seq<(Seq<char>, Seq<char>)>, id: Seq<char>) -> bool {
    exists|k: int| 0 <= k < entries.len() && (#[trigger] entries[k]).0 == id
}

/// An identifier is known exactly when the inventory of some area names it: an object of
/// the base configuration is known in every extension.
pub proof fn law_identifiers_are_shared(
    areas: Seq<Seq<(Seq<char>, Seq<char>)>>,
    n: int,
    id: Seq<char>,
)
    requires
        0 <= n <= areas.len(),
    ensures
        id_map(areas, n).contains_key(id) <==> exists|a: int|
            0 <= a < n && names_id(#[trigger] areas[a], id),
    decreases n,
{
    if n > 0 {
        law_identifiers_are_shared(areas, n - 1, id);
        lemma_entries_known(
            id_map(areas, n - 1),
            areas[n - 1],
            areas[n - 1].len() as int,
            id,
        );
        if exists|a: int| 0 <= a < n - 1 && names_id(#[trigger] areas[a], id) {
            let a = choose|a: int| 0 <= a < n - 1 && names_id(#[trigger] areas[a], id);
            assert(names_id(areas[a], id));
        }
        if names_id(areas[n - 1], id) {
            assert(names_id(areas[n - 1], id));
        }
    }
}

/// An object gets the synonym of its first description that has one which is not empty,
/// under its full name: type and name with a point between them.
pub proof fn law_synonym_of_object(all: Seq<HeaderModel>, k: int, n: int, key: Seq<char>)
    requires
        0 <= k < n <= all.len(),
        all[k].kind + seq!['.'] + all[k].name == key,
        all[k].synonym is Some,
        all[k].synonym->0.len() > 0,
        forall|j: int|
            0 <= j < k && (#[trigger] all[j]).kind + seq!['.'] + all[j].name == key
                ==> all[j].synonym is None || all[j].synonym->0.len() == 0,
    ensures
        synonyms(all, n).contains_key(key),
        synonyms(all, n)[key] == all[k].synonym->0,
{
    reveal_strlit(".");
    assert("."@ =~= seq!['.']);
    lemma_no_synonym(all, k, key);
    assert(synonyms(all, k + 1) == with_synonym(synonyms(all, k), all[k]));
    law_first_synonym_wins(all, k + 1, n, key);
}

/// An object without a description that has a synonym has none.
pub proof fn law_no_other_synonyms(all: Seq<HeaderModel>, n: int, key: Seq<char>)
    requires
        0 <= n <= all.len(),
        forall|j: int|
            0 <= j < n && (#[trigger] all[j]).kind + seq!['.'] + all[j].name == key
                ==> all[j].synonym is None || all[j].synonym->0.len() == 0,
    ensures
        !synonyms(all, n).contains_key(key),
{
    lemma_no_synonym(all, n, key);
}

proof fn lemma_no_synonym(all: Seq<HeaderModel>, n: int, key: Seq<char>)
    requires
        0 <= n <= all.len(),
        forall|j: int|
            0 <= j < n && (#[trigger] all[j]).kind + seq!['.'] + all[j].name == key
                ==> all[j].synonym is None || all[j].synonym->0.len() == 0,
    ensures
        !synonyms(all, n).contains_key(key),
    decreases n,
{
    reveal_strlit(".");
    assert("."@ =~= seq!['.']);
    if n > 0 {
        lemma_no_synonym(all, n - 1, key);
        let h = all[n - 1];
        assert(full_name(h.kind, h.name) == h.kind + seq!['.'] + h.name);
    }
}

/// An identifier stands for the name that the last inventory which names it gives, and
/// there for the last entry: `a` is the area and `k` the entry.
pub proof fn law_identifier_stands_for(
    areas: Seq<Seq<(Seq<char>, Seq<char>)>>,
    a: int,
    k: int,
    n: int,
    id: Seq<char>,
)
    requires
        0 <= a < n <= areas.len(),
        0 <= k < areas[a].len(),
        areas[a][k].0 == id,
        forall|j: int| k < j < areas[a].len() ==> (#[trigger] areas[a][j]).0 != id,
        forall|b: int| a < b < n ==> !names_id(#[trigger] areas[b], id),
    ensures
        id_map(areas, n).contains_key(id),
        id_map(areas, n)[id] == areas[a][k].1,
    decreases n - a,
{
    let entries = areas[n - 1];
    if n - 1 == a {
        lemma_last_entry(id_map(areas, a), entries, k, entries.len() as int);
    } else {
        law_identifier_stands_for(areas, a, k, n - 1, id);
        assert(!names_id(areas[n - 1], id));
        lemma_entries_elsewhere(id_map(areas, n - 1), entries, entries.len() as int, id);
    }
}

proof fn lemma_last_entry(
    m: Map<Seq<char>, Seq<char>>,
    entries: Seq<(Seq<char>, Seq<char>)>,
    k: int,
    n: int,
)
    requires
        0 <= k < n <= entries.len(),
        forall|j: int| k < j < n ==> (#[trigger] entries[j]).0 != entries[k].0,
    ensures
        with_entries(m, entries, n).contains_key(entries[k].0),
        with_entries(m, entries, n)[entries[k].0] == entries[k].1,
    decreases n - k,
{
    if k < n - 1 {
        assert(entries[n - 1].0 != entries[k].0);
        lemma_last_entry(m, entries, k, n - 1);
    }
}

proof fn lemma_entries_elsewhere(
    m: Map<Seq<char>, Seq<char>>,
    entries: Seq<(Seq<char>, Seq<char>)>,
    n: int,
    id: Seq<char>,
)
    requires
        0 <= n <= entries.len(),
        m.contains_key(id),
        !names_id(entries, id),
    ensures
        with_entries(m, entries, n).contains_key(id),
        with_entries(m, entries, n)[id] == m[id],
    decreases n,
{
    if n > 0 {
        lemma_entries_elsewhere(m, entries, n - 1, id);
        assert(entries[n - 1].0 != id);
    }
}

/// An area whose inventory cannot be read is left out, any other counts with all its
/// entries.
pub proof fn law_area_entries(areas: Seq<Option<Vec<(String, String)>>>, a: int, k: int)
    requires
        0 <= a < areas.len(),
    ensures
        area_entries(areas).len() == areas.len(),
        areas[a] is None ==> area_entries(areas)[a].len() == 0,
        areas[a] matches Some(v) ==> area_entries(areas)[a].len() == v@.len() && (0 <= k
            < v@.len() ==> area_entries(areas)[a][k] == (v@[k].0@, v@[k].1@)),
{
}

} // verus!
