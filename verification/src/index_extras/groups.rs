//! Grouping of rows that have the same name.

use vstd::hash_map::StringHashMap;
use vstd::prelude::*;

use crate::text::texts;

verus! {

/// A group: its name and the positions of its rows.
pub type Group = (Seq<char>, Seq<int>);

/// First group of this name at or after `g`, or the number of groups.
pub open spec fn group_at(groups: Seq<Group>, name: Seq<char>, g: int) -> int
    decreases groups.len() - g,
{
    if 0 <= g < groups.len() && groups[g].0 != name {
        group_at(groups, name, g + 1)
    } else {
        g
    }
}

/// Groups with row `i` of this name added: to the group of the name, or to a new last
/// group.
pub open spec fn with_row(groups: Seq<Group>, name: Seq<char>, i: int) -> Seq<Group> {
    let g = group_at(groups, name, 0);
    if g < groups.len() {
        groups.update(g, (name, groups[g].1.push(i)))
    } else {
        groups.push((name, seq![i]))
    }
}

/// Groups of the first `n` rows, in the order in which the names come up.
pub open spec fn grouped(names: Seq<Seq<char>>, n: int) -> Seq<Group>
    decreases n,
{
    if n <= 0 {
        Seq::empty()
    } else {
        with_row(grouped(names, n - 1), names[n - 1], n - 1)
    }
}

/// Models of groups.
pub open spec fn group_models(v: Seq<(String, Vec<usize>)>) -> Seq<Group> {
    v.map_values(|g: (String, Vec<usize>)| (g.0@, g.1@.map_values(|i: usize| i as int)))
}

proof fn lemma_group_at(groups: Seq<Group>, name: Seq<char>, g: int)
    requires
        0 <= g <= groups.len(),
    ensures
        g <= group_at(groups, name, g) <= groups.len(),
        group_at(groups, name, g) < groups.len() ==> groups[group_at(groups, name, g)].0 == name,
        forall|k: int| g <= k < group_at(groups, name, g) ==> (#[trigger] groups[k]).0 != name,
    decreases groups.len() - g,
{
    if g < groups.len() && groups[g].0 != name {
        lemma_group_at(groups, name, g + 1);
    }
}

proof fn lemma_group_at_is(groups: Seq<Group>, name: Seq<char>, g: int, k: int)
    requires
        0 <= g <= k <= groups.len(),
        forall|j: int| g <= j < k ==> (#[trigger] groups[j]).0 != name,
        k < groups.len() ==> groups[k].0 == name,
    ensures
        group_at(groups, name, g) == k,
    decreases k - g,
{
    if g < k {
        assert(groups[g].0 != name);
        lemma_group_at_is(groups, name, g + 1, k);
    }
}

/// Whether an index tells the group of every name.
spec fn indexes(index: Map<Seq<char>, usize>, groups: Seq<Group>) -> bool {
    forall|name: Seq<char>| #[trigger]
        index.contains_key(name) == (group_at(groups, name, 0) < groups.len()) && (
        index.contains_key(name) ==> index[name] == group_at(groups, name, 0))
}

proof fn lemma_index_kept(index: Map<Seq<char>, usize>, groups: Seq<Group>, name: Seq<char>, i: int)
    requires
        indexes(index, groups),
        group_at(groups, name, 0) < groups.len(),
    ensures
        indexes(index, with_row(groups, name, i)),
{
    let after = with_row(groups, name, i);
    lemma_group_at(groups, name, 0);
    assert forall|other: Seq<char>| #[trigger]
        index.contains_key(other) == (group_at(after, other, 0) < after.len()) && (
        index.contains_key(other) ==> index[other] == group_at(after, other, 0)) by {
        lemma_group_at(groups, other, 0);
        lemma_group_at_is(after, other, 0, group_at(groups, other, 0));
    }
}

proof fn lemma_index_extended(
    index: Map<Seq<char>, usize>,
    groups: Seq<Group>,
    name: Seq<char>,
    i: int,
    g: usize,
)
    requires
        indexes(index, groups),
        group_at(groups, name, 0) >= groups.len(),
        g == groups.len(),
    ensures
        indexes(index.insert(name, g), with_row(groups, name, i)),
{
    let after = with_row(groups, name, i);
    let wider = index.insert(name, g);
    lemma_group_at(groups, name, 0);
    assert forall|other: Seq<char>| #[trigger]
        wider.contains_key(other) == (group_at(after, other, 0) < after.len()) && (
        wider.contains_key(other) ==> wider[other] == group_at(after, other, 0)) by {
        lemma_group_at(groups, other, 0);
        if other == name {
            lemma_group_at_is(after, other, 0, groups.len() as int);
        } else if group_at(groups, other, 0) < groups.len() {
            lemma_group_at_is(after, other, 0, group_at(groups, other, 0));
        } else {
            lemma_group_at_is(after, other, 0, after.len() as int);
        }
    }
}

/// Group rows by name. The groups come in the order in which their names come up, the
/// rows of a group in their own order, so that what is merged group by group starts
/// with the base configuration.
pub fn group_by_name(names: &Vec<String>) -> (r: Vec<(String, Vec<usize>)>)
    ensures
        group_models(r@) == grouped(texts(names@), names@.len() as int),
{
    let ghost all = texts(names@);
    let mut groups: Vec<(String, Vec<usize>)> = Vec::new();
    let mut index: StringHashMap<usize> = StringHashMap::new();
    let n: usize = names.len();
    let mut i: usize = 0;
    assert(group_models(groups@) =~= Seq::empty());
    while i < n
        invariant
            i <= n,
            n == names@.len(),
            all == texts(names@),
            group_models(groups@) == grouped(all, i as int),
            indexes(index@, group_models(groups@)),
        decreases n - i,
    {
        let ghost before = group_models(groups@);
        let name = &names[i];
        assert(all[i as int] == name@);
        proof {
            lemma_group_at(before, name@, 0);
        }
        let found: Option<usize> = match index.get(name.as_str()) {
            Some(g) => Some(*g),
            None => None,
        };
        match found {
            Some(g) => {
                assert(g == group_at(before, name@, 0));
                let ghost old_list = groups@[g as int].1@.map_values(|k: usize| k as int);
                groups[g].1.push(i);
                proof {
                    assert(groups@[g as int].1@.map_values(|k: usize| k as int) == old_list.push(
                        i as int,
                    ));
                    lemma_index_kept(index@, before, name@, i as int);
                    assert(group_models(groups@) =~= with_row(before, name@, i as int));
                }
            },
            None => {
                let mut list: Vec<usize> = Vec::new();
                list.push(i);
                assert(list@.map_values(|k: usize| k as int) =~= seq![i as int]);
                let g: usize = groups.len();
                groups.push((name.clone(), list));
                proof {
                    lemma_index_extended(index@, before, name@, i as int, g);
                    assert(group_models(groups@) =~= with_row(before, name@, i as int));
                }
                index.insert(name.clone(), g);
            },
        }
        i = i + 1;
    }
    groups
}

/// The groups have different names, and the rows of a group are exactly those of its
/// name, in ascending order. Every name has a group.
pub proof fn law_groups_partition(names: Seq<Seq<char>>, n: int)
    requires
        0 <= n <= names.len(),
    ensures
        forall|g: int, h: int|
            0 <= g < h < grouped(names, n).len() ==> (#[trigger] grouped(names, n)[g]).0 != (
            #[trigger] grouped(names, n)[h]).0,
        forall|g: int, a: int, b: int|
            0 <= g < grouped(names, n).len() && 0 <= a < b < grouped(names, n)[g].1.len()
                ==> #[trigger] grouped(names, n)[g].1[a] < #[trigger] grouped(names, n)[g].1[b],
        forall|g: int, a: int|
            0 <= g < grouped(names, n).len() && 0 <= a < grouped(names, n)[g].1.len() ==> 0
                <= #[trigger] grouped(names, n)[g].1[a] < n && names[grouped(names, n)[g].1[a]]
                == grouped(names, n)[g].0,
        forall|i: int|
            0 <= i < n ==> exists|g: int|
                0 <= g < grouped(names, n).len() && grouped(names, n)[g].0 == #[trigger] names[i]
                    && (#[trigger] grouped(names, n)[g]).1.contains(i),
    decreases n,
{
    if n > 0 {
        law_groups_partition(names, n - 1);
        let before = grouped(names, n - 1);
        let after = grouped(names, n);
        let name = names[n - 1];
        let t = group_at(before, name, 0);
        lemma_group_at(before, name, 0);
        assert forall|i: int| 0 <= i < n implies exists|g: int|
            0 <= g < after.len() && after[g].0 == #[trigger] names[i] && (
            #[trigger] after[g]).1.contains(i) by {
            if i == n - 1 {
                let rows = after[t].1;
                assert(rows[rows.len() - 1] == i);
                assert(after[t].1.contains(i));
            } else {
                let g = choose|g: int|
                    0 <= g < before.len() && before[g].0 == names[i] && (
                    #[trigger] before[g]).1.contains(i);
                let k = choose|k: int| 0 <= k < before[g].1.len() && before[g].1[k] == i;
                assert(after[g].1[k] == i);
                assert(after[g].0 == names[i] && after[g].1.contains(i));
            }
        }
    }
}

/// The groups come in the order in which their names come up: each begins with the first
/// row of its name, and later groups begin with later rows.
pub proof fn law_groups_in_order(names: Seq<Seq<char>>, n: int)
    requires
        0 <= n <= names.len(),
    ensures
        forall|g: int|
            0 <= g < grouped(names, n).len() ==> (#[trigger] grouped(names, n)[g]).1.len() > 0,
        forall|g: int, h: int|
            0 <= g < h < grouped(names, n).len() ==> (#[trigger] grouped(names, n)[g]).1[0] < (
            #[trigger] grouped(names, n)[h]).1[0],
        forall|g: int|
            0 <= g < grouped(names, n).len() ==> (#[trigger] grouped(names, n)[g]).1[0] < n,
    decreases n,
{
    if n > 0 {
        law_groups_in_order(names, n - 1);
        let before = grouped(names, n - 1);
        let name = names[n - 1];
        let g = group_at(before, name, 0);
        lemma_group_at(before, name, 0);
        let after = grouped(names, n);
        if g < before.len() {
            assert(after == before.update(g, (name, before[g].1.push(n - 1))));
            assert forall|k: int| 0 <= k < after.len() implies (#[trigger] after[k]).1.len() > 0
                && after[k].1[0] == before[k].1[0] by {
                assert(before[k].1.len() > 0);
            }
        } else {
            assert(after == before.push((name, seq![n - 1])));
            assert forall|k: int| 0 <= k < before.len() implies #[trigger] after[k]
                == before[k] by {}
        }
    }
}

} // verus!
