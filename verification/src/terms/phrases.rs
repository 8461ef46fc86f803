//! Lists of phrases without blanks and repetitions, and the terms of a procedure.

use vstd::prelude::*;

use super::comment::LeadingComment;
use super::identifier::{
    fold_text, folded, law_folded_without_yo, law_words_without_yo, letters, split_identifier, words,
};
use crate::text::{holds_text, join, join_texts, joined, texts};

verus! {

/// Signature of the rows that are built here; rows with another signature come from
/// elsewhere and are left alone. It changes with the way in which terms are built.
pub const MECH_SIGNATURE: &'static str = "mech:v2";

/// A list with one more phrase, unless the phrase is empty or stands there already.
pub open spec fn with_phrase(parts: Seq<Seq<char>>, p: Seq<char>) -> Seq<Seq<char>> {
    if p.len() == 0 || parts.contains(p) {
        parts
    } else {
        parts.push(p)
    }
}

/// A list with the first `n` of `more` added one after the other.
pub open spec fn with_phrases(parts: Seq<Seq<char>>, more: Seq<Seq<char>>, n: int) -> Seq<
    Seq<char>,
>
    decreases n,
{
    if n <= 0 {
        parts
    } else {
        with_phrase(with_phrases(parts, more, n - 1), more[n - 1])
    }
}

/// The phrases that are left of a list without blanks and repetitions.
pub open spec fn distinct(phrases: Seq<Seq<char>>) -> Seq<Seq<char>> {
    with_phrases(Seq::empty(), phrases, phrases.len() as int)
}

/// A list of phrases: none is empty, none stands there twice.
pub open spec fn is_phrase_list(parts: Seq<Seq<char>>) -> bool {
    &&& parts.no_duplicates()
    &&& forall|k: int| 0 <= k < parts.len() ==> (#[trigger] parts[k]).len() > 0
}

/// Texts in their folded form.
pub open spec fn folded_all(v: Seq<Seq<char>>) -> Seq<Seq<char>> {
    v.map_values(|s: Seq<char>| folded(s))
}

/// At most one phrase.
pub open spec fn optional(p: Option<Seq<char>>) -> Seq<Seq<char>> {
    match p {
        Some(s) => seq![s],
        None => Seq::empty(),
    }
}

/// Words of an identifier as one phrase.
pub open spec fn identifier_phrase(s: Seq<char>) -> Seq<char> {
    join(words(letters(s), 0), " "@)
}

/// Everything that terms are built from, in order: tags of the procedure, words of
/// its name, words of the owner, synonym of the owner, prose of the comment, tags of
/// the module header.
pub open spec fn term_sources(
    proc_name: Seq<char>,
    object_name: Option<Seq<char>>,
    object_synonym: Option<Seq<char>>,
    comment_tags: Seq<Seq<char>>,
    comment_prose: Option<Seq<char>>,
    module_tags: Seq<Seq<char>>,
) -> Seq<Seq<char>> {
    folded_all(comment_tags) + seq![identifier_phrase(proc_name)] + optional(
        match object_name {
            Some(s) => Some(identifier_phrase(s)),
            None => None,
        },
    ) + optional(
        match object_synonym {
            Some(s) => Some(folded(s)),
            None => None,
        },
    ) + optional(
        match comment_prose {
            Some(s) => Some(folded(s)),
            None => None,
        },
    ) + folded_all(module_tags)
}

/// Line of terms: phrases with a comma between neighbours.
pub open spec fn terms_line(sources: Seq<Seq<char>>) -> Seq<char> {
    join(distinct(sources), ", "@)
}

/// Adding phrases to a list leaves a list: no phrase is empty or repeated.
pub proof fn law_phrase_list(parts: Seq<Seq<char>>, more: Seq<Seq<char>>, n: int)
    requires
        is_phrase_list(parts),
        0 <= n <= more.len(),
    ensures
        is_phrase_list(with_phrases(parts, more, n)),
    decreases n,
{
    if n > 0 {
        law_phrase_list(parts, more, n - 1);
        let before = with_phrases(parts, more, n - 1);
        let p = more[n - 1];
        if p.len() > 0 && !before.contains(p) {
            assert forall|i: int, j: int|
                0 <= i < before.push(p).len() && 0 <= j < before.push(p).len() && i
                    != j implies before.push(p)[i] != before.push(p)[j] by {
                if i == before.len() {
                    assert(before.contains(before[j]));
                } else if j == before.len() {
                    assert(before.contains(before[i]));
                }
            }
        }
    }
}

/// Adding phrases keeps the phrases that stand in the list, in their places.
pub proof fn law_phrases_keep_order(parts: Seq<Seq<char>>, more: Seq<Seq<char>>, k: int, n: int)
    requires
        0 <= k <= n <= more.len(),
    ensures
        with_phrases(parts, more, k).is_prefix_of(with_phrases(parts, more, n)),
    decreases n - k,
{
    if k < n {
        law_phrases_keep_order(parts, more, k, n - 1);
    }
}

/// A phrase is in the list after adding exactly when it was there before or is one of
/// the added phrases and not empty.
pub proof fn law_phrases_complete(
    parts: Seq<Seq<char>>,
    more: Seq<Seq<char>>,
    n: int,
    p: Seq<char>,
)
    requires
        0 <= n <= more.len(),
    ensures
        with_phrases(parts, more, n).contains(p) <==> parts.contains(p) || (p.len() > 0
            && more.take(n).contains(p)),
    decreases n,
{
    if n > 0 {
        law_phrases_complete(parts, more, n - 1, p);
        let before = with_phrases(parts, more, n - 1);
        let q = more[n - 1];
        assert(more.take(n) == more.take(n - 1).push(q));
        if q.len() > 0 && !before.contains(q) {
            assert(before.push(q)[before.len() as int] == q);
            if before.contains(p) {
                let i = choose|i: int| 0 <= i < before.len() && before[i] == p;
                assert(before.push(q)[i] == p);
            }
        }
        if more.take(n - 1).contains(p) {
            let i = choose|i: int| 0 <= i < n - 1 && #[trigger] more.take(n - 1)[i] == p;
            assert(more.take(n)[i] == p);
        }
        assert(more.take(n)[n - 1] == q);
    } else {
        assert(more.take(0).len() == 0);
    }
}

/// No term phrase is empty or repeated, whatever the sources are.
pub proof fn law_terms_distinct(sources: Seq<Seq<char>>)
    ensures
        is_phrase_list(distinct(sources)),
{
    law_phrase_list(Seq::empty(), sources, sources.len() as int);
}

/// The tags of a procedure lead its terms: the phrases of a line of terms begin with
/// the distinct tags, whatever the other sources are.
pub proof fn law_tags_lead(tags: Seq<Seq<char>>, rest: Seq<Seq<char>>)
    ensures
        distinct(folded_all(tags)).is_prefix_of(distinct(folded_all(tags) + rest)),
{
    let all = folded_all(tags) + rest;
    let k = folded_all(tags).len() as int;
    law_phrases_keep_order(Seq::empty(), all, k, all.len() as int);
    lemma_with_phrases_prefix(Seq::empty(), folded_all(tags), rest, k);
}

proof fn lemma_with_phrases_prefix(
    parts: Seq<Seq<char>>,
    a: Seq<Seq<char>>,
    b: Seq<Seq<char>>,
    n: int,
)
    requires
        0 <= n <= a.len(),
    ensures
        with_phrases(parts, a + b, n) == with_phrases(parts, a, n),
    decreases n,
{
    if n > 0 {
        lemma_with_phrases_prefix(parts, a, b, n - 1);
    }
}

/// Add a phrase to a list, unless it is empty or stands there already.
pub fn add_phrase(parts: &mut Vec<String>, p: String)
    ensures
        texts(final(parts)@) == with_phrase(texts(old(parts)@), p@),
{
    let ghost before = texts(parts@);
    if p.is_empty() || holds_text(parts, &p) {
        return ;
    }
    let ghost phrase = p@;
    parts.push(p);
    assert(texts(parts@) == before.push(phrase));
}

/// Add phrases to a list one after the other.
pub fn add_phrases(parts: &mut Vec<String>, more: &Vec<String>)
    ensures
        texts(final(parts)@) == with_phrases(
            texts(old(parts)@),
            texts(more@),
            more@.len() as int,
        ),
{
    let ghost start = texts(parts@);
    let ghost t = texts(more@);
    let n: usize = more.len();
    let mut i: usize = 0;
    while i < n
        invariant
            i <= n,
            n == more@.len(),
            t == texts(more@),
            texts(parts@) == with_phrases(start, t, i as int),
        decreases n - i,
    {
        assert(t[i as int] == more@[i as int]@);
        add_phrase(parts, more[i].clone());
        i = i + 1;
    }
}

/// Line of terms of phrases: blanks and repetitions left out, a comma between
/// neighbours.
pub fn join_phrases(phrases: &Vec<String>) -> (r: String)
    ensures
        r@ == terms_line(texts(phrases@)),
{
    let mut parts: Vec<String> = Vec::new();
    assert(texts(parts@) =~= Seq::empty());
    add_phrases(&mut parts, phrases);
    join_texts(&parts, ", ")
}

/// Append the folded forms of texts.
fn push_folded_all(out: &mut Vec<String>, v: &[String])
    ensures
        texts(final(out)@) == texts(old(out)@) + folded_all(texts(v@)),
{
    let ghost start = texts(out@);
    let n: usize = v.len();
    let mut i: usize = 0;
    assert(start + folded_all(texts(v@)).take(0) == start);
    while i < n
        invariant
            i <= n,
            n == v@.len(),
            texts(out@) == start + folded_all(texts(v@)).take(i as int),
        decreases n - i,
    {
        let ghost before = texts(out@);
        let s = fold_text(v[i].as_str());
        let ghost f = s@;
        out.push(s);
        proof {
            assert(texts(out@) == before.push(f));
            assert(folded_all(texts(v@))[i as int] == f);
            assert(folded_all(texts(v@)).take(i + 1) == folded_all(texts(v@)).take(i as int).push(f));
        }
        i = i + 1;
    }
    assert(folded_all(texts(v@)).take(n as int) == folded_all(texts(v@)));
}

/// Append one text.
fn push_one(out: &mut Vec<String>, s: String)
    ensures
        texts(final(out)@) == texts(old(out)@) + seq![s@],
{
    let ghost before = texts(out@);
    let ghost t = s@;
    out.push(s);
    assert(texts(out@) == before + seq![t]);
}

/// Optional text as a value of the model.
pub open spec fn opt_text(s: Option<&str>) -> Option<Seq<char>> {
    match s {
        Some(t) => Some(t@),
        None => None,
    }
}

/// Tags of an optional comment.
pub open spec fn opt_tags(c: Option<&LeadingComment>) -> Seq<Seq<char>> {
    match c {
        Some(c) => c@.tags,
        None => Seq::empty(),
    }
}

/// Prose of an optional comment.
pub open spec fn opt_prose(c: Option<&LeadingComment>) -> Option<Seq<char>> {
    match c {
        Some(c) => Some(c@.prose),
        None => None,
    }
}

/// Build the line of terms of one procedure: phrases in lower case with a comma
/// between neighbours; empty sources are left out and no phrase is repeated.
///
/// Every tag is a phrase of its own, so that a search finds the whole word.
pub fn build_terms(
    proc_name: &str,
    object_name: Option<&str>,
    object_synonym: Option<&str>,
    comment: Option<&LeadingComment>,
    module_tags: &[String],
) -> (r: String)
    ensures
        r@ == terms_line(
            term_sources(
                proc_name@,
                opt_text(object_name),
                opt_text(object_synonym),
                opt_tags(comment),
                opt_prose(comment),
                texts(module_tags@),
            ),
        ),
{
    let mut out: Vec<String> = Vec::new();
    let ghost empty = Seq::<Seq<char>>::empty();
    assert(texts(out@) =~= empty);
    match comment {
        Some(c) => {
            push_folded_all(&mut out, c.tags.as_slice());
        },
        None => {},
    }
    assert(texts(out@) =~= folded_all(opt_tags(comment)));
    let name_words = split_identifier(proc_name);
    push_one(&mut out, join_texts(&name_words, " "));
    let ghost stage = texts(out@);
    match object_name {
        Some(name) => {
            let object_words = split_identifier(name);
            push_one(&mut out, join_texts(&object_words, " "));
        },
        None => {
            assert(stage + empty == stage);
        },
    }
    let ghost stage = texts(out@);
    match object_synonym {
        Some(synonym) => {
            push_one(&mut out, fold_text(synonym));
        },
        None => {
            assert(stage + empty == stage);
        },
    }
    let ghost stage = texts(out@);
    match comment {
        Some(c) => {
            push_one(&mut out, fold_text(c.prose.as_str()));
        },
        None => {
            assert(stage + empty == stage);
        },
    }
    push_folded_all(&mut out, module_tags);
    join_phrases(&out)
}

/// Whether none of the texts holds `ё`.
pub open spec fn without_yo(v: Seq<Seq<char>>) -> bool {
    forall|k: int| 0 <= k < v.len() ==> !(#[trigger] v[k]).contains('ё')
}

proof fn lemma_concat_without_yo(a: Seq<char>, b: Seq<char>)
    requires
        !a.contains('ё'),
        !b.contains('ё'),
    ensures
        !(a + b).contains('ё'),
{
    assert forall|k: int| 0 <= k < (a + b).len() implies (a + b)[k] != 'ё' by {
        if k < a.len() {
            assert(a.contains(a[k]));
        } else {
            assert(b.contains(b[k - a.len()]));
        }
    }
}

proof fn lemma_joined_without_yo(v: Seq<Seq<char>>, sep: Seq<char>, n: int)
    requires
        0 <= n <= v.len(),
        without_yo(v),
        !sep.contains('ё'),
    ensures
        !joined(v, sep, n).contains('ё'),
    decreases n,
{
    if n == 1 {
        assert(!v[0].contains('ё'));
    } else if n > 1 {
        lemma_joined_without_yo(v, sep, n - 1);
        assert(!v[n - 1].contains('ё'));
        lemma_concat_without_yo(joined(v, sep, n - 1), sep);
        lemma_concat_without_yo(joined(v, sep, n - 1) + sep, v[n - 1]);
    }
}

proof fn lemma_identifier_without_yo(s: Seq<char>)
    ensures
        !identifier_phrase(s).contains('ё'),
{
    reveal_strlit(" ");
    law_words_without_yo(letters(s), 0);
    let parts = words(letters(s), 0);
    lemma_joined_without_yo(parts, " "@, parts.len() as int);
}

proof fn lemma_folded_all_without_yo(v: Seq<Seq<char>>)
    ensures
        without_yo(folded_all(v)),
{
    assert forall|k: int| 0 <= k < folded_all(v).len() implies !(
    #[trigger] folded_all(v)[k]).contains('ё') by {
        law_folded_without_yo(v[k]);
    }
}

/// No term holds `ё`, whatever it was built from.
pub proof fn law_terms_without_yo(
    proc_name: Seq<char>,
    object_name: Option<Seq<char>>,
    object_synonym: Option<Seq<char>>,
    comment_tags: Seq<Seq<char>>,
    comment_prose: Option<Seq<char>>,
    module_tags: Seq<Seq<char>>,
)
    ensures
        !terms_line(
            term_sources(
                proc_name,
                object_name,
                object_synonym,
                comment_tags,
                comment_prose,
                module_tags,
            ),
        ).contains('ё'),
{
    reveal_strlit(", ");
    let sources = term_sources(
        proc_name,
        object_name,
        object_synonym,
        comment_tags,
        comment_prose,
        module_tags,
    );
    lemma_folded_all_without_yo(comment_tags);
    lemma_folded_all_without_yo(module_tags);
    lemma_identifier_without_yo(proc_name);
    if let Some(s) = object_name {
        lemma_identifier_without_yo(s);
    }
    if let Some(s) = object_synonym {
        law_folded_without_yo(s);
    }
    if let Some(s) = comment_prose {
        law_folded_without_yo(s);
    }
    assert(without_yo(sources));
    let phrases = distinct(sources);
    assert forall|k: int| 0 <= k < phrases.len() implies !(#[trigger] phrases[k]).contains('ё') by {
        law_phrases_complete(Seq::empty(), sources, sources.len() as int, phrases[k]);
        assert(phrases.contains(phrases[k]));
        assert(sources.take(sources.len() as int) =~= sources);
        let j = choose|j: int| 0 <= j < sources.len() && sources[j] == phrases[k];
        assert(!sources[j].contains('ё'));
    }
    lemma_joined_without_yo(phrases, ", "@, phrases.len() as int);
}

/// The phrases that are left of a list keep the order in which they first come up there.
pub proof fn law_first_come_first(sources: Seq<Seq<char>>, a: int, b: int)
    requires
        0 <= a < b < distinct(sources).len(),
    ensures
        exists|i: int|
            0 <= i < sources.len() && #[trigger] sources[i] == distinct(sources)[a] && forall|j: int|
                0 <= j <= i ==> #[trigger] sources[j] != distinct(sources)[b],
{
    lemma_first_come_first(sources, a, b, sources.len() as int);
}

proof fn lemma_first_come_first(sources: Seq<Seq<char>>, a: int, b: int, n: int)
    requires
        0 <= n <= sources.len(),
        0 <= a < b < with_phrases(Seq::empty(), sources, n).len(),
    ensures
        ({
            let r = with_phrases(Seq::empty(), sources, n);
            exists|i: int|
                0 <= i < n && #[trigger] sources[i] == r[a] && forall|j: int|
                    0 <= j <= i ==> #[trigger] sources[j] != r[b]
        }),
    decreases n,
{
    let r = with_phrases(Seq::empty(), sources, n);
    if n > 0 {
        let before = with_phrases(Seq::empty(), sources, n - 1);
        law_phrases_keep_order(Seq::empty(), sources, n - 1, n);
        if b < before.len() {
            lemma_first_come_first(sources, a, b, n - 1);
            let i = choose|i: int|
                0 <= i < n - 1 && #[trigger] sources[i] == before[a] && forall|j: int|
                    0 <= j <= i ==> #[trigger] sources[j] != before[b];
            assert(sources[i] == r[a]);
        } else {
            let p = sources[n - 1];
            assert(r == before.push(p));
            assert(r[b] == p && r[a] == before[a]);
            assert(before.contains(before[a]));
            law_phrases_complete(Seq::empty(), sources, n - 1, before[a]);
            let i = choose|i: int| 0 <= i < n - 1 && #[trigger] sources.take(n - 1)[i] == before[a];
            assert(sources[i] == r[a]);
            assert forall|j: int| 0 <= j <= i implies #[trigger] sources[j] != r[b] by {
                if sources[j] == p {
                    assert(sources.take(n - 1)[j] == p);
                    law_phrases_complete(Seq::empty(), sources, n - 1, p);
                    assert(before.contains(p));
                }
            }
        }
    }
}

/// Everything a procedure is known by is a phrase of its terms and nothing else is: each
/// tag of its comment and of the module, the words of its name, the words of the name of
/// its owner, the synonym of the owner and the prose of the comment. A line of terms is
/// these phrases with a comma and a blank between neighbours.
pub proof fn law_terms_are_complete(
    proc_name: Seq<char>,
    object_name: Option<Seq<char>>,
    object_synonym: Option<Seq<char>>,
    comment_tags: Seq<Seq<char>>,
    comment_prose: Option<Seq<char>>,
    module_tags: Seq<Seq<char>>,
    p: Seq<char>,
)
    ensures
        ({
            let sources = term_sources(
                proc_name,
                object_name,
                object_synonym,
                comment_tags,
                comment_prose,
                module_tags,
            );
            &&& terms_line(sources) == join(distinct(sources), ", "@)
            &&& distinct(sources).contains(p) <==> p.len() > 0 && {
                ||| exists|k: int|
                    0 <= k < comment_tags.len() && p == folded(#[trigger] comment_tags[k])
                ||| p == join(words(letters(proc_name), 0), " "@)
                ||| object_name matches Some(s) && p == join(words(letters(s), 0), " "@)
                ||| object_synonym matches Some(s) && p == folded(s)
                ||| comment_prose matches Some(s) && p == folded(s)
                ||| exists|k: int|
                    0 <= k < module_tags.len() && p == folded(#[trigger] module_tags[k])
            }
        }),
{
    let sources = term_sources(
        proc_name,
        object_name,
        object_synonym,
        comment_tags,
        comment_prose,
        module_tags,
    );
    law_phrases_complete(Seq::empty(), sources, sources.len() as int, p);
    assert(sources.take(sources.len() as int) =~= sources);
    let a = folded_all(comment_tags);
    let b = seq![identifier_phrase(proc_name)];
    let c = optional(
        match object_name {
            Some(s) => Some(identifier_phrase(s)),
            None => None,
        },
    );
    let d = optional(
        match object_synonym {
            Some(s) => Some(folded(s)),
            None => None,
        },
    );
    let e = optional(
        match comment_prose {
            Some(s) => Some(folded(s)),
            None => None,
        },
    );
    let f = folded_all(module_tags);
    lemma_phrase_in_concat(a, b, p);
    lemma_phrase_in_concat(a + b, c, p);
    lemma_phrase_in_concat(a + b + c, d, p);
    lemma_phrase_in_concat(a + b + c + d, e, p);
    lemma_phrase_in_concat(a + b + c + d + e, f, p);
    lemma_folded_in(comment_tags, p);
    lemma_folded_in(module_tags, p);
    assert(b.contains(p) <==> p == identifier_phrase(proc_name)) by {
        assert(b[0] == identifier_phrase(proc_name));
    }
    assert(c.contains(p) <==> (object_name matches Some(s) && p == identifier_phrase(s))) by {
        if let Some(s) = object_name {
            assert(c[0] == identifier_phrase(s));
        }
    }
    assert(d.contains(p) <==> (object_synonym matches Some(s) && p == folded(s))) by {
        if let Some(s) = object_synonym {
            assert(d[0] == folded(s));
        }
    }
    assert(e.contains(p) <==> (comment_prose matches Some(s) && p == folded(s))) by {
        if let Some(s) = comment_prose {
            assert(e[0] == folded(s));
        }
    }
}

proof fn lemma_phrase_in_concat(a: Seq<Seq<char>>, b: Seq<Seq<char>>, p: Seq<char>)
    ensures
        (a + b).contains(p) <==> a.contains(p) || b.contains(p),
{
    if a.contains(p) {
        let k = choose|k: int| 0 <= k < a.len() && a[k] == p;
        assert((a + b)[k] == p);
    }
    if b.contains(p) {
        let k = choose|k: int| 0 <= k < b.len() && b[k] == p;
        assert((a + b)[a.len() + k] == p);
    }
    if (a + b).contains(p) {
        let k = choose|k: int| 0 <= k < (a + b).len() && (a + b)[k] == p;
        if k < a.len() {
            assert(a[k] == p);
        } else {
            assert(b[k - a.len()] == p);
        }
    }
}

proof fn lemma_folded_in(v: Seq<Seq<char>>, p: Seq<char>)
    ensures
        folded_all(v).contains(p) <==> exists|k: int| 0 <= k < v.len() && p == folded(#[trigger] v[k]),
{
    let f = folded_all(v);
    if f.contains(p) {
        let k = choose|k: int| 0 <= k < f.len() && f[k] == p;
        assert(p == folded(v[k]));
    }
    if exists|k: int| 0 <= k < v.len() && p == folded(#[trigger] v[k]) {
        let k = choose|k: int| 0 <= k < v.len() && p == folded(#[trigger] v[k]);
        assert(f[k] == p);
    }
}

/// The sources of terms stand in this order: the tags of the comment, the name, the owner,
/// its synonym, the prose of the comment, the tags of the module. A source that is not there
/// takes no place.
pub proof fn law_order_of_sources(
    proc_name: Seq<char>,
    object_name: Option<Seq<char>>,
    object_synonym: Option<Seq<char>>,
    comment_tags: Seq<Seq<char>>,
    comment_prose: Option<Seq<char>>,
    module_tags: Seq<Seq<char>>,
)
    ensures
        ({
            let sources = term_sources(
                proc_name,
                object_name,
                object_synonym,
                comment_tags,
                comment_prose,
                module_tags,
            );
            let owner = comment_tags.len() + 1;
            let synonym = owner + if object_name is Some {
                1int
            } else {
                0int
            };
            let prose = synonym + if object_synonym is Some {
                1int
            } else {
                0int
            };
            let tags = prose + if comment_prose is Some {
                1int
            } else {
                0int
            };
            &&& sources.len() == tags + module_tags.len()
            &&& forall|k: int|
                0 <= k < comment_tags.len() ==> #[trigger] sources[k] == folded(comment_tags[k])
            &&& sources[comment_tags.len() as int] == join(words(letters(proc_name), 0), " "@)
            &&& object_name matches Some(s) ==> sources[owner as int] == join(
                words(letters(s), 0),
                " "@,
            )
            &&& object_synonym matches Some(s) ==> sources[synonym] == folded(s)
            &&& comment_prose matches Some(s) ==> sources[prose] == folded(s)
            &&& forall|k: int|
                0 <= k < module_tags.len() ==> #[trigger] sources[tags + k] == folded(
                    module_tags[k],
                )
        }),
{
}

/// A phrase goes to the end of a list, unless it is empty or stands there already.
pub proof fn law_one_more_phrase(parts: Seq<Seq<char>>, more: Seq<Seq<char>>, p: Seq<char>)
    ensures
        with_phrases(parts, Seq::empty(), 0) == parts,
        ({
            let before = with_phrases(parts, more, more.len() as int);
            with_phrases(parts, more.push(p), more.len() as int + 1) == if p.len() > 0
                && !before.contains(p) {
                before.push(p)
            } else {
                before
            }
        }),
{
    lemma_with_phrases_prefix(parts, more, seq![p], more.len() as int);
    assert(more + seq![p] =~= more.push(p));
}

} // verus!
