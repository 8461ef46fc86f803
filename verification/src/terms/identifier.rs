//! Words of an identifier and the folding that terms and queries share.

use vstd::prelude::*;

use crate::text::{chars_of, text_of, texts};
use crate::unicode::lower_char;

verus! {

/// One character of an identifier with what the Unicode tables say of it.
pub struct Letter {
    pub symbol: char,
    pub alphanumeric: bool,
    pub alphabetic: bool,
    pub uppercase: bool,
    pub lowercase: bool,
    /// Lowercase mapping of the character.
    pub lowered: Vec<char>,
}

/// Model of a [`Letter`].
#[verifier::ext_equal]
pub struct LetterModel {
    pub symbol: char,
    pub alphanumeric: bool,
    pub alphabetic: bool,
    pub uppercase: bool,
    pub lowercase: bool,
    pub lowered: Seq<char>,
}

impl View for Letter {
    type V = LetterModel;

    open spec fn view(&self) -> LetterModel {
        LetterModel {
            symbol: self.symbol,
            alphanumeric: self.alphanumeric,
            alphabetic: self.alphabetic,
            uppercase: self.uppercase,
            lowercase: self.lowercase,
            lowered: self.lowered@,
        }
    }
}

/// The letter that a character is.
pub open spec fn letter(c: char) -> LetterModel {
    LetterModel {
        symbol: c,
        alphanumeric: crate::unicode::alphanumeric(c),
        alphabetic: crate::unicode::alphabetic(c),
        uppercase: crate::unicode::uppercase(c),
        lowercase: crate::unicode::lowercase(c),
        lowered: crate::unicode::char_lowered(c),
    }
}

/// Letters of a text.
pub open spec fn letters(s: Seq<char>) -> Seq<LetterModel> {
    s.map_values(|c: char| letter(c))
}

/// Models of a sequence of letters.
pub open spec fn letter_models(v: Seq<Letter>) -> Seq<LetterModel> {
    v.map_values(|l: Letter| l@)
}

/// Every letter that can stand in a word has a lowercase mapping.
pub open spec fn letters_lowered(s: Seq<LetterModel>) -> bool {
    forall|i: int| 0 <= i < s.len() && (#[trigger] s[i]).alphanumeric ==> s[i].lowered.len() > 0
}

/// Whether a character is a Cyrillic letter: the letters of the Cyrillic block and of its
/// supplement, those of the extended blocks, and two among the phonetic signs. The number
/// signs and the combining marks that stand between them in Unicode are no letters.
pub open spec fn cyrillic(c: char) -> bool {
    ||| '\u{400}' <= c <= '\u{481}'
    ||| '\u{48a}' <= c <= '\u{52f}'
    ||| '\u{1c80}' <= c <= '\u{1c8a}'
    ||| c == '\u{1d2b}'
    ||| c == '\u{1d78}'
    ||| '\u{a640}' <= c <= '\u{a66e}'
    ||| '\u{a67f}' <= c <= '\u{a69d}'
    ||| '\u{1e030}' <= c <= '\u{1e06d}'
}

/// `ё` folded to `е` everywhere.
pub open spec fn yo(s: Seq<char>) -> Seq<char> {
    s.map_values(|c: char| if c == 'ё' { 'е' } else { c })
}

/// Lower case, letter by letter.
pub open spec fn lowered(s: Seq<char>) -> Seq<char>
    decreases s.len(),
{
    if s.len() == 0 {
        Seq::empty()
    } else {
        lowered(s.drop_last()) + crate::unicode::char_lowered(s.last())
    }
}

/// Lower case with `ё` folded to `е`.
pub open spec fn folded(s: Seq<char>) -> Seq<char> {
    yo(lowered(s))
}

/// Whether a word ends between the neighbours `i - 1` and `i`, both of which can
/// stand in a word: lower case before upper case, a letter beside a digit, one
/// alphabet beside the other, or the last capital of an abbreviation.
pub open spec fn boundary(s: Seq<LetterModel>, i: int) -> bool {
    let a = s[i - 1];
    let b = s[i];
    ||| a.lowercase && b.uppercase
    ||| a.alphabetic != b.alphabetic
    ||| a.alphabetic && b.alphabetic && cyrillic(a.symbol) != cyrillic(b.symbol)
    ||| a.uppercase && b.uppercase && i + 1 < s.len() && s[i + 1].lowercase
}

/// End of the word whose characters before `j` are known to belong to it.
pub open spec fn word_end(s: Seq<LetterModel>, j: int) -> int
    decreases s.len() - j,
{
    if 0 < j < s.len() && s[j].alphanumeric && !boundary(s, j) {
        word_end(s, j + 1)
    } else {
        j
    }
}

/// Spelling of the letters `i` to `j`: lower case, `ё` folded to `е`.
pub open spec fn spelling(s: Seq<LetterModel>, i: int, j: int) -> Seq<char>
    decreases j - i,
{
    if i >= j {
        Seq::empty()
    } else {
        spelling(s, i, j - 1) + yo(s[j - 1].lowered)
    }
}

/// Words that start at or after position `i`.
pub open spec fn words(s: Seq<LetterModel>, i: int) -> Seq<Seq<char>>
    decreases s.len() - i,
{
    if i < 0 || i >= s.len() {
        Seq::empty()
    } else if !s[i].alphanumeric {
        words(s, i + 1)
    } else {
        let j = word_end(s, i + 1);
        proof {
            lemma_word_end(s, i + 1);
        }
        seq![spelling(s, i, j)] + words(s, j)
    }
}

/// Spelling of everything at or after position `i` that can stand in a word.
pub open spec fn spelled_out(s: Seq<LetterModel>, i: int) -> Seq<char>
    decreases s.len() - i,
{
    if i < 0 || i >= s.len() {
        Seq::empty()
    } else if !s[i].alphanumeric {
        spelled_out(s, i + 1)
    } else {
        yo(s[i].lowered) + spelled_out(s, i + 1)
    }
}

/// Bounds of [`word_end`]; what it passes belongs to words.
pub proof fn lemma_word_end(s: Seq<LetterModel>, j: int)
    requires
        0 <= j <= s.len(),
    ensures
        j <= word_end(s, j) <= s.len(),
        forall|k: int| j <= k < word_end(s, j) ==> (#[trigger] s[k]).alphanumeric,
    decreases s.len() - j,
{
    if 0 < j < s.len() && s[j].alphanumeric && !boundary(s, j) {
        lemma_word_end(s, j + 1);
    }
}

proof fn lemma_spelling_split(s: Seq<LetterModel>, i: int, j: int)
    requires
        0 <= i < j <= s.len(),
    ensures
        spelling(s, i, j) == yo(s[i].lowered) + spelling(s, i + 1, j),
    decreases j - i,
{
    if j == i + 1 {
        assert(spelling(s, i, i) == Seq::<char>::empty());
        assert(spelling(s, i + 1, j) == Seq::<char>::empty());
        assert(spelling(s, i, j) == yo(s[i].lowered));
    } else {
        lemma_spelling_split(s, i, j - 1);
        assert(spelling(s, i, j) == yo(s[i].lowered) + (spelling(s, i + 1, j - 1) + yo(
            s[j - 1].lowered,
        )));
    }
}

proof fn lemma_spelled_run(s: Seq<LetterModel>, i: int, j: int)
    requires
        0 <= i <= j <= s.len(),
        forall|k: int| i <= k < j ==> (#[trigger] s[k]).alphanumeric,
    ensures
        spelled_out(s, i) == spelling(s, i, j) + spelled_out(s, j),
    decreases j - i,
{
    if i < j {
        lemma_spelled_run(s, i + 1, j);
        lemma_spelling_split(s, i, j);
        assert(s[i].alphanumeric);
        assert(spelled_out(s, i) == yo(s[i].lowered) + (spelling(s, i + 1, j) + spelled_out(s, j)));
    } else {
        assert(spelling(s, i, j) + spelled_out(s, j) == spelled_out(s, j));
    }
}

/// Splitting loses nothing: the words of an identifier, written in a row, spell
/// its letters and digits in their order.
pub proof fn law_words_keep_letters(s: Seq<LetterModel>, i: int)
    requires
        0 <= i <= s.len(),
    ensures
        words(s, i).flatten() == spelled_out(s, i),
    decreases s.len() - i,
{
    if i < s.len() {
        if !s[i].alphanumeric {
            law_words_keep_letters(s, i + 1);
        } else {
            let j = word_end(s, i + 1);
            lemma_word_end(s, i + 1);
            law_words_keep_letters(s, j);
            lemma_spelled_run(s, i, j);
            let first = seq![spelling(s, i, j)];
            vstd::seq_lib::lemma_flatten_concat(first, words(s, j));
            first.lemma_flatten_singleton();
            assert(words(s, i).flatten() == spelling(s, i, j) + words(s, j).flatten());
        }
    }
}

/// No word is empty.
pub proof fn law_words_not_empty(s: Seq<LetterModel>, i: int)
    requires
        0 <= i <= s.len(),
        letters_lowered(s),
    ensures
        forall|k: int| 0 <= k < words(s, i).len() ==> (#[trigger] words(s, i)[k]).len() > 0,
    decreases s.len() - i,
{
    if i < s.len() {
        if !s[i].alphanumeric {
            law_words_not_empty(s, i + 1);
            assert(words(s, i) == words(s, i + 1));
        } else {
            let j = word_end(s, i + 1);
            lemma_word_end(s, i + 1);
            law_words_not_empty(s, j);
            lemma_spelling_split(s, i, j);
            assert(yo(s[i].lowered).len() > 0);
            assert forall|k: int| 0 <= k < words(s, i).len() implies (
            #[trigger] words(s, i)[k]).len() > 0 by {
                if k > 0 {
                    assert(words(s, i)[k] == words(s, j)[k - 1]);
                }
            }
        }
    }
}

/// Folding leaves no `ё`.
pub proof fn law_yo_is_gone(s: Seq<char>)
    ensures
        !yo(s).contains('ё'),
{
}

proof fn lemma_spelling_without_yo(s: Seq<LetterModel>, i: int, j: int)
    requires
        0 <= i <= j <= s.len(),
    ensures
        !spelling(s, i, j).contains('ё'),
    decreases j - i,
{
    if i < j {
        lemma_spelling_without_yo(s, i, j - 1);
        law_yo_is_gone(s[j - 1].lowered);
        let head = spelling(s, i, j - 1);
        let tail = yo(s[j - 1].lowered);
        assert forall|k: int| 0 <= k < (head + tail).len() implies (head + tail)[k] != 'ё' by {
            if k < head.len() {
                assert(head.contains(head[k]));
            } else {
                assert(tail.contains(tail[k - head.len()]));
            }
        }
    }
}

/// No word of an identifier holds `ё`.
pub proof fn law_words_without_yo(s: Seq<LetterModel>, i: int)
    requires
        0 <= i <= s.len(),
    ensures
        forall|k: int| 0 <= k < words(s, i).len() ==> !(#[trigger] words(s, i)[k]).contains('ё'),
    decreases s.len() - i,
{
    if i < s.len() {
        if !s[i].alphanumeric {
            law_words_without_yo(s, i + 1);
            assert(words(s, i) == words(s, i + 1));
        } else {
            let j = word_end(s, i + 1);
            lemma_word_end(s, i + 1);
            law_words_without_yo(s, j);
            lemma_spelling_without_yo(s, i, j);
            assert forall|k: int| 0 <= k < words(s, i).len() implies !(
            #[trigger] words(s, i)[k]).contains('ё') by {
                if k > 0 {
                    assert(words(s, i)[k] == words(s, j)[k - 1]);
                }
            }
        }
    }
}

/// Whether a character is a Cyrillic letter, so that a change of alphabet shows.
pub fn is_cyr(c: char) -> (r: bool)
    ensures
        r == cyrillic(c),
{
    ('\u{400}' <= c && c <= '\u{481}') || ('\u{48a}' <= c && c <= '\u{52f}') || ('\u{1c80}'
        <= c && c <= '\u{1c8a}') || c == '\u{1d2b}' || c == '\u{1d78}' || ('\u{a640}' <= c
        && c <= '\u{a66e}') || ('\u{a67f}' <= c && c <= '\u{a69d}') || ('\u{1e030}' <= c
        && c <= '\u{1e06d}')
}

/// A character with what the Unicode tables say of it.
fn classify(c: char) -> (r: Letter)
    ensures
        r@ == letter(c),
        r.lowered@.len() > 0,
{
    Letter {
        symbol: c,
        alphanumeric: c.is_alphanumeric(),
        alphabetic: c.is_alphabetic(),
        uppercase: c.is_uppercase(),
        lowercase: c.is_lowercase(),
        lowered: lower_char(c),
    }
}

/// Whether a word ends between the neighbours `i - 1` and `i`.
fn is_boundary(v: &[Letter], i: usize) -> (r: bool)
    requires
        0 < i < v@.len(),
    ensures
        r == boundary(letter_models(v@), i as int),
{
    let prev = &v[i - 1];
    let cur = &v[i];
    (prev.lowercase && cur.uppercase) || prev.alphabetic != cur.alphabetic || (prev.alphabetic
        && cur.alphabetic && is_cyr(prev.symbol) != is_cyr(cur.symbol)) || (prev.uppercase
        && cur.uppercase && i + 1 < v.len() && v[i + 1].lowercase)
}

/// Words of classified letters, in lower case with `ё` folded to `е`. No word is empty.
pub fn split_letters(v: &[Letter]) -> (r: Vec<String>)
    requires
        letters_lowered(letter_models(v@)),
    ensures
        texts(r@) == words(letter_models(v@), 0),
        forall|k: int| 0 <= k < r@.len() ==> (#[trigger] r@[k])@.len() > 0,
{
    let ghost m = letter_models(v@);
    let mut r: Vec<String> = Vec::new();
    let n: usize = v.len();
    let mut i: usize = 0;
    assert(texts(r@) =~= Seq::empty());
    while i < n
        invariant
            i <= n,
            n == v@.len(),
            m == letter_models(v@),
            words(m, 0) == texts(r@) + words(m, i as int),
        decreases n - i,
    {
        if !v[i].alphanumeric {
            i = i + 1;
        } else {
            let mut word = String::new();
            let mut j: usize = i;
            proof {
                lemma_word_end(m, i + 1);
            }
            while j < n && (j == i || (v[j].alphanumeric && !is_boundary(v, j)))
                invariant
                    i <= j <= n,
                    i < n,
                    n == v@.len(),
                    m == letter_models(v@),
                    word@ == spelling(m, i as int, j as int),
                    j > i ==> word_end(m, i + 1) == word_end(m, j as int),
                decreases n - j,
            {
                push_folded(&mut word, v[j].lowered.as_slice());
                j = j + 1;
                assert(word@ == spelling(m, i as int, j as int));
            }
            let ghost before = texts(r@);
            r.push(word);
            proof {
                assert(j == word_end(m, i + 1));
                assert(texts(r@) == before.push(spelling(m, i as int, j as int)));
                assert(before + (seq![spelling(m, i as int, j as int)] + words(m, j as int))
                    == before.push(spelling(m, i as int, j as int)) + words(m, j as int));
            }
            i = j;
        }
    }
    proof {
        assert(texts(r@) + Seq::<Seq<char>>::empty() == texts(r@));
        law_words_not_empty(m, 0);
        assert forall|k: int| 0 <= k < r@.len() implies (#[trigger] r@[k])@.len() > 0 by {
            assert(words(m, 0)[k] == r@[k]@);
        }
    }
    r
}

/// Append characters with `ё` folded to `е`.
fn push_folded(word: &mut String, chars: &[char])
    ensures
        final(word)@ == old(word)@ + yo(chars@),
{
    let n: usize = chars.len();
    let mut k: usize = 0;
    let ghost start = word@;
    assert(start + yo(chars@.take(0)) == start);
    while k < n
        invariant
            k <= n,
            n == chars@.len(),
            word@ == start + yo(chars@.take(k as int)),
        decreases n - k,
    {
        let c = chars[k];
        if c == 'ё' {
            word.push('е');
        } else {
            word.push(c);
        }
        k = k + 1;
        assert(word@ == start + yo(chars@.take(k as int)));
    }
    assert(chars@.take(n as int) == chars@);
}

/// Split an identifier into words in lower case.
///
/// Words end at a character that is neither a letter nor a digit, before a capital
/// that follows a small letter, between letters and digits, where the alphabet
/// changes, and before the last capital of an abbreviation (`XMLReader` gives
/// `xml` and `reader`). No word is empty.
pub fn split_identifier(s: &str) -> (r: Vec<String>)
    ensures
        texts(r@) == words(letters(s@), 0),
        forall|k: int| 0 <= k < r@.len() ==> (#[trigger] r@[k])@.len() > 0,
{
    let chars = chars_of(s);
    let mut v: Vec<Letter> = Vec::new();
    let n: usize = chars.len();
    let mut i: usize = 0;
    while i < n
        invariant
            i <= n,
            n == chars@.len(),
            chars@ == s@,
            v@.len() == i,
            forall|k: int| 0 <= k < i ==> #[trigger] v@[k]@ == letter(s@[k]),
            forall|k: int| 0 <= k < i ==> (#[trigger] v@[k]).lowered@.len() > 0,
        decreases n - i,
    {
        v.push(classify(chars[i]));
        i = i + 1;
    }
    assert(letter_models(v@) =~= letters(s@));
    assert forall|k: int| 0 <= k < letters(s@).len() && (#[trigger] letters(s@)[k]).alphanumeric
        implies letters(s@)[k].lowered.len() > 0 by {
        assert(letters(s@)[k] == v@[k]@);
    }
    split_letters(v.as_slice())
}

/// Text with `ё` folded to `е`.
pub fn fold_yo(s: &str) -> (r: String)
    ensures
        r@ == yo(s@),
{
    let chars = chars_of(s);
    let mut r = String::new();
    push_folded(&mut r, chars.as_slice());
    assert(Seq::<char>::empty() + yo(s@) == yo(s@));
    r
}

/// Normalise free text for terms: lower case with `ё` folded to `е`, the same
/// folding as that of identifiers.
pub fn fold_text(s: &str) -> (r: String)
    ensures
        r@ == folded(s@),
{
    let chars = chars_of(s);
    let mut low = String::new();
    let n: usize = chars.len();
    let mut i: usize = 0;
    assert(low@ =~= lowered(s@.take(0)));
    while i < n
        invariant
            i <= n,
            n == chars@.len(),
            chars@ == s@,
            low@ == lowered(s@.take(i as int)),
        decreases n - i,
    {
        let letter = text_of(lower_char(chars[i]).as_slice());
        low.append(letter.as_str());
        assert(s@.take(i + 1).drop_last() =~= s@.take(i as int));
        i = i + 1;
    }
    assert(s@.take(n as int) =~= s@);
    fold_yo(low.as_str())
}

proof fn lemma_folded_is_spelling(s: Seq<char>, n: int)
    requires
        0 <= n <= s.len(),
    ensures
        spelling(letters(s), 0, n) == folded(s.take(n)),
    decreases n,
{
    if n > 0 {
        lemma_folded_is_spelling(s, n - 1);
        assert(s.take(n).drop_last() =~= s.take(n - 1));
        let a = lowered(s.take(n - 1));
        let b = crate::unicode::char_lowered(s[n - 1]);
        assert(yo(a + b) =~= yo(a) + yo(b));
    } else {
        assert(folded(s.take(0)) =~= Seq::empty());
    }
}

/// Free text and identifiers are folded alike: a text of letters and digits that is one
/// word folds to that word.
pub proof fn law_one_word_folds_to_itself(s: Seq<char>)
    requires
        forall|k: int| 0 <= k < s.len() ==> (#[trigger] letters(s)[k]).alphanumeric,
        words(letters(s), 0).len() == 1,
    ensures
        folded(s) == words(letters(s), 0)[0],
{
    let n = s.len() as int;
    let w = words(letters(s), 0);
    law_words_keep_letters(letters(s), 0);
    lemma_spelled_run(letters(s), 0, n);
    lemma_folded_is_spelling(s, n);
    assert(s.take(n) =~= s);
    assert(spelled_out(letters(s), n) =~= Seq::empty());
    assert(w =~= seq![w[0]]);
    seq![w[0]].lemma_flatten_one_element();
    assert(spelling(letters(s), 0, n) + Seq::<char>::empty() =~= folded(s));
}

/// No folded text holds `ё`.
pub proof fn law_folded_without_yo(s: Seq<char>)
    ensures
        !folded(s).contains('ё'),
{
    law_yo_is_gone(lowered(s));
}

/// Stretches of an identifier that its words stand for, from position `i` on.
spec fn word_spans(s: Seq<LetterModel>, i: int) -> Seq<(int, int)>
    decreases s.len() - i,
{
    if i < 0 || i >= s.len() {
        Seq::empty()
    } else if !s[i].alphanumeric {
        word_spans(s, i + 1)
    } else {
        let j = word_end(s, i + 1);
        proof {
            lemma_word_end(s, i + 1);
        }
        seq![(i, j)] + word_spans(s, j)
    }
}

/// Whether a stretch holds position `i`.
pub open spec fn is_covered(spans: Seq<(int, int)>, i: int) -> bool {
    exists|k: int| 0 <= k < spans.len() && (#[trigger] spans[k]).0 <= i < spans[k].1
}

/// Whether one stretch holds both position `i - 1` and position `i`.
pub open spec fn is_joined(spans: Seq<(int, int)>, i: int) -> bool {
    exists|k: int| 0 <= k < spans.len() && (#[trigger] spans[k]).0 < i < spans[k].1
}

/// Whether stretches follow one another and none is empty.
pub open spec fn in_a_row(spans: Seq<(int, int)>, from: int, to: int) -> bool {
    &&& forall|k: int|
        0 <= k < spans.len() ==> from <= (#[trigger] spans[k]).0 && spans[k].0 < spans[k].1
            && spans[k].1 <= to
    &&& forall|k: int, l: int|
        0 <= k < l < spans.len() ==> (#[trigger] spans[k]).1 <= (#[trigger] spans[l]).0
}

proof fn lemma_word_end_stops(s: Seq<LetterModel>, j: int)
    requires
        0 < j <= s.len(),
    ensures
        forall|k: int| j <= k < word_end(s, j) ==> !#[trigger] boundary(s, k),
        word_end(s, j) < s.len() && s[word_end(s, j)].alphanumeric ==> boundary(
            s,
            word_end(s, j),
        ),
    decreases s.len() - j,
{
    if j < s.len() && s[j].alphanumeric && !boundary(s, j) {
        lemma_word_end_stops(s, j + 1);
    }
}

proof fn lemma_word_spans(s: Seq<LetterModel>, i: int)
    requires
        0 <= i <= s.len(),
    ensures
        in_a_row(word_spans(s, i), i, s.len() as int),
        words(s, i).len() == word_spans(s, i).len(),
        forall|k: int|
            0 <= k < words(s, i).len() ==> #[trigger] words(s, i)[k] == spelling(
                s,
                word_spans(s, i)[k].0,
                word_spans(s, i)[k].1,
            ),
        forall|p: int|
            i <= p < s.len() ==> ((#[trigger] s[p]).alphanumeric <==> is_covered(
                word_spans(s, i),
                p,
            )),
        forall|p: int|
            i < p < s.len() && s[p - 1].alphanumeric && s[p].alphanumeric ==> (
            #[trigger] is_joined(word_spans(s, i), p) <==> !boundary(s, p)),
    decreases s.len() - i,
{
    let spans = word_spans(s, i);
    let ws = words(s, i);
    if i < s.len() {
        if !s[i].alphanumeric {
            lemma_word_spans(s, i + 1);
            assert(spans == word_spans(s, i + 1));
            assert(ws == words(s, i + 1));
            assert(!is_covered(spans, i));
        } else {
            let j = word_end(s, i + 1);
            lemma_word_end(s, i + 1);
            lemma_word_end_stops(s, i + 1);
            lemma_word_spans(s, j);
            let rest = word_spans(s, j);
            assert(spans == seq![(i, j)] + rest);
            assert(ws == seq![spelling(s, i, j)] + words(s, j));
            assert forall|k: int| 0 < k < spans.len() implies #[trigger] spans[k] == rest[k
                - 1] by {}
            assert(spans[0] == (i, j));
            assert(in_a_row(spans, i, s.len() as int)) by {
                assert forall|k: int, l: int| 0 <= k < l < spans.len() implies (
                #[trigger] spans[k]).1 <= (#[trigger] spans[l]).0 by {
                    assert(spans[l] == rest[l - 1]);
                    if k > 0 {
                        assert(spans[k] == rest[k - 1]);
                    }
                }
            }
            assert forall|k: int| 0 <= k < ws.len() implies #[trigger] ws[k] == spelling(
                s,
                spans[k].0,
                spans[k].1,
            ) by {
                if k > 0 {
                    assert(ws[k] == words(s, j)[k - 1]);
                }
            }
            assert forall|p: int| i <= p < s.len() implies ((#[trigger] s[p]).alphanumeric
                <==> is_covered(spans, p)) by {
                if p < j {
                    assert(spans[0].0 <= p < spans[0].1);
                } else {
                    if is_covered(rest, p) {
                        let k = choose|k: int|
                            0 <= k < rest.len() && (#[trigger] rest[k]).0 <= p < rest[k].1;
                        assert(spans[k + 1] == rest[k]);
                    }
                    if is_covered(spans, p) {
                        let k = choose|k: int|
                            0 <= k < spans.len() && (#[trigger] spans[k]).0 <= p < spans[k].1;
                        assert(spans[k] == rest[k - 1]);
                    }
                }
            }
            assert forall|p: int|
                i < p < s.len() && s[p - 1].alphanumeric && s[p].alphanumeric implies (
            #[trigger] is_joined(spans, p) <==> !boundary(s, p)) by {
                if p < j {
                    assert(spans[0].0 < p < spans[0].1);
                } else {
                    if is_joined(rest, p) {
                        let k = choose|k: int|
                            0 <= k < rest.len() && (#[trigger] rest[k]).0 < p < rest[k].1;
                        assert(spans[k + 1] == rest[k]);
                    }
                    if is_joined(spans, p) {
                        let k = choose|k: int|
                            0 <= k < spans.len() && (#[trigger] spans[k]).0 < p < spans[k].1;
                        assert(spans[k] == rest[k - 1]);
                        assert(rest[k - 1].0 < p < rest[k - 1].1);
                    }
                    if p == j {
                        if is_joined(rest, p) {
                            let k = choose|k: int|
                                0 <= k < rest.len() && (#[trigger] rest[k]).0 < p < rest[k].1;
                            assert(rest[k].0 >= j);
                        }
                    }
                }
            }
        }
    } else {
        assert(spans =~= Seq::empty());
    }
}

proof fn lemma_spelling_folds(s: Seq<char>, i: int, j: int)
    requires
        0 <= i <= j <= s.len(),
    ensures
        spelling(letters(s), i, j) == folded(s.subrange(i, j)),
    decreases j - i,
{
    if i < j {
        lemma_spelling_folds(s, i, j - 1);
        assert(s.subrange(i, j).drop_last() =~= s.subrange(i, j - 1));
        let a = lowered(s.subrange(i, j - 1));
        let b = crate::unicode::char_lowered(s[j - 1]);
        assert(yo(a + b) =~= yo(a) + yo(b));
    } else {
        assert(folded(s.subrange(i, j)) =~= Seq::empty());
    }
}

/// The words of an identifier are stretches of it in their folded form, in their order.
/// Letters and digits stand in words, other characters do not. Two neighbours of which
/// both stand in words are in one word, unless a small letter comes before a capital, a
/// letter beside a digit, a Cyrillic letter beside another, or the second of two capitals
/// before a small letter, whatever the alphabet.
pub proof fn law_words_of_identifier(s: Seq<char>) -> (spans: Seq<(int, int)>)
    ensures
        in_a_row(spans, 0, s.len() as int),
        words(letters(s), 0).len() == spans.len(),
        forall|k: int|
            0 <= k < spans.len() ==> words(letters(s), 0)[k] == folded(
                s.subrange((#[trigger] spans[k]).0, spans[k].1),
            ),
        forall|i: int|
            0 <= i < s.len() ==> (crate::unicode::alphanumeric(#[trigger] s[i]) <==> is_covered(
                spans,
                i,
            )),
        forall|i: int|
            0 < i < s.len() && crate::unicode::alphanumeric(s[i - 1])
                && crate::unicode::alphanumeric(s[i]) ==> (#[trigger] is_joined(spans, i) <==> {
                &&& !(crate::unicode::lowercase(s[i - 1]) && crate::unicode::uppercase(s[i]))
                &&& crate::unicode::alphabetic(s[i - 1]) == crate::unicode::alphabetic(s[i])
                &&& crate::unicode::alphabetic(s[i]) ==> cyrillic(s[i - 1]) == cyrillic(s[i])
                &&& !(crate::unicode::uppercase(s[i - 1]) && crate::unicode::uppercase(s[i]) && i
                    + 1 < s.len() && crate::unicode::lowercase(s[i + 1]))
            }),
{
    let m = letters(s);
    let spans = word_spans(m, 0);
    lemma_word_spans(m, 0);
    assert forall|k: int| 0 <= k < spans.len() implies words(m, 0)[k] == folded(
        s.subrange((#[trigger] spans[k]).0, spans[k].1),
    ) by {
        lemma_spelling_folds(s, spans[k].0, spans[k].1);
        assert(words(m, 0)[k] == spelling(m, spans[k].0, spans[k].1));
    }
    assert forall|i: int| 0 <= i < s.len() implies (crate::unicode::alphanumeric(
        #[trigger] s[i],
    ) <==> is_covered(spans, i)) by {
        assert(m[i].alphanumeric == crate::unicode::alphanumeric(s[i]));
    }
    spans
}

/// Folding goes letter by letter: every letter of the lower case form stays, but for `ё`,
/// which becomes `е`.
pub proof fn law_folding(a: Seq<char>, c: char)
    ensures
        folded(Seq::empty()) == Seq::<char>::empty(),
        folded(a.push(c)).len() == folded(a).len() + crate::unicode::char_lowered(c).len(),
        folded(a).is_prefix_of(folded(a.push(c))),
        forall|k: int|
            0 <= k < crate::unicode::char_lowered(c).len() ==> #[trigger] folded(
                a.push(c),
            )[folded(a).len() + k] == if crate::unicode::char_lowered(c)[k] == 'ё' {
                'е'
            } else {
                crate::unicode::char_lowered(c)[k]
            },
{
    let b = crate::unicode::char_lowered(c);
    assert(a.push(c).drop_last() =~= a);
    assert(lowered(a.push(c)) == lowered(a) + b);
    assert(folded(a.push(c)) =~= folded(a) + yo(b));
    assert(folded(Seq::<char>::empty()) =~= Seq::empty());
}

/// The Cyrillic letters are the characters of the Cyrillic blocks and two others, without
/// the signs and marks among them. So the letters of the Russian alphabet are Cyrillic and
/// the characters of ASCII are not.
pub proof fn law_what_is_cyrillic(c: char)
    ensures
        'а' <= c <= 'я' || 'А' <= c <= 'Я' || c == 'ё' || c == 'Ё' ==> cyrillic(c),
        c <= '\u{7f}' ==> !cyrillic(c),
        cyrillic(c) <==> ('\u{400}' <= c <= '\u{52f}' || '\u{1c80}' <= c <= '\u{1c8a}' || c
            == '\u{1d2b}' || c == '\u{1d78}' || '\u{a640}' <= c <= '\u{a69f}' || '\u{1e030}' <= c
            <= '\u{1e06d}') && !('\u{482}' <= c <= '\u{489}') && !('\u{a66f}' <= c <= '\u{a67e}')
            && c != '\u{a69e}' && c != '\u{a69f}',
{
}

/// Only `ё` is folded, and only to `е`: every other character stays in its place.
pub proof fn law_yo(s: Seq<char>, k: int)
    requires
        0 <= k < s.len(),
    ensures
        yo(s).len() == s.len(),
        s[k] == 'ё' ==> yo(s)[k] == 'е',
        s[k] != 'ё' ==> yo(s)[k] == s[k],
{
}

} // verus!
