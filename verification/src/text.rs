use vstd::prelude::*;
use crate::scan::{first_where, lemma_first_where, lemma_first_where_is};

verus! {

/// The characters at which a text is cut into words.
pub open spec fn is_separator(c: char) -> bool {
    c == ' ' || c == ',' || c == '.' || c == '!' || c == '?' || c == ';' || c == '\'' || c == '"'
        || c == ':' || c == '\t' || c == '\n' || c == '(' || c == ')' || c == '-'
}

/// The length of the longest prefix of `s` that holds no separator.
pub open spec fn word_len(s: Seq<char>) -> nat {
    first_where(s, |c: char| is_separator(c))
}

/// The first word of a text that begins with one is not empty, and ends within the text.
pub proof fn lemma_word_len_bounds(s: Seq<char>)
    ensures
        word_len(s) <= s.len(),
        s.len() > 0 && !is_separator(s[0]) ==> word_len(s) >= 1,
{
    lemma_first_where(s, |c: char| is_separator(c));
}

/// The words of `s`: its maximal runs of characters that are not separators, in order.
pub open spec fn words(s: Seq<char>) -> Seq<Seq<char>>
    decreases s.len(),
{
    if s.len() == 0 {
        Seq::empty()
    } else if is_separator(s[0]) {
        words(s.drop_first())
    } else {
        proof {
            lemma_word_len_bounds(s);
        }
        seq![s.take(word_len(s) as int)].add(words(s.skip(word_len(s) as int)))
    }
}

/// The given words with one space between each two neighbours.
pub open spec fn joined(parts: Seq<Seq<char>>) -> Seq<char>
    decreases parts.len(),
{
    if parts.len() == 0 {
        Seq::empty()
    } else if parts.len() == 1 {
        parts[0]
    } else {
        joined(parts.drop_last()).push(' ').add(parts.last())
    }
}

/// The views of a sequence of strings.
pub open spec fn views(strings: Seq<String>) -> Seq<Seq<char>> {
    strings.map_values(|s: String| s@)
}

/// `s` in Unicode Normalization Form C.
pub uninterp spec fn nfc_form(s: Seq<char>) -> Seq<char>;

/// The lowercase equivalent of `s` under Unicode's full case mapping.
pub uninterp spec fn lowercase_form(s: Seq<char>) -> Seq<char>;

/// The words of `s` joined again by single spaces.
pub open spec fn rejoined(s: Seq<char>) -> Seq<char> {
    joined(words(s))
}

/// The canonical form under which phrases are stored and looked up.
pub open spec fn normal_form(s: Seq<char>) -> Seq<char> {
    lowercase_form(nfc_form(rejoined(s)))
}

/// Calls `natural::tokenize::tokenize`, which splits the text at every separator
/// and drops the empty pieces; each piece is copied into a `String` of its own.
#[verifier::external_body]
fn split_words(text: &str) -> (parts: Vec<String>)
    ensures
        views(parts@) == words(text@),
{
    natural::tokenize::tokenize(text).into_iter().map(|w| w.to_string()).collect()
}

/// Calls `unicode_normalization::UnicodeNormalization::nfc` on the text and collects
/// what it yields; the result is named, not described.
#[verifier::external_body]
fn compose(text: &str) -> (composed: String)
    ensures
        composed@ == nfc_form(text@),
{
    unicode_normalization::UnicodeNormalization::nfc(text).collect()
}

/// Calls `str::to_lowercase`; the result is named, not described.
#[verifier::external_body]
fn lowercase(text: &str) -> (lowered: String)
    ensures
        lowered@ == lowercase_form(text@),
{
    text.to_lowercase()
}

/// Joins the words with single spaces.
pub fn join_words(parts: &Vec<String>) -> (text: String)
    ensures
        text@ == joined(views(parts@)),
{
    let mut text = String::new();
    let mut i: usize = 0;
    while i < parts.len()
        invariant
            i <= parts.len(),
            text@ == joined(views(parts@).take(i as int)),
        decreases parts.len() - i,
    {
        let ghost before = views(parts@).take(i as int);
        let ghost after = views(parts@).take(i + 1);
        proof {
            reveal_strlit(" ");
            assert(after.drop_last() == before);
            assert(after.last() == parts@[i as int]@);
        }
        if i > 0 {
            text.append(" ");
        }
        text.append(parts[i].as_str());
        proof {
            if i == 0 {
                assert(before.len() == 0);
                assert(text@ == parts@[0]@);
            } else {
                assert(" "@ == seq![' ']);
                assert(text@ == joined(before).push(' ').add(parts@[i as int]@));
            }
        }
        i += 1;
    }
    proof {
        assert(views(parts@).take(parts.len() as int) == views(parts@));
    }
    text
}

/// Puts a text into its normal form: cut into words, joined again with single
/// spaces, composed, lowercased.
pub fn normalize(text: &str) -> (normal: String)
    ensures
        normal@ == normal_form(text@),
{
    let parts = split_words(text);
    let joined = join_words(&parts);
    let composed = compose(joined.as_str());
    lowercase(composed.as_str())
}

/// Whether `w` can be a word: it is not empty and holds no separator.
pub open spec fn is_word(w: Seq<char>) -> bool {
    w.len() > 0 && forall|k: int| 0 <= k < w.len() ==> !is_separator(#[trigger] w[k])
}

/// Every word of a text is not empty and holds no separator.
pub proof fn lemma_words_are_words(s: Seq<char>)
    ensures
        forall|i: int| 0 <= i < words(s).len() ==> is_word(#[trigger] words(s)[i]),
    decreases s.len(),
{
    if s.len() == 0 {
        assert(words(s).len() == 0);
    } else if is_separator(s[0]) {
        lemma_words_are_words(s.drop_first());
        assert(words(s) == words(s.drop_first()));
    } else {
        let n = word_len(s) as int;
        lemma_first_where(s, |c: char| is_separator(c));
        lemma_words_are_words(s.skip(n));
        assert(words(s) == seq![s.take(n)].add(words(s.skip(n))));
        let first = s.take(n);
        assert forall|k: int| 0 <= k < first.len() implies !is_separator(#[trigger] first[k]) by {
            assert(first[k] == s[k]);
        }
        assert(is_word(first));
        assert forall|i: int| 0 <= i < words(s).len() implies is_word(#[trigger] words(s)[i]) by {
            if i > 0 {
                assert(words(s)[i] == words(s.skip(n))[i - 1]);
            } else {
                assert(words(s)[0] == first);
            }
        }
    }
}

/// The words of a single word are that word alone.
pub proof fn lemma_words_of_word(w: Seq<char>)
    requires
        is_word(w),
    ensures
        words(w) == seq![w],
{
    lemma_first_where_is(w, |c: char| is_separator(c), w.len() as int);
    assert(w.take(w.len() as int) == w);
    assert(w.skip(w.len() as int).len() == 0);
    assert(words(w.skip(w.len() as int)) == Seq::<Seq<char>>::empty());
    assert(seq![w].add(Seq::<Seq<char>>::empty()) == seq![w]);
}

/// A word that follows a text and a space is one more word after the words of the text.
pub proof fn lemma_words_of_appended(a: Seq<char>, w: Seq<char>)
    requires
        is_word(w),
    ensures
        words(a.push(' ').add(w)) == words(a).push(w),
    decreases a.len(),
{
    let whole = a.push(' ').add(w);
    if a.len() == 0 {
        assert(whole.drop_first() == w);
        lemma_words_of_word(w);
        assert(words(a) == Seq::<Seq<char>>::empty());
        assert(Seq::<Seq<char>>::empty().push(w) == seq![w]);
    } else if is_separator(a[0]) {
        assert(whole[0] == a[0]);
        assert(whole.drop_first() == a.drop_first().push(' ').add(w));
        lemma_words_of_appended(a.drop_first(), w);
    } else {
        let n = word_len(a) as int;
        lemma_first_where(a, |c: char| is_separator(c));
        assert(whole[0] == a[0]);
        assert forall|k: int| 0 <= k < n implies !is_separator(#[trigger] whole[k]) by {
            assert(whole[k] == a[k]);
        }
        if n < a.len() {
            assert(whole[n] == a[n]);
        } else {
            assert(whole[n] == ' ');
        }
        lemma_first_where_is(whole, |c: char| is_separator(c), n);
        assert(whole.take(n) == a.take(n));
        assert(whole.skip(n) == a.skip(n).push(' ').add(w));
        lemma_words_of_appended(a.skip(n), w);
        assert(seq![a.take(n)].add(words(a.skip(n)).push(w)) == seq![a.take(n)].add(
            words(a.skip(n)),
        ).push(w));
    }
}

/// Words that are joined come apart again as they were.
pub proof fn lemma_words_of_joined(parts: Seq<Seq<char>>)
    requires
        forall|i: int| 0 <= i < parts.len() ==> is_word(#[trigger] parts[i]),
    ensures
        words(joined(parts)) == parts,
    decreases parts.len(),
{
    if parts.len() == 0 {
        assert(parts == Seq::<Seq<char>>::empty());
    } else if parts.len() == 1 {
        lemma_words_of_word(parts[0]);
        assert(parts == seq![parts[0]]);
    } else {
        let front = parts.drop_last();
        assert forall|i: int| 0 <= i < front.len() implies is_word(#[trigger] front[i]) by {
            assert(front[i] == parts[i]);
        }
        lemma_words_of_joined(front);
        lemma_words_of_appended(joined(front), parts.last());
        assert(front.push(parts.last()) == parts);
    }
}

/// Cutting a text into words and joining them again is idempotent: the joined words have
/// the same words.
pub proof fn lemma_rejoin_idempotent(s: Seq<char>)
    ensures
        words(rejoined(s)) == words(s),
        rejoined(rejoined(s)) == rejoined(s),
{
    lemma_words_are_words(s);
    lemma_words_of_joined(words(s));
}

/// Normalizing a normal form again changes nothing, for every text whose joined words
/// are composed and lowercase as they stand.
pub proof fn lemma_normalize_idempotent_on_plain(s: Seq<char>)
    requires
        nfc_form(rejoined(s)) == rejoined(s),
        lowercase_form(rejoined(s)) == rejoined(s),
    ensures
        normal_form(s) == rejoined(s),
        normal_form(normal_form(s)) == normal_form(s),
{
    lemma_rejoin_idempotent(s);
}

/// Normalizing a normal form again changes nothing, for every text whose normal form
/// each of the three stages leaves as it is: it is its own words joined, it is composed,
/// and it is lowercase.
pub proof fn lemma_normalize_idempotent(s: Seq<char>)
    requires
        rejoined(normal_form(s)) == normal_form(s),
        nfc_form(normal_form(s)) == normal_form(s),
        lowercase_form(normal_form(s)) == normal_form(s),
    ensures
        normal_form(normal_form(s)) == normal_form(s),
{
}

/// Two texts with the same words have the same normal form: which separators stand
/// between the words, and how many, makes no difference.
pub proof fn lemma_normal_form_of_same_words(a: Seq<char>, b: Seq<char>)
    requires
        words(a) == words(b),
    ensures
        normal_form(a) == normal_form(b),
{
}

/// Two texts that differ in composition alone, once their words are joined, have the same
/// normal form.
pub proof fn lemma_normal_form_of_equivalent(a: Seq<char>, b: Seq<char>)
    requires
        nfc_form(rejoined(a)) == nfc_form(rejoined(b)),
    ensures
        normal_form(a) == normal_form(b),
{
}

} // verus!
