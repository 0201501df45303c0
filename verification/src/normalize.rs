//! Text normalization shared by metrics and by votes over answers.
use vstd::prelude::*;
use vstd::string::StringExecFns;
use unicode_normalization::UnicodeNormalization;
use crate::text::{
    ascii_lower, chars_of, is_ascii_capital, is_ascii_punctuation, is_ascii_text,
    is_letter_or_digit, is_white_space, join, joined, letter_or_digit, lowercase, same_text,
    split_whitespace, text_of, to_lowercase, trimmed_start, word_length, words,
};

verus! {

/// The canonical decomposition of a text, as the Unicode standard defines normalization form D.
pub uninterp spec fn decomposed(text: Seq<char>) -> Seq<char>;

/// `UnicodeNormalization::nfd` of the `unicode-normalization` crate, collected into a string. Its
/// result is a function of the text alone, and goes by the name [`decomposed`]; which characters
/// decompose into which is the crate's own table, where no ASCII character decomposes.
#[verifier::external_body]
fn nfd(text: &str) -> (r: String)
    ensures
        r@ == decomposed(text@),
        is_ascii_text(text@) ==> r@ == text@,
{
    text.nfd().collect::<String>()
}

/// Whether a character is part of a word: a letter, a digit or an underscore.
pub open spec fn is_word(c: char) -> bool {
    is_letter_or_digit(c) || c == '_'
}

/// How many characters the word that opens a text has.
pub open spec fn opening_word(s: Seq<char>) -> nat
    decreases s.len(),
{
    if s.len() > 0 && is_word(s[0]) {
        1 + opening_word(s.skip(1))
    } else {
        0
    }
}

/// The word that opens a text is no longer than the text.
pub proof fn lemma_opening_word(s: Seq<char>)
    ensures
        opening_word(s) <= s.len(),
    decreases s.len(),
{
    if s.len() > 0 && is_word(s[0]) {
        lemma_opening_word(s.skip(1));
    }
}

/// Whether a word is an English article.
pub open spec fn is_article(word: Seq<char>) -> bool {
    word == "a"@ || word == "an"@ || word == "the"@
}

/// A text with a space in place of every word that is an article.
pub open spec fn without_articles(s: Seq<char>) -> Seq<char>
    decreases s.len(),
{
    if s.len() == 0 {
        Seq::empty()
    } else {
        proof {
            lemma_opening_word(s);
        }
        let n = opening_word(s);
        if n == 0 {
            seq![s[0]] + without_articles(s.skip(1))
        } else {
            (if is_article(s.take(n as int)) {
                seq![' ']
            } else {
                s.take(n as int)
            }) + without_articles(s.skip(n as int))
        }
    }
}

/// A text without ASCII punctuation.
pub open spec fn unpunctuated(s: Seq<char>) -> Seq<char> {
    s.filter(|c: char| !is_ascii_punctuation(c))
}

/// A folded text without punctuation and articles, its words one space apart.
pub open spec fn tidied(folded: Seq<char>) -> Seq<char> {
    joined(words(without_articles(unpunctuated(folded))), " "@)
}

fn punctuates(c: char) -> (r: bool)
    ensures
        r == is_ascii_punctuation(c),
{
    let u: u32 = c as u32;
    (0x21 <= u && u <= 0x2f) || (0x3a <= u && u <= 0x40) || (0x5b <= u && u <= 0x60) || (0x7b <= u
        && u <= 0x7e)
}

fn drop_punctuation(text: &str) -> (r: Vec<char>)
    ensures
        r@ == unpunctuated(text@),
{
    let chars = chars_of(text);
    let ghost keep = |c: char| !is_ascii_punctuation(c);
    let mut r: Vec<char> = Vec::new();
    let mut i: usize = 0;
    proof {
        reveal(Seq::filter);
        assert(r@ =~= chars@.take(0).filter(keep));
    }
    while i < chars.len()
        invariant
            i <= chars@.len(),
            keep == (|c: char| !is_ascii_punctuation(c)),
            r@ == chars@.take(i as int).filter(keep),
        decreases chars@.len() - i,
    {
        proof {
            assert(chars@.take(i + 1).drop_last() =~= chars@.take(i as int));
            reveal(Seq::filter);
        }
        if !punctuates(chars[i]) {
            r.push(chars[i]);
        }
        i = i + 1;
    }
    proof {
        assert(chars@.take(i as int) =~= chars@);
    }
    r
}

fn of_a_word(c: char) -> (r: bool)
    ensures
        r == is_word(c),
{
    letter_or_digit(c) || c == '_'
}

fn names_an_article(word: &str) -> (r: bool)
    ensures
        r == is_article(word@),
{
    same_text(word, "a") || same_text(word, "an") || same_text(word, "the")
}

fn remove_articles(chars: &Vec<char>) -> (r: String)
    ensures
        r@ == without_articles(chars@),
{
    let mut normalized: String = String::new();
    let mut at: usize = 0;
    proof {
        assert(chars@.skip(0) =~= chars@);
        assert(normalized@ + without_articles(chars@) =~= without_articles(chars@));
    }
    while at < chars.len()
        invariant
            at <= chars@.len(),
            without_articles(chars@) == normalized@ + without_articles(chars@.skip(at as int)),
        decreases chars@.len() - at,
    {
        let ghost rest = chars@.skip(at as int);
        let ghost done = normalized@;
        let mut end: usize = at;
        while end < chars.len() && of_a_word(chars[end])
            invariant
                at <= end <= chars@.len(),
                rest == chars@.skip(at as int),
                opening_word(rest) == (end - at) + opening_word(chars@.skip(end as int)),
            decreases chars@.len() - end,
        {
            proof {
                assert(chars@.skip(end as int).skip(1) =~= chars@.skip(end + 1));
                assert(chars@.skip(end as int)[0] == chars@[end as int]);
            }
            end = end + 1;
        }
        proof {
            if end < chars@.len() {
                assert(chars@.skip(end as int)[0] == chars@[end as int]);
            }
            assert(opening_word(rest) == end - at);
            assert(rest[0] == chars@[at as int]);
        }
        if end == at {
            normalized.push(chars[at]);
            proof {
                assert(rest.skip(1) =~= chars@.skip(at + 1));
                assert(done + (seq![rest[0]] + without_articles(rest.skip(1)))
                    =~= normalized@ + without_articles(rest.skip(1)));
            }
            at = at + 1;
        } else {
            let word = text_of(chars, at, end);
            proof {
                let n = end - at;
                assert(rest.skip(n) =~= chars@.skip(end as int));
                assert(word@ =~= rest.take(n));
            }
            if names_an_article(word.as_str()) {
                normalized.push(' ');
                proof {
                    assert(done + (seq![' '] + without_articles(chars@.skip(end as int)))
                        =~= normalized@ + without_articles(chars@.skip(end as int)));
                }
            } else {
                normalized.append(word.as_str());
                proof {
                    assert(done + (word@ + without_articles(chars@.skip(end as int)))
                        =~= normalized@ + without_articles(chars@.skip(end as int)));
                }
            }
            at = end;
        }
    }
    proof {
        assert(chars@.skip(at as int).len() == 0);
        assert(normalized@ + Seq::<char>::empty() =~= normalized@);
    }
    normalized
}

/// A folded text without punctuation and articles, its words one space apart.
pub fn tidy(folded: &str) -> (r: String)
    ensures
        r@ == tidied(folded@),
{
    let kept = drop_punctuation(folded);
    let plain = remove_articles(&kept);
    let parts = split_whitespace(plain.as_str());
    join(&parts, " ")
}

/// A text with every ASCII capital as its small letter.
pub open spec fn lowered(text: Seq<char>) -> Seq<char> {
    Seq::new(text.len(), |i: int| ascii_lower(text[i]))
}

/// Whether every character of a text is one of these.
pub open spec fn made_of(s: Seq<char>, allowed: spec_fn(char) -> bool) -> bool {
    forall|i: int| 0 <= i < s.len() ==> allowed(#[trigger] s[i])
}

/// Whether the characters of a text from `i` to `j` are a word that no further character of the
/// text belongs to.
pub open spec fn is_whole_word(s: Seq<char>, i: int, j: int) -> bool {
    &&& 0 <= i < j <= s.len()
    &&& forall|k: int| i <= k < j ==> is_word(#[trigger] s[k])
    &&& i > 0 ==> !is_word(s[i - 1])
    &&& j < s.len() ==> !is_word(s[j])
}

/// Whether a text holds an article as a word of its own.
pub open spec fn holds_article(s: Seq<char>) -> bool {
    exists|i: int, j: int| #[trigger] is_whole_word(s, i, j) && is_article(s.subrange(i, j))
}

/// Whether a text has the form answers are compared in: no ASCII punctuation, no ASCII capital, no
/// article, and its words one space apart.
pub open spec fn is_normal(s: Seq<char>) -> bool {
    &&& made_of(s, |c: char| !is_ascii_punctuation(c))
    &&& made_of(s, |c: char| !is_ascii_capital(c))
    &&& !holds_article(s)
    &&& joined(words(s), " "@) == s
}

/// A text in the form answers are compared in: decomposed, in lower case, without ASCII
/// punctuation and English articles, its words one space apart. Normalizing an ASCII text again
/// changes nothing.
pub fn normalize_text(text: &str) -> (r: String)
    ensures
        r@ == tidied(lowercase(decomposed(text@))),
        is_normal(r@),
        is_ascii_text(text@) ==> r@ == tidied(lowered(text@)),
        is_ascii_text(text@) ==> is_ascii_text(r@) && tidied(lowered(r@)) == r@,
{
    let folded = to_lowercase(nfd(text).as_str());
    proof {
        law_a_tidied_text_is_plain(folded@, |c: char| !is_ascii_capital(c));
        law_tidying_again_changes_nothing(folded@);
        if is_ascii_text(text@) {
            law_a_normalized_text_is_normal(text@);
        }
    }
    tidy(folded.as_str())
}

proof fn lemma_made_of_parts(a: Seq<char>, b: Seq<char>, allowed: spec_fn(char) -> bool)
    ensures
        made_of(a + b, allowed) <==> made_of(a, allowed) && made_of(b, allowed),
{
    if made_of(a + b, allowed) {
        assert forall|i: int| 0 <= i < a.len() implies allowed(#[trigger] a[i]) by {
            assert((a + b)[i] == a[i]);
        }
        assert forall|i: int| 0 <= i < b.len() implies allowed(#[trigger] b[i]) by {
            assert((a + b)[a.len() + i] == b[i]);
        }
    }
}

proof fn lemma_unpunctuated_made_of(s: Seq<char>, allowed: spec_fn(char) -> bool)
    requires
        made_of(s, allowed),
    ensures
        made_of(unpunctuated(s), allowed),
        made_of(unpunctuated(s), |c: char| !is_ascii_punctuation(c)),
    decreases s.len(),
{
    reveal(Seq::filter);
    if s.len() > 0 {
        let before = s.drop_last();
        assert forall|i: int| 0 <= i < before.len() implies allowed(#[trigger] before[i]) by {
            assert(s[i] == before[i]);
        }
        lemma_unpunctuated_made_of(before, allowed);
        assert(allowed(s[s.len() - 1]));
    }
}

proof fn lemma_unpunctuated_keeps(s: Seq<char>)
    requires
        made_of(s, |c: char| !is_ascii_punctuation(c)),
    ensures
        unpunctuated(s) == s,
    decreases s.len(),
{
    reveal(Seq::filter);
    if s.len() > 0 {
        let before = s.drop_last();
        assert forall|i: int| 0 <= i < before.len() implies !is_ascii_punctuation(
            #[trigger] before[i],
        ) by {
            assert(s[i] == before[i]);
        }
        lemma_unpunctuated_keeps(before);
        assert(!is_ascii_punctuation(s[s.len() - 1]));
        assert(before.push(s.last()) =~= s);
    } else {
        assert(unpunctuated(s) =~= s);
    }
}

proof fn lemma_without_articles_made_of(s: Seq<char>, allowed: spec_fn(char) -> bool)
    requires
        made_of(s, allowed),
        allowed(' '),
    ensures
        made_of(without_articles(s), allowed),
        without_articles(s).len() <= s.len(),
    decreases s.len(),
{
    if s.len() > 0 {
        lemma_opening_word(s);
        let n = opening_word(s) as int;
        let head = if n == 0 {
            1
        } else {
            n
        };
        assert(s =~= s.take(head) + s.skip(head));
        lemma_made_of_parts(s.take(head), s.skip(head), allowed);
        lemma_without_articles_made_of(s.skip(head), allowed);
        let first = if n == 0 {
            seq![s[0]]
        } else if is_article(s.take(n)) {
            seq![' ']
        } else {
            s.take(n)
        };
        assert(allowed(s[0]));
        lemma_made_of_parts(first, without_articles(s.skip(head)), allowed);
    }
}

proof fn lemma_trimmed_start_made_of(s: Seq<char>, allowed: spec_fn(char) -> bool)
    requires
        made_of(s, allowed),
    ensures
        made_of(trimmed_start(s), allowed),
        trimmed_start(s).len() <= s.len(),
        trimmed_start(s).len() > 0 ==> !is_white_space(trimmed_start(s)[0]),
    decreases s.len(),
{
    if s.len() > 0 && is_white_space(s[0]) {
        assert(s =~= s.take(1) + s.skip(1));
        lemma_made_of_parts(s.take(1), s.skip(1), allowed);
        lemma_trimmed_start_made_of(s.skip(1), allowed);
    }
}

proof fn lemma_word_is_solid(s: Seq<char>)
    ensures
        word_length(s) <= s.len(),
        made_of(s.take(word_length(s) as int), |c: char| !is_white_space(c)),
        word_length(s) < s.len() ==> is_white_space(s[word_length(s) as int]),
    decreases s.len(),
{
    if s.len() > 0 && !is_white_space(s[0]) {
        let rest = s.skip(1);
        lemma_word_is_solid(rest);
        let n = word_length(s) as int;
        assert forall|i: int| 0 <= i < n implies !is_white_space(#[trigger] s.take(n)[i]) by {
            if i > 0 {
                assert(rest.take(n - 1)[i - 1] == s[i]);
            }
        }
    }
}

/// Whether these are words: none of them empty, and no white space in any.
pub open spec fn are_words(parts: Seq<Seq<char>>) -> bool {
    forall|i: int|
        0 <= i < parts.len() ==> (#[trigger] parts[i]).len() > 0 && made_of(
            parts[i],
            |c: char| !is_white_space(c),
        )
}

proof fn lemma_words_made_of(s: Seq<char>, allowed: spec_fn(char) -> bool)
    requires
        made_of(s, allowed),
    ensures
        are_words(words(s)),
        forall|i: int| 0 <= i < words(s).len() ==> made_of(#[trigger] words(s)[i], allowed),
    decreases s.len(),
{
    let t = trimmed_start(s);
    lemma_trimmed_start_made_of(s, allowed);
    if t.len() > 0 {
        let n = word_length(t) as int;
        lemma_word_is_solid(t);
        assert(n > 0);
        assert(t =~= t.take(n) + t.skip(n));
        lemma_made_of_parts(t.take(n), t.skip(n), allowed);
        lemma_words_made_of(t.skip(n), allowed);
        let all = words(s);
        assert(all =~= seq![t.take(n)] + words(t.skip(n)));
        assert forall|i: int| 0 <= i < all.len() implies (#[trigger] all[i]).len() > 0 && made_of(
            all[i],
            |c: char| !is_white_space(c),
        ) && made_of(all[i], allowed) by {
            if i > 0 {
                assert(all[i] == words(t.skip(n))[i - 1]);
            }
        }
    }
}

proof fn lemma_joined_made_of(parts: Seq<Seq<char>>, allowed: spec_fn(char) -> bool)
    requires
        forall|i: int| 0 <= i < parts.len() ==> made_of(#[trigger] parts[i], allowed),
        allowed(' '),
    ensures
        made_of(joined(parts, " "@), allowed),
    decreases parts.len(),
{
    reveal_strlit(" ");
    if parts.len() == 1 {
        assert(made_of(parts[0], allowed));
    } else if parts.len() > 1 {
        let before = parts.drop_last();
        assert forall|i: int| 0 <= i < before.len() implies made_of(
            #[trigger] before[i],
            allowed,
        ) by {
            assert(before[i] == parts[i]);
        }
        lemma_joined_made_of(before, allowed);
        assert(made_of(parts[parts.len() - 1], allowed));
        lemma_made_of_parts(joined(before, " "@), " "@, allowed);
        lemma_made_of_parts(joined(before, " "@) + " "@, parts.last(), allowed);
    }
}

proof fn lemma_joined_front(parts: Seq<Seq<char>>)
    requires
        parts.len() > 1,
    ensures
        joined(parts, " "@) == parts[0] + " "@ + joined(parts.skip(1), " "@),
    decreases parts.len(),
{
    let before = parts.drop_last();
    if parts.len() > 2 {
        lemma_joined_front(before);
        assert(before.skip(1) =~= parts.skip(1).drop_last());
        assert(parts.skip(1).last() == parts.last());
        let inner = joined(before.skip(1), " "@);
        assert(before[0] == parts[0]);
        assert(joined(parts.skip(1), " "@) == inner + " "@ + parts.last());
        assert(parts[0] + " "@ + inner + " "@ + parts.last() =~= parts[0] + " "@ + (inner + " "@
            + parts.last()));
    } else {
        assert(before =~= seq![parts[0]]);
        assert(parts.skip(1) =~= seq![parts.last()]);
        assert(joined(before, " "@) == parts[0]);
        assert(joined(parts.skip(1), " "@) == parts.last());
    }
}

proof fn lemma_word_length_of(word: Seq<char>, rest: Seq<char>)
    requires
        made_of(word, |c: char| !is_white_space(c)),
        rest.len() > 0 ==> is_white_space(rest[0]),
    ensures
        word_length(word + rest) == word.len(),
    decreases word.len(),
{
    if word.len() > 0 {
        let s = word + rest;
        assert(!is_white_space(word[0]));
        assert(s[0] == word[0]);
        let tail = word.skip(1);
        assert forall|i: int| 0 <= i < tail.len() implies !is_white_space(#[trigger] tail[i]) by {
            assert(!is_white_space(word[i + 1]));
        }
        assert(s.skip(1) =~= tail + rest);
        lemma_word_length_of(tail, rest);
    } else {
        assert(word + rest =~= rest);
    }
}

/// Words joined by single spaces are the words of what they were joined to.
pub proof fn law_joined_words_are_read_back(parts: Seq<Seq<char>>)
    requires
        are_words(parts),
    ensures
        words(joined(parts, " "@)) == parts,
    decreases parts.len(),
{
    reveal_strlit(" ");
    let s = joined(parts, " "@);
    if parts.len() == 0 {
        assert(trimmed_start(s) =~= s);
        assert(words(s) =~= parts);
    } else {
        let word = parts[0];
        let tail = parts.skip(1);
        assert(word.len() > 0);
        assert(!is_white_space(word[0]));
        assert forall|i: int| 0 <= i < tail.len() implies (#[trigger] tail[i]).len() > 0 && made_of(
            tail[i],
            |c: char| !is_white_space(c),
        ) by {
            assert(tail[i] == parts[i + 1]);
        }
        law_joined_words_are_read_back(tail);
        let after = if parts.len() == 1 {
            Seq::<char>::empty()
        } else {
            " "@ + joined(tail, " "@)
        };
        if parts.len() == 1 {
            assert(tail =~= Seq::empty());
            assert(s =~= word + after);
        } else {
            lemma_joined_front(parts);
            assert(s =~= word + after);
        }
        lemma_word_length_of(word, after);
        assert(s[0] == word[0]);
        assert(trimmed_start(s) == s);
        assert(s.take(word.len() as int) =~= word);
        assert(s.skip(word.len() as int) =~= after);
        if parts.len() > 1 {
            assert(after.skip(1) =~= joined(tail, " "@));
            assert(trimmed_start(after) == trimmed_start(after.skip(1)));
            assert(words(after) == words(joined(tail, " "@)));
        } else {
            assert(trimmed_start(after) =~= after);
            assert(words(after) =~= tail);
        }
        assert(words(s) =~= seq![word] + tail);
        assert(seq![word] + tail =~= parts);
    }
}

proof fn lemma_opening_word_stops(a: Seq<char>, c: char, b: Seq<char>)
    requires
        !is_word(c),
    ensures
        opening_word(a + seq![c] + b) == opening_word(a),
    decreases a.len(),
{
    let s = a + seq![c] + b;
    if a.len() > 0 && is_word(a[0]) {
        assert(s.skip(1) =~= a.skip(1) + seq![c] + b);
        lemma_opening_word_stops(a.skip(1), c, b);
    } else if a.len() == 0 {
        assert(s[0] == c);
    }
}

/// Articles are looked for on each side of a character that is no part of a word.
proof fn lemma_without_articles_splits(a: Seq<char>, c: char, b: Seq<char>)
    requires
        !is_word(c),
    ensures
        without_articles(a + seq![c] + b) == without_articles(a) + seq![c] + without_articles(b),
    decreases a.len(),
{
    let s = a + seq![c] + b;
    lemma_opening_word_stops(a, c, b);
    if a.len() == 0 {
        assert(s[0] == c);
        assert(s.skip(1) =~= b);
        assert(without_articles(a) + seq![c] + without_articles(b) =~= seq![c] + without_articles(
            b,
        ));
    } else {
        lemma_opening_word(a);
        let n = opening_word(a) as int;
        let head = if n == 0 {
            1
        } else {
            n
        };
        assert(s.skip(head) =~= a.skip(head) + seq![c] + b);
        assert(s.take(head) =~= a.take(head));
        lemma_without_articles_splits(a.skip(head), c, b);
        let first = if n == 0 {
            seq![a[0]]
        } else if is_article(a.take(n)) {
            seq![' ']
        } else {
            a.take(n)
        };
        let left = without_articles(a.skip(head));
        let right = without_articles(b);
        assert(without_articles(s) == first + (left + seq![c] + right));
        assert(first + (left + seq![c] + right) =~= first + left + seq![c] + right);
    }
}

proof fn lemma_opening_word_is_solid(s: Seq<char>)
    ensures
        opening_word(s) <= s.len(),
        made_of(s.take(opening_word(s) as int), |c: char| is_word(c)),
        opening_word(s) < s.len() ==> !is_word(s[opening_word(s) as int]),
    decreases s.len(),
{
    if s.len() > 0 && is_word(s[0]) {
        let rest = s.skip(1);
        lemma_opening_word_is_solid(rest);
        let n = opening_word(s) as int;
        assert forall|i: int| 0 <= i < n implies is_word(#[trigger] s.take(n)[i]) by {
            if i > 0 {
                assert(rest.take(n - 1)[i - 1] == s[i]);
            }
        }
    }
}

proof fn lemma_opening_word_of(word: Seq<char>, rest: Seq<char>)
    requires
        made_of(word, |c: char| is_word(c)),
        rest.len() > 0 ==> !is_word(rest[0]),
    ensures
        opening_word(word + rest) == word.len(),
    decreases word.len(),
{
    if word.len() > 0 {
        let s = word + rest;
        assert(is_word(word[0]));
        assert(s[0] == word[0]);
        let tail = word.skip(1);
        assert forall|i: int| 0 <= i < tail.len() implies is_word(#[trigger] tail[i]) by {
            assert(is_word(word[i + 1]));
        }
        assert(s.skip(1) =~= tail + rest);
        lemma_opening_word_of(tail, rest);
    } else {
        assert(word + rest =~= rest);
    }
}

/// A text without articles has none left to take out.
pub proof fn law_articles_are_taken_out_at_once(s: Seq<char>)
    ensures
        without_articles(without_articles(s)) == without_articles(s),
    decreases s.len(),
{
    let once = without_articles(s);
    if s.len() > 0 {
        lemma_opening_word_is_solid(s);
        let n = opening_word(s) as int;
        if n == 0 {
            law_articles_are_taken_out_at_once(s.skip(1));
            assert(once[0] == s[0]);
            assert(once.skip(1) =~= without_articles(s.skip(1)));
        } else {
            let rest = s.skip(n);
            let after = without_articles(rest);
            law_articles_are_taken_out_at_once(rest);
            if is_article(s.take(n)) {
                assert(!is_word(' '));
                assert(once[0] == ' ');
                assert(once.skip(1) =~= after);
            } else {
                if rest.len() > 0 {
                    assert(rest[0] == s[n]);
                    assert(after[0] == rest[0]);
                } else {
                    assert(after.len() == 0);
                }
                lemma_opening_word_of(s.take(n), after);
                assert(once.take(n) =~= s.take(n));
                assert(once.skip(n) =~= after);
            }
        }
    }
}

proof fn lemma_trimming_leaves_no_article(s: Seq<char>)
    requires
        without_articles(s) == s,
    ensures
        without_articles(trimmed_start(s)) == trimmed_start(s),
        trimmed_start(s).len() <= s.len(),
    decreases s.len(),
{
    if s.len() > 0 && is_white_space(s[0]) {
        assert(!is_word(s[0]));
        let rest = s.skip(1);
        assert(without_articles(s) == seq![s[0]] + without_articles(rest));
        assert(without_articles(rest) =~= without_articles(s).skip(1));
        lemma_trimming_leaves_no_article(rest);
    }
}

proof fn lemma_words_hold_no_article(s: Seq<char>)
    requires
        without_articles(s) == s,
    ensures
        forall|i: int|
            0 <= i < words(s).len() ==> without_articles(#[trigger] words(s)[i]) == words(s)[i],
    decreases s.len(),
{
    let t = trimmed_start(s);
    lemma_trimming_leaves_no_article(s);
    lemma_trimmed_start_made_of(s, |c: char| true);
    if t.len() > 0 {
        let n = word_length(t) as int;
        let word = t.take(n);
        let rest = t.skip(n);
        lemma_word_is_solid(t);
        assert(t =~= word + rest);
        lemma_without_articles_made_of(word, |c: char| true);
        if rest.len() > 0 {
            let c = rest[0];
            let after = rest.skip(1);
            assert(c == t[n]);
            assert(!is_word(c));
            assert(t =~= word + seq![c] + after);
            lemma_without_articles_splits(word, c, after);
            lemma_without_articles_made_of(after, |c: char| true);
            assert(without_articles(word).len() == word.len());
            assert(without_articles(word) =~= without_articles(t).take(n));
            assert(without_articles(after) =~= without_articles(t).skip(n + 1));
            assert(rest =~= seq![c] + after);
            assert(without_articles(rest) =~= rest) by {
                assert(opening_word(rest) == 0);
                assert(rest.skip(1) =~= after);
            }
        } else {
            assert(word =~= t);
            assert(without_articles(rest) =~= rest);
        }
        lemma_words_hold_no_article(rest);
        let all = words(s);
        assert(all =~= seq![word] + words(rest));
        assert forall|i: int| 0 <= i < all.len() implies without_articles(#[trigger] all[i])
            == all[i] by {
            if i > 0 {
                assert(all[i] == words(rest)[i - 1]);
            }
        }
    }
}

proof fn lemma_joined_holds_no_article(parts: Seq<Seq<char>>)
    requires
        forall|i: int|
            0 <= i < parts.len() ==> without_articles(#[trigger] parts[i]) == parts[i],
    ensures
        without_articles(joined(parts, " "@)) == joined(parts, " "@),
    decreases parts.len(),
{
    reveal_strlit(" ");
    if parts.len() == 1 {
        assert(without_articles(parts[0]) == parts[0]);
    } else if parts.len() > 1 {
        let before = parts.drop_last();
        assert forall|i: int| 0 <= i < before.len() implies without_articles(#[trigger] before[i])
            == before[i] by {
            assert(before[i] == parts[i]);
        }
        lemma_joined_holds_no_article(before);
        assert(!is_word(' '));
        assert(" "@ =~= seq![' ']);
        assert(without_articles(parts[parts.len() - 1]) == parts[parts.len() - 1]);
        lemma_without_articles_splits(joined(before, " "@), ' ', parts.last());
    }
}

/// A tidied text has no ASCII punctuation, its words are one space apart, and it holds nothing that
/// the folded text did not, but for spaces.
pub proof fn law_a_tidied_text_is_plain(folded: Seq<char>, allowed: spec_fn(char) -> bool)
    requires
        made_of(folded, allowed),
        allowed(' '),
    ensures
        made_of(tidied(folded), allowed),
        made_of(tidied(folded), |c: char| !is_ascii_punctuation(c)),
        joined(words(tidied(folded)), " "@) == tidied(folded),
{
    let plain = unpunctuated(folded);
    let unarticled = without_articles(plain);
    let unmarked = |c: char| !is_ascii_punctuation(c);
    lemma_unpunctuated_made_of(folded, allowed);
    lemma_without_articles_made_of(plain, allowed);
    lemma_without_articles_made_of(plain, unmarked);
    lemma_words_made_of(unarticled, allowed);
    lemma_words_made_of(unarticled, unmarked);
    lemma_joined_made_of(words(unarticled), allowed);
    lemma_joined_made_of(words(unarticled), unmarked);
    law_joined_words_are_read_back(words(unarticled));
}

proof fn lemma_nothing_to_take_out(s: Seq<char>)
    requires
        without_articles(s) == s,
    ensures
        !holds_article(s),
{
    assert forall|i: int, j: int| #[trigger] is_whole_word(s, i, j) implies !is_article(
        s.subrange(i, j),
    ) by {
        let word = s.subrange(i, j);
        let tail = s.skip(i);
        let after = s.skip(j);
        if i > 0 {
            let head = s.take(i - 1);
            let c = s[i - 1];
            assert(s =~= head + seq![c] + tail);
            lemma_without_articles_splits(head, c, tail);
            lemma_without_articles_made_of(head, |c: char| true);
            lemma_without_articles_made_of(tail, |c: char| true);
            assert(without_articles(tail) =~= without_articles(s).skip(i));
        } else {
            assert(tail =~= s);
        }
        assert(without_articles(tail) == tail);
        assert forall|k: int| 0 <= k < word.len() implies is_word(#[trigger] word[k]) by {
            assert(is_word(s[i + k]));
        }
        if after.len() > 0 {
            assert(after[0] == s[j]);
        }
        assert(tail =~= word + after);
        lemma_opening_word_of(word, after);
        assert(tail.take(j - i) =~= word);
        assert(tail[0] == word[0]);
        if is_article(word) {
            assert(without_articles(tail)[0] == ' ');
            assert(!is_word(' '));
        }
    }
}

/// A tidied text holds no article, and is left as it is by tidying it again.
pub proof fn law_tidying_again_changes_nothing(folded: Seq<char>)
    ensures
        !holds_article(tidied(folded)),
        without_articles(tidied(folded)) == tidied(folded),
        tidied(tidied(folded)) == tidied(folded),
{
    let plain = unpunctuated(folded);
    law_a_tidied_text_is_plain(folded, |c: char| true);
    law_articles_are_taken_out_at_once(plain);
    lemma_words_hold_no_article(without_articles(plain));
    lemma_joined_holds_no_article(words(without_articles(plain)));
    lemma_unpunctuated_keeps(tidied(folded));
    lemma_nothing_to_take_out(tidied(folded));
}

/// The form in which an ASCII text is compared is normal, and normalizing it again leaves it as it
/// is.
pub proof fn law_a_normalized_text_is_normal(text: Seq<char>)
    requires
        is_ascii_text(text),
    ensures
        ({
            let normal = tidied(lowered(text));
            &&& is_normal(normal)
            &&& is_ascii_text(normal)
            &&& tidied(lowered(normal)) == normal
        }),
{
    let folded = lowered(text);
    let normal = tidied(folded);
    let small = |c: char| (c as u32) < 0x80 && !is_ascii_capital(c);
    assert forall|i: int| 0 <= i < folded.len() implies small(#[trigger] folded[i]) by {
        assert((text[i] as u32) < 0x80);
    }
    law_a_tidied_text_is_plain(folded, small);
    assert forall|i: int| 0 <= i < normal.len() implies (#[trigger] normal[i] as u32) < 0x80
        && !is_ascii_capital(normal[i]) by {
        assert(small(normal[i]));
    }
    law_tidying_again_changes_nothing(folded);
    assert(lowered(normal) =~= normal);
}

proof fn lemma_unpunctuated_parts(a: Seq<char>, b: Seq<char>)
    ensures
        unpunctuated(a + b) == unpunctuated(a) + unpunctuated(b),
    decreases b.len(),
{
    reveal(Seq::filter);
    if b.len() > 0 {
        lemma_unpunctuated_parts(a, b.drop_last());
        assert((a + b).drop_last() =~= a + b.drop_last());
        assert((a + b).last() == b.last());
        assert(unpunctuated(a) + unpunctuated(b.drop_last()).push(b.last()) =~= (unpunctuated(a)
            + unpunctuated(b.drop_last())).push(b.last()));
    } else {
        assert(a + b =~= a);
        assert(unpunctuated(a) + unpunctuated(b) =~= unpunctuated(a));
    }
}

/// White space parts words: of two texts with a character of white space between them, the words are
/// those of the first and then those of the second.
pub proof fn law_white_space_parts_words(a: Seq<char>, gap: char, b: Seq<char>)
    requires
        is_white_space(gap),
    ensures
        words(a + seq![gap] + b) == words(a) + words(b),
    decreases a.len(),
{
    let s = a + seq![gap] + b;
    if a.len() == 0 {
        assert(s.skip(1) =~= b);
        assert(s[0] == gap);
        assert(trimmed_start(s) == trimmed_start(b));
        assert(trimmed_start(a) =~= a);
        assert(words(a) + words(b) =~= words(b));
    } else if is_white_space(a[0]) {
        assert(s[0] == a[0]);
        assert(s.skip(1) =~= a.skip(1) + seq![gap] + b);
        law_white_space_parts_words(a.skip(1), gap, b);
        assert(trimmed_start(s) == trimmed_start(s.skip(1)));
        assert(trimmed_start(a) == trimmed_start(a.skip(1)));
        assert(words(s) == words(s.skip(1)));
        assert(words(a) == words(a.skip(1)));
    } else {
        lemma_word_is_solid(a);
        let n = word_length(a) as int;
        let word = a.take(n);
        let rest = a.skip(n);
        let after = rest + seq![gap] + b;
        assert(a =~= word + rest);
        assert(s =~= word + after);
        assert(after[0] == if rest.len() > 0 {
            rest[0]
        } else {
            gap
        });
        if rest.len() > 0 {
            assert(rest[0] == a[n]);
        }
        lemma_word_length_of(word, after);
        assert(s[0] == a[0]);
        assert(trimmed_start(s) == s);
        assert(trimmed_start(a) == a);
        assert(s.take(n) =~= word);
        assert(s.skip(n) =~= after);
        assert(n > 0);
        law_white_space_parts_words(rest, gap, b);
        assert(words(s) =~= seq![word] + words(after));
        assert(words(a) =~= seq![word] + words(rest));
        assert(seq![word] + (words(rest) + words(b)) =~= seq![word] + words(rest) + words(b));
    }
}

/// A text without white space is one word, whole; a text of nothing has none.
pub proof fn law_a_solid_text_is_one_word(word: Seq<char>)
    requires
        made_of(word, |c: char| !is_white_space(c)),
    ensures
        word.len() > 0 ==> words(word) == seq![word],
        word.len() == 0 ==> words(word).len() == 0,
{
    let none = Seq::<char>::empty();
    assert(trimmed_start(none) =~= none);
    if word.len() > 0 {
        assert(!is_white_space(word[0]));
        assert(word + none =~= word);
        lemma_word_length_of(word, none);
        assert(trimmed_start(word) == word);
        assert(word.take(word.len() as int) =~= word);
        assert(word.skip(word.len() as int) =~= none);
        assert(words(none).len() == 0);
        assert(words(word) =~= seq![word]);
    } else {
        assert(word =~= none);
    }
}

/// Folding the ASCII letters keeps the length and every character but the capitals, which become the
/// small letters at their places in the alphabet.
pub proof fn law_only_capitals_are_lowered(text: Seq<char>, i: int)
    requires
        0 <= i < text.len(),
    ensures
        lowered(text).len() == text.len(),
        'A' <= text[i] <= 'Z' ==> 'a' <= lowered(text)[i] <= 'z' && (lowered(text)[i] as u32) - 0x61
            == (text[i] as u32) - 0x41,
        !('A' <= text[i] <= 'Z') ==> lowered(text)[i] == text[i],
{
}

/// What is in a normal form stays as it is: only punctuation, articles and surplus white space are
/// ever taken out of a folded text.
pub proof fn law_a_normal_text_is_left_as_it_is(s: Seq<char>)
    requires
        made_of(s, |c: char| !is_ascii_punctuation(c)),
        without_articles(s) == s,
        joined(words(s), " "@) == s,
    ensures
        tidied(s) == s,
{
    lemma_unpunctuated_keeps(s);
}

/// A text is tidied word by word: of two texts with a space between them the words of the first are
/// kept as they would be alone, and then those of the second. A mark of punctuation anywhere vanishes
/// and leaves what is on its two sides together.
pub proof fn law_a_text_is_tidied_word_by_word(a: Seq<char>, b: Seq<char>, mark: char)
    requires
        is_ascii_punctuation(mark),
    ensures
        words(tidied(a + seq![' '] + b)) == words(tidied(a)) + words(tidied(b)),
        tidied(a + seq![mark] + b) == tidied(a + b),
{
    reveal(Seq::filter);
    let (ua, ub) = (unpunctuated(a), unpunctuated(b));
    let (wa, wb) = (without_articles(ua), without_articles(ub));
    assert(seq![' '].drop_last() =~= Seq::<char>::empty());
    assert(seq![mark].drop_last() =~= Seq::<char>::empty());
    assert(unpunctuated(seq![' ']) =~= seq![' ']);
    assert(unpunctuated(seq![mark]) =~= Seq::<char>::empty());
    lemma_unpunctuated_parts(a, seq![' ']);
    lemma_unpunctuated_parts(a + seq![' '], b);
    lemma_unpunctuated_parts(a, seq![mark]);
    lemma_unpunctuated_parts(a + seq![mark], b);
    lemma_unpunctuated_parts(a, b);
    assert(ua + Seq::<char>::empty() =~= ua);
    assert(!is_word(' '));
    lemma_without_articles_splits(ua, ' ', ub);
    law_white_space_parts_words(wa, ' ', wb);
    let any = |c: char| true;
    lemma_words_made_of(wa, any);
    lemma_words_made_of(wb, any);
    lemma_words_made_of(wa + seq![' '] + wb, any);
    law_joined_words_are_read_back(words(wa));
    law_joined_words_are_read_back(words(wb));
    law_joined_words_are_read_back(words(wa + seq![' '] + wb));
}

/// A word on its own is kept whole, unless it is an article, of which nothing is left.
pub proof fn law_a_word_is_kept_unless_it_is_an_article(word: Seq<char>)
    requires
        word.len() > 0,
        made_of(word, |c: char| is_word(c)),
        made_of(word, |c: char| !is_ascii_punctuation(c)),
    ensures
        word == "a"@ || word == "an"@ || word == "the"@ ==> tidied(word).len() == 0,
        !(word == "a"@ || word == "an"@ || word == "the"@) ==> tidied(word) == word,
{
    let none = Seq::<char>::empty();
    lemma_unpunctuated_keeps(word);
    lemma_opening_word_of(word, none);
    assert(word + none =~= word);
    assert(word.take(word.len() as int) =~= word);
    assert(word.skip(word.len() as int) =~= none);
    assert(without_articles(none).len() == 0);
    assert(trimmed_start(none) =~= none);
    assert(words(none).len() == 0);
    if is_article(word) {
        assert(without_articles(word) =~= seq![' ']);
        assert(seq![' '].skip(1) =~= none);
        assert(trimmed_start(seq![' ']) == trimmed_start(none));
        assert(words(seq![' ']).len() == 0);
    } else {
        assert(without_articles(word) =~= word);
        assert forall|i: int| 0 <= i < word.len() implies !is_white_space(#[trigger] word[i]) by {
            assert(is_word(word[i]));
        }
        lemma_word_length_of(word, none);
        assert(!is_white_space(word[0]));
        assert(trimmed_start(word) == word);
        assert(words(word) =~= seq![word]);
        assert(joined(seq![word], " "@) == word);
    }
}

} // verus!
