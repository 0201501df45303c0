//! Strings as sequences of characters: building, trimming, splitting, searching and ordering them.
use vstd::prelude::*;
use vstd::string::StringExecFns;

verus! {

/// The text of a list of parts with `separator` between each two of them.
pub open spec fn joined(parts: Seq<Seq<char>>, separator: Seq<char>) -> Seq<char>
    decreases parts.len(),
{
    if parts.len() == 0 {
        Seq::empty()
    } else if parts.len() == 1 {
        parts[0]
    } else {
        joined(parts.drop_last(), separator) + separator + parts.last()
    }
}

/// The decimal digit of a number below ten.
pub open spec fn digit(d: nat) -> char {
    if d == 0 {
        '0'
    } else if d == 1 {
        '1'
    } else if d == 2 {
        '2'
    } else if d == 3 {
        '3'
    } else if d == 4 {
        '4'
    } else if d == 5 {
        '5'
    } else if d == 6 {
        '6'
    } else if d == 7 {
        '7'
    } else if d == 8 {
        '8'
    } else {
        '9'
    }
}

/// A number in decimal, without leading zeros.
pub open spec fn decimal(n: nat) -> Seq<char>
    decreases n,
{
    if n < 10 {
        seq![digit(n)]
    } else {
        decimal(n / 10).push(digit(n % 10))
    }
}

/// Unicode's `White_Space` property.
pub open spec fn is_white_space(c: char) -> bool {
    let u = c as u32;
    ||| 0x9 <= u <= 0xd
    ||| u == 0x20
    ||| u == 0x85
    ||| u == 0xa0
    ||| u == 0x1680
    ||| 0x2000 <= u <= 0x200a
    ||| u == 0x2028
    ||| u == 0x2029
    ||| u == 0x202f
    ||| u == 0x205f
    ||| u == 0x3000
}

/// ASCII's letters and digits.
pub open spec fn is_ascii_alphanumeric(c: char) -> bool {
    let u = c as u32;
    ||| 0x30 <= u <= 0x39
    ||| 0x41 <= u <= 0x5a
    ||| 0x61 <= u <= 0x7a
}

/// ASCII's punctuation: every printable character that is neither a letter, a digit nor a space.
pub open spec fn is_ascii_punctuation(c: char) -> bool {
    let u = c as u32;
    ||| 0x21 <= u <= 0x2f
    ||| 0x3a <= u <= 0x40
    ||| 0x5b <= u <= 0x60
    ||| 0x7b <= u <= 0x7e
}

/// Whether a text holds ASCII characters only.
pub open spec fn is_ascii_text(text: Seq<char>) -> bool {
    forall|i: int| 0 <= i < text.len() ==> (#[trigger] text[i] as u32) < 0x80
}

/// An ASCII capital as its small letter, and any other character as it is.
pub open spec fn ascii_lower(c: char) -> char {
    if 'A' <= c && c <= 'Z' {
        ((c as u32) + 32) as char
    } else {
        c
    }
}

/// What [`char::is_alphanumeric`] answers, which the Unicode tables decide.
pub uninterp spec fn alphanumeric(c: char) -> bool;

/// What [`str::to_lowercase`] answers, which the Unicode tables decide.
pub uninterp spec fn lowercase(text: Seq<char>) -> Seq<char>;

/// [`is_white_space`], computed.
pub(crate) fn char_is_whitespace(c: char) -> (r: bool)
    ensures
        r == is_white_space(c),
{
    let u: u32 = c as u32;
    (0x9 <= u && u <= 0xd) || u == 0x20 || u == 0x85 || u == 0xa0 || u == 0x1680 || (0x2000 <= u && u
        <= 0x200a) || u == 0x2028 || u == 0x2029 || u == 0x202f || u == 0x205f || u == 0x3000
}

/// [`char::is_alphanumeric`]: a fixed property of the character, which has the Alphabetic property
/// or is in one of the categories of numbers. On ASCII these are the letters and digits, and no
/// white space is among them.
#[verifier::external_body]
fn char_is_alphanumeric(c: char) -> (r: bool)
    ensures
        r == alphanumeric(c),
        (c as u32) < 0x80 ==> r == is_ascii_alphanumeric(c),
        is_white_space(c) ==> !r,
{
    c.is_alphanumeric()
}

/// Whether a character is a letter or a digit, which no white space is.
pub open spec fn is_letter_or_digit(c: char) -> bool {
    if is_white_space(c) {
        false
    } else if (c as u32) < 0x80 {
        is_ascii_alphanumeric(c)
    } else {
        alphanumeric(c)
    }
}

/// [`is_letter_or_digit`], computed.
pub fn letter_or_digit(c: char) -> (r: bool)
    ensures
        r == is_letter_or_digit(c),
{
    char_is_alphanumeric(c)
}

/// Whether a character is a capital of ASCII.
pub open spec fn is_ascii_capital(c: char) -> bool {
    'A' <= c && c <= 'Z'
}

/// [`str::to_lowercase`]: a fixed function of the text, which takes a text of ASCII characters
/// letter by letter and leaves no capital of ASCII in any text.
#[verifier::external_body]
pub(crate) fn to_lowercase(text: &str) -> (r: String)
    ensures
        r@ == lowercase(text@),
        forall|i: int| 0 <= i < r@.len() ==> !is_ascii_capital(#[trigger] r@[i]),
        is_ascii_text(text@) ==> r@ == Seq::new(text@.len(), |i: int| ascii_lower(text@[i])),
{
    text.to_lowercase()
}

/// What the `Debug` form of a string is: the text between double quotes, escaped as std decides.
pub uninterp spec fn debug_form(text: Seq<char>) -> Seq<char>;

/// Whether a text is made of ASCII letters, digits and underscores.
pub open spec fn is_plain_name(text: Seq<char>) -> bool {
    forall|i: int|
        0 <= i < text.len() ==> is_ascii_alphanumeric(#[trigger] text[i]) || text[i] == '_'
}

/// A name as a message shows it, between double quotes.
pub open spec fn shown_name(text: Seq<char>) -> Seq<char> {
    if is_plain_name(text) {
        "\""@ + text + "\""@
    } else {
        debug_form(text)
    }
}

/// The `Debug` formatting of [`str`]: a fixed function of the text, and for a text of ASCII letters,
/// digits and underscores that text between double quotes.
#[verifier::external_body]
fn debug_text(text: &str) -> (r: String)
    ensures
        r@ == debug_form(text@),
        is_plain_name(text@) ==> r@ == "\""@ + text@ + "\""@,
{
    format!("{text:?}")
}

/// [`shown_name`], computed.
pub fn show_name(text: &str) -> (r: String)
    ensures
        r@ == shown_name(text@),
{
    debug_text(text)
}

/// [`String::push`] appends one character.
pub assume_specification[ String::push ](s: &mut String, c: char)
    ensures
        final(s)@ == old(s)@.push(c),
;

/// The characters of a text.
pub fn chars_of(text: &str) -> (r: Vec<char>)
    ensures
        r@ == text@,
{
    let mut r: Vec<char> = Vec::new();
    for c in it: text.chars()
        invariant
            r@ == it.seq().take(it.index() as int),
            it.seq() == text@,
    {
        r.push(c);
    }
    r
}


/// The text of a run of characters.
pub fn text_of(chars: &Vec<char>, from: usize, to: usize) -> (r: String)
    requires
        from <= to <= chars@.len(),
    ensures
        r@ == chars@.subrange(from as int, to as int),
{
    let mut r = String::new();
    let mut i: usize = from;
    while i < to
        invariant
            from <= i <= to <= chars@.len(),
            r@ == chars@.subrange(from as int, i as int),
        decreases to - i,
    {
        r.push(chars[i]);
        proof {
            assert(chars@.subrange(from as int, i + 1) =~= chars@.subrange(from as int, i as int).push(
                chars@[i as int],
            ));
        }
        i = i + 1;
    }
    r
}

/// Whether two texts hold the same characters.
pub fn same_text(a: &str, b: &str) -> (r: bool)
    ensures
        r == (a@ == b@),
{
    let left: String = a.to_owned();
    let right: String = b.to_owned();
    left == right
}

/// [`joined`], computed.
pub fn join(parts: &Vec<String>, separator: &str) -> (r: String)
    ensures
        r@ == joined(parts.deep_view(), separator@),
{
    let mut r = String::new();
    let mut i: usize = 0;
    while i < parts.len()
        invariant
            i <= parts@.len(),
            r@ == joined(parts.deep_view().take(i as int), separator@),
        decreases parts@.len() - i,
    {
        let ghost before = parts.deep_view().take(i as int);
        let ghost after = parts.deep_view().take(i + 1);
        proof {
            assert(after.drop_last() =~= before);
            assert(after.last() == parts@[i as int]@);
        }
        if i > 0 {
            r.append(separator);
        }
        r.append(parts[i].as_str());
        proof {
            if i == 0 {
                assert(r@ =~= after[0]);
            }
        }
        i = i + 1;
    }
    proof {
        assert(parts.deep_view().take(i as int) =~= parts.deep_view());
    }
    r
}

fn digit_of(d: usize) -> (r: char)
    requires
        d < 10,
    ensures
        r == digit(d as nat),
{
    if d == 0 {
        '0'
    } else if d == 1 {
        '1'
    } else if d == 2 {
        '2'
    } else if d == 3 {
        '3'
    } else if d == 4 {
        '4'
    } else if d == 5 {
        '5'
    } else if d == 6 {
        '6'
    } else if d == 7 {
        '7'
    } else if d == 8 {
        '8'
    } else {
        '9'
    }
}

/// [`decimal`], computed.
pub fn decimal_text(n: usize) -> (r: String)
    ensures
        r@ == decimal(n as nat),
{
    wide_decimal_text(n as u64)
}

/// [`decimal`] of a 64-bit number.
pub fn wide_decimal_text(n: u64) -> (r: String)
    ensures
        r@ == decimal(n as nat),
    decreases n,
{
    let mut r: String = if n < 10 {
        String::new()
    } else {
        wide_decimal_text(n / 10)
    };
    r.push(digit_of((n % 10) as usize));
    proof {
        if n < 10 {
            assert(r@ =~= seq![digit(n as nat)]);
        }
    }
    r
}

/// A number in decimal, with its sign where it is negative.
pub open spec fn signed_decimal(n: int) -> Seq<char> {
    if n < 0 {
        "-"@ + decimal((-n) as nat)
    } else {
        decimal(n as nat)
    }
}

/// [`signed_decimal`], written out.
pub fn signed_text(n: i64) -> (r: String)
    ensures
        r@ == signed_decimal(n as int),
{
    if n < 0 {
        let magnitude: u64 = (-(n + 1)) as u64 + 1;
        let mut r: String = "-".to_owned();
        r.append(wide_decimal_text(magnitude).as_str());
        r
    } else {
        wide_decimal_text(n as u64)
    }
}

/// A text without the white space before its first other character.
pub open spec fn trimmed_start(s: Seq<char>) -> Seq<char>
    decreases s.len(),
{
    if s.len() > 0 && is_white_space(s[0]) {
        trimmed_start(s.skip(1))
    } else {
        s
    }
}

/// A text without the white space after its last other character.
pub open spec fn trimmed_end(s: Seq<char>) -> Seq<char>
    decreases s.len(),
{
    if s.len() > 0 && is_white_space(s.last()) {
        trimmed_end(s.drop_last())
    } else {
        s
    }
}

/// A text without the white space around it.
pub open spec fn trimmed(s: Seq<char>) -> Seq<char> {
    trimmed_end(trimmed_start(s))
}

/// A text without the run of `c` that leads it.
pub open spec fn unled(s: Seq<char>, c: char) -> Seq<char>
    decreases s.len(),
{
    if s.len() > 0 && s[0] == c {
        unled(s.skip(1), c)
    } else {
        s
    }
}

/// A text without the run of `c` that ends it.
pub open spec fn untrailed(s: Seq<char>, c: char) -> Seq<char>
    decreases s.len(),
{
    if s.len() > 0 && s.last() == c {
        untrailed(s.drop_last(), c)
    } else {
        s
    }
}

/// A text without the runs of `c` at its two ends.
pub open spec fn unwrapped(s: Seq<char>, c: char) -> Seq<char> {
    untrailed(unled(s, c), c)
}

/// [`trimmed`], computed.
pub fn trim(text: &str) -> (r: String)
    ensures
        r@ == trimmed(text@),
{
    let chars = chars_of(text);
    let mut from: usize = 0;
    proof {
        assert(chars@.skip(0) =~= chars@);
    }
    while from < chars.len() && char_is_whitespace(chars[from])
        invariant
            from <= chars@.len(),
            trimmed_start(chars@) == trimmed_start(chars@.skip(from as int)),
        decreases chars@.len() - from,
    {
        proof {
            assert(chars@.skip(from as int).skip(1) =~= chars@.skip(from + 1));
        }
        from = from + 1;
    }
    let ghost rest = chars@.skip(from as int);
    let mut to: usize = chars.len();
    proof {
        assert(chars@.subrange(from as int, to as int) =~= rest);
    }
    while from < to && char_is_whitespace(chars[to - 1])
        invariant
            from <= to <= chars@.len(),
            trimmed_end(rest) == trimmed_end(chars@.subrange(from as int, to as int)),
        decreases to,
    {
        proof {
            let whole = chars@.subrange(from as int, to as int);
            assert(whole.drop_last() =~= chars@.subrange(from as int, to - 1));
        }
        to = to - 1;
    }
    text_of(&chars, from, to)
}

/// [`unwrapped`], computed.
pub fn trim_matches(text: &str, c: char) -> (r: String)
    ensures
        r@ == unwrapped(text@, c),
{
    let chars = chars_of(text);
    let mut from: usize = 0;
    proof {
        assert(chars@.skip(0) =~= chars@);
    }
    while from < chars.len() && chars[from] == c
        invariant
            from <= chars@.len(),
            unled(chars@, c) == unled(chars@.skip(from as int), c),
        decreases chars@.len() - from,
    {
        proof {
            assert(chars@.skip(from as int).skip(1) =~= chars@.skip(from + 1));
        }
        from = from + 1;
    }
    let ghost rest = chars@.skip(from as int);
    let mut to: usize = chars.len();
    proof {
        assert(chars@.subrange(from as int, to as int) =~= rest);
    }
    while from < to && chars[to - 1] == c
        invariant
            from <= to <= chars@.len(),
            untrailed(rest, c) == untrailed(chars@.subrange(from as int, to as int), c),
        decreases to,
    {
        proof {
            let whole = chars@.subrange(from as int, to as int);
            assert(whole.drop_last() =~= chars@.subrange(from as int, to - 1));
        }
        to = to - 1;
    }
    text_of(&chars, from, to)
}

/// How many characters lead `s` before its first white space.
pub open spec fn word_length(s: Seq<char>) -> nat
    decreases s.len(),
{
    if s.len() > 0 && !is_white_space(s[0]) {
        1 + word_length(s.skip(1))
    } else {
        0
    }
}

pub proof fn lemma_word_length(s: Seq<char>)
    ensures
        word_length(s) <= s.len(),
    decreases s.len(),
{
    if s.len() > 0 && !is_white_space(s[0]) {
        lemma_word_length(s.skip(1));
    }
}

pub proof fn lemma_trimmed_start(s: Seq<char>)
    ensures
        trimmed_start(s).len() <= s.len(),
        trimmed_start(s).len() > 0 ==> !is_white_space(trimmed_start(s)[0]),
        trimmed_start(s) == s.skip(s.len() - trimmed_start(s).len()),
    decreases s.len(),
{
    if s.len() > 0 && is_white_space(s[0]) {
        lemma_trimmed_start(s.skip(1));
        let t = trimmed_start(s);
        assert(s.skip(1).skip(s.skip(1).len() - t.len()) =~= s.skip(s.len() - t.len()));
    } else {
        assert(s.skip(0) =~= s);
    }
}

/// The runs of characters that white space separates, in order.
pub open spec fn words(s: Seq<char>) -> Seq<Seq<char>>
    decreases s.len(),
    via words_decreases
{
    let t = trimmed_start(s);
    if t.len() == 0 {
        Seq::empty()
    } else {
        let n = word_length(t);
        seq![t.take(n as int)] + words(t.skip(n as int))
    }
}

#[via_fn]
proof fn words_decreases(s: Seq<char>) {
    lemma_trimmed_start(s);
    lemma_word_length(trimmed_start(s));
}

/// [`words`], computed.
pub fn split_whitespace(text: &str) -> (r: Vec<String>)
    ensures
        r.deep_view() == words(text@),
{
    let chars = chars_of(text);
    let mut r: Vec<String> = Vec::new();
    let mut at: usize = 0;
    proof {
        assert(chars@.skip(0) =~= chars@);
        assert(r.deep_view() + words(chars@) =~= words(chars@));
    }
    loop
        invariant
            at <= chars@.len(),
            words(chars@) == r.deep_view() + words(chars@.skip(at as int)),
        ensures
            r.deep_view() == words(chars@),
        decreases chars@.len() - at,
    {
        let ghost rest = chars@.skip(at as int);
        while at < chars.len() && char_is_whitespace(chars[at])
            invariant
                at <= chars@.len(),
                trimmed_start(rest) == trimmed_start(chars@.skip(at as int)),
                rest.len() >= chars@.len() - at,
            decreases chars@.len() - at,
        {
            proof {
                assert(chars@.skip(at as int).skip(1) =~= chars@.skip(at + 1));
            }
            at = at + 1;
        }
        let ghost t = chars@.skip(at as int);
        proof {
            assert(trimmed_start(rest) == t);
        }
        if at == chars.len() {
            proof {
                assert(words(rest) =~= Seq::empty());
                assert(r.deep_view() + words(rest) =~= r.deep_view());
            }
            break;
        }
        let start: usize = at;
        while at < chars.len() && !char_is_whitespace(chars[at])
            invariant
                start <= at <= chars@.len(),
                word_length(t) == (at - start) + word_length(chars@.skip(at as int)),
            decreases chars@.len() - at,
        {
            proof {
                assert(chars@.skip(at as int).skip(1) =~= chars@.skip(at + 1));
            }
            at = at + 1;
        }
        let ghost before = r.deep_view();
        let word = text_of(&chars, start, at);
        r.push(word);
        proof {
            let n = (at - start) as int;
            assert(word_length(t) == n);
            assert(t.take(n) =~= chars@.subrange(start as int, at as int));
            assert(t.skip(n) =~= chars@.skip(at as int));
            assert(r.deep_view() =~= before.push(word@));
            assert(before + (seq![t.take(n)] + words(t.skip(n))) =~= r.deep_view() + words(
                t.skip(n),
            ));
        }
    }
    r
}

/// Whether `needle` occurs in `text`.
pub open spec fn occurs(text: Seq<char>, needle: Seq<char>) -> bool {
    exists|i: int|
        0 <= i <= text.len() - needle.len() && #[trigger] text.subrange(i, i + needle.len())
            == needle
}

/// A text occurs in any text it stands inside of.
pub proof fn lemma_occurs_inside(head: Seq<char>, needle: Seq<char>, tail: Seq<char>)
    ensures
        occurs(head + needle + tail, needle),
{
    let text = head + needle + tail;
    let at = head.len() as int;
    assert(text.subrange(at, at + needle.len()) =~= needle);
}

fn occurs_at(text: &Vec<char>, needle: &Vec<char>, at: usize) -> (r: bool)
    requires
        at + needle@.len() <= text@.len(),
    ensures
        r == (text@.subrange(at as int, at + needle@.len()) == needle@),
{
    let mut i: usize = 0;
    while i < needle.len()
        invariant
            i <= needle@.len(),
            at + needle@.len() <= text.len(),
            forall|j: int| 0 <= j < i ==> text@[at + j] == needle@[j],
        decreases needle@.len() - i,
    {
        if text[at + i] != needle[i] {
            proof {
                assert(text@.subrange(at as int, at + needle@.len())[i as int] != needle@[i as int]);
            }
            return false;
        }
        i = i + 1;
    }
    proof {
        assert(text@.subrange(at as int, at + needle@.len()) =~= needle@);
    }
    true
}

/// [`occurs`], decided.
pub fn contains(text: &str, needle: &str) -> (r: bool)
    ensures
        r == occurs(text@, needle@),
{
    let chars = chars_of(text);
    let wanted = chars_of(needle);
    if wanted.len() > chars.len() {
        return false;
    }
    let last: usize = chars.len() - wanted.len();
    let mut at: usize = 0;
    loop
        invariant
            at <= last,
            chars@ == text@,
            wanted@ == needle@,
            last == chars@.len() - wanted@.len(),
            forall|i: int|
                0 <= i < at ==> #[trigger] text@.subrange(i, i + needle@.len()) != needle@,
        decreases last - at,
    {
        if occurs_at(&chars, &wanted, at) {
            return true;
        }
        if at == last {
            return false;
        }
        at = at + 1;
    }
}

/// Whether `text` opens with `prefix`.
pub fn starts_with(text: &str, prefix: &str) -> (r: bool)
    ensures
        r == (text@.len() >= prefix@.len() && text@.take(prefix@.len() as int) == prefix@),
{
    let chars = chars_of(text);
    let wanted = chars_of(prefix);
    proof {
        if text@.len() >= prefix@.len() {
            assert(text@.subrange(0, prefix@.len() as int) =~= text@.take(prefix@.len() as int));
        }
    }
    wanted.len() <= chars.len() && occurs_at(&chars, &wanted, 0)
}

/// What follows `prefix` in `text`, where `text` opens with it.
pub open spec fn rest_after(text: Seq<char>, prefix: Seq<char>) -> Option<Seq<char>> {
    if text.len() >= prefix.len() && text.take(prefix.len() as int) == prefix {
        Some(text.skip(prefix.len() as int))
    } else {
        None
    }
}

/// [`rest_after`], computed.
pub fn after_prefix(text: &str, prefix: &str) -> (r: Option<String>)
    ensures
        r.deep_view() == rest_after(text@, prefix@),
{
    if starts_with(text, prefix) {
        let chars = chars_of(text);
        let wanted = chars_of(prefix);
        proof {
            assert(chars@.subrange(wanted@.len() as int, chars@.len() as int) =~= text@.skip(
                prefix@.len() as int,
            ));
        }
        Some(text_of(&chars, wanted.len(), chars.len()))
    } else {
        None
    }
}

/// Whether `text` closes with `suffix`.
pub fn ends_with(text: &str, suffix: &str) -> (r: bool)
    ensures
        r == (text@.len() >= suffix@.len() && text@.skip(text@.len() - suffix@.len()) == suffix@),
{
    let chars = chars_of(text);
    let wanted = chars_of(suffix);
    if wanted.len() > chars.len() {
        return false;
    }
    let at: usize = chars.len() - wanted.len();
    proof {
        assert(text@.subrange(at as int, text@.len() as int) =~= text@.skip(at as int));
    }
    occurs_at(&chars, &wanted, at)
}

/// Whether `a` comes strictly before `b` in the order of their characters' code points, which is
/// the order Rust gives strings.
pub open spec fn before(a: Seq<char>, b: Seq<char>) -> bool
    decreases a.len(),
{
    if b.len() == 0 {
        false
    } else if a.len() == 0 {
        true
    } else if a[0] != b[0] {
        (a[0] as int) < (b[0] as int)
    } else {
        before(a.skip(1), b.skip(1))
    }
}

/// [`before`], decided.
pub fn comes_before(a: &str, b: &str) -> (r: bool)
    ensures
        r == before(a@, b@),
{
    let left = chars_of(a);
    let right = chars_of(b);
    let mut i: usize = 0;
    proof {
        assert(left@.skip(0) =~= left@);
        assert(right@.skip(0) =~= right@);
    }
    while i < left.len() && i < right.len()
        invariant
            i <= left@.len(),
            i <= right@.len(),
            before(left@, right@) == before(left@.skip(i as int), right@.skip(i as int)),
            left@ == a@,
            right@ == b@,
        decreases left@.len() - i,
    {
        if left[i] != right[i] {
            return left[i] < right[i];
        }
        proof {
            assert(left@.skip(i as int).skip(1) =~= left@.skip(i + 1));
            assert(right@.skip(i as int).skip(1) =~= right@.skip(i + 1));
        }
        i = i + 1;
    }
    i < right.len()
}

/// Parts are joined whole and in order, with the separator between each two: one part more is the
/// separator and the part behind what was there.
pub proof fn law_one_part_more_is_joined_behind(
    parts: Seq<Seq<char>>,
    part: Seq<char>,
    separator: Seq<char>,
)
    ensures
        joined(Seq::empty(), separator).len() == 0,
        parts.len() == 0 ==> joined(parts.push(part), separator) == part,
        parts.len() > 0 ==> joined(parts.push(part), separator) == joined(parts, separator)
            + separator + part,
{
    assert(parts.push(part).drop_last() =~= parts);
}

/// The number a row of decimal digits stands for.
pub open spec fn read_decimal(s: Seq<char>) -> nat
    decreases s.len(),
{
    if s.len() == 0 {
        0
    } else {
        10 * read_decimal(s.drop_last()) + ((s.last() as u32) - 0x30) as nat
    }
}

/// A number written in decimal is made of digits, opens with a zero only where it is zero, and reads
/// back as the number.
pub proof fn law_a_decimal_reads_back(n: nat)
    ensures
        decimal(n).len() > 0,
        forall|i: int| 0 <= i < decimal(n).len() ==> '0' <= #[trigger] decimal(n)[i] <= '9',
        decimal(n)[0] == '0' ==> n == 0,
        read_decimal(decimal(n)) == n,
        n > 0 ==> signed_decimal(-(n as int)) == "-"@ + decimal(n),
        signed_decimal(n as int) == decimal(n),
    decreases n,
{
    let s = decimal(n);
    if n < 10 {
        assert(s.drop_last() =~= Seq::<char>::empty());
        assert(read_decimal(Seq::<char>::empty()) == 0);
    } else {
        law_a_decimal_reads_back(n / 10);
        assert(s.drop_last() =~= decimal(n / 10));
        assert(s[0] == decimal(n / 10)[0]);
        assert forall|i: int| 0 <= i < s.len() implies '0' <= #[trigger] s[i] <= '9' by {
            if i < s.len() - 1 {
                assert(s[i] == decimal(n / 10)[i]);
            }
        }
    }
}

/// Trimming takes off the white space at both ends and nothing else.
pub proof fn law_only_the_ends_are_trimmed(lead: Seq<char>, core: Seq<char>, tail: Seq<char>)
    requires
        forall|i: int| 0 <= i < lead.len() ==> is_white_space(#[trigger] lead[i]),
        forall|i: int| 0 <= i < tail.len() ==> is_white_space(#[trigger] tail[i]),
        core.len() > 0 ==> !is_white_space(core[0]) && !is_white_space(core.last()),
        core.len() == 0 ==> tail.len() == 0,
    ensures
        trimmed(lead + core + tail) == core,
{
    let rest = core + tail;
    assert(lead + core + tail =~= lead + rest);
    if core.len() > 0 {
        assert(rest[0] == core[0]);
    }
    lemma_trimmed_start_of(lead, rest);
    lemma_trimmed_end_of(core, tail);
}

proof fn lemma_trimmed_start_of(lead: Seq<char>, rest: Seq<char>)
    requires
        forall|i: int| 0 <= i < lead.len() ==> is_white_space(#[trigger] lead[i]),
        rest.len() > 0 ==> !is_white_space(rest[0]),
    ensures
        trimmed_start(lead + rest) == rest,
    decreases lead.len(),
{
    let s = lead + rest;
    if lead.len() > 0 {
        assert(is_white_space(lead[0]));
        let less = lead.skip(1);
        assert forall|i: int| 0 <= i < less.len() implies is_white_space(#[trigger] less[i]) by {
            assert(less[i] == lead[i + 1]);
        }
        assert(s.skip(1) =~= less + rest);
        lemma_trimmed_start_of(less, rest);
    } else {
        assert(s =~= rest);
    }
}

proof fn lemma_trimmed_end_of(core: Seq<char>, tail: Seq<char>)
    requires
        forall|i: int| 0 <= i < tail.len() ==> is_white_space(#[trigger] tail[i]),
        core.len() > 0 ==> !is_white_space(core.last()),
    ensures
        trimmed_end(core + tail) == core,
    decreases tail.len(),
{
    let s = core + tail;
    if tail.len() > 0 {
        assert(is_white_space(tail[tail.len() - 1]));
        let less = tail.drop_last();
        assert forall|i: int| 0 <= i < less.len() implies is_white_space(#[trigger] less[i]) by {
            assert(less[i] == tail[i]);
        }
        assert(s.drop_last() =~= core + less);
        lemma_trimmed_end_of(core, less);
    } else {
        assert(s =~= core);
    }
}

/// Unwrapping takes off the runs of a character at both ends and nothing else.
pub proof fn law_only_the_ends_are_unwrapped(
    c: char,
    lead: Seq<char>,
    core: Seq<char>,
    tail: Seq<char>,
)
    requires
        forall|i: int| 0 <= i < lead.len() ==> #[trigger] lead[i] == c,
        forall|i: int| 0 <= i < tail.len() ==> #[trigger] tail[i] == c,
        core.len() > 0 ==> core[0] != c && core.last() != c,
        core.len() == 0 ==> tail.len() == 0,
    ensures
        unwrapped(lead + core + tail, c) == core,
{
    let rest = core + tail;
    assert(lead + core + tail =~= lead + rest);
    if core.len() > 0 {
        assert(rest[0] == core[0]);
    }
    lemma_unled_of(c, lead, rest);
    lemma_untrailed_of(c, core, tail);
}

proof fn lemma_unled_of(c: char, lead: Seq<char>, rest: Seq<char>)
    requires
        forall|i: int| 0 <= i < lead.len() ==> #[trigger] lead[i] == c,
        rest.len() > 0 ==> rest[0] != c,
    ensures
        unled(lead + rest, c) == rest,
    decreases lead.len(),
{
    let s = lead + rest;
    if lead.len() > 0 {
        assert(lead[0] == c);
        let less = lead.skip(1);
        assert forall|i: int| 0 <= i < less.len() implies #[trigger] less[i] == c by {
            assert(less[i] == lead[i + 1]);
        }
        assert(s.skip(1) =~= less + rest);
        lemma_unled_of(c, less, rest);
    } else {
        assert(s =~= rest);
    }
}

proof fn lemma_untrailed_of(c: char, core: Seq<char>, tail: Seq<char>)
    requires
        forall|i: int| 0 <= i < tail.len() ==> #[trigger] tail[i] == c,
        core.len() > 0 ==> core.last() != c,
    ensures
        untrailed(core + tail, c) == core,
    decreases tail.len(),
{
    let s = core + tail;
    if tail.len() > 0 {
        assert(tail[tail.len() - 1] == c);
        let less = tail.drop_last();
        assert forall|i: int| 0 <= i < less.len() implies #[trigger] less[i] == c by {
            assert(less[i] == tail[i]);
        }
        assert(s.drop_last() =~= core + less);
        lemma_untrailed_of(c, core, less);
    } else {
        assert(s =~= core);
    }
}

/// A text is taken apart exactly where it opens with the prefix, and what is left is the rest.
pub proof fn law_a_prefix_is_taken_off(prefix: Seq<char>, rest: Seq<char>, text: Seq<char>)
    ensures
        rest_after(prefix + rest, prefix) == Some(rest),
        rest_after(text, prefix) matches Some(left) ==> text == prefix + left,
{
    assert((prefix + rest).take(prefix.len() as int) =~= prefix);
    assert((prefix + rest).skip(prefix.len() as int) =~= rest);
    if rest_after(text, prefix) is Some {
        assert(text =~= prefix + rest_after(text, prefix)->0);
    }
}

/// Texts are ordered as a dictionary orders them: by the first character in which they differ, and a
/// text before what it opens.
pub proof fn law_texts_are_ordered_by_their_first_difference(
    shared: Seq<char>,
    x: char,
    y: char,
    a: Seq<char>,
    b: Seq<char>,
)
    requires
        x != y,
    ensures
        before(shared + seq![x] + a, shared + seq![y] + b) <==> (x as u32) < (y as u32),
        before(shared, shared + seq![y] + b),
        !before(shared + seq![y] + b, shared),
    decreases shared.len(),
{
    let left = shared + seq![x] + a;
    let right = shared + seq![y] + b;
    if shared.len() > 0 {
        let less = shared.skip(1);
        law_texts_are_ordered_by_their_first_difference(less, x, y, a, b);
        assert(left.skip(1) =~= less + seq![x] + a);
        assert(right.skip(1) =~= less + seq![y] + b);
        assert(left[0] == shared[0] && right[0] == shared[0]);
    } else {
        assert(left[0] == x && right[0] == y);
    }
}

/// A text occurs in whatever holds it, at its ends or between, and in nothing shorter; what occurs
/// can be taken out from between the rest.
pub proof fn law_a_text_occurs_where_it_stands(a: Seq<char>, needle: Seq<char>, b: Seq<char>)
    ensures
        occurs(a + needle + b, needle),
        a.len() < needle.len() ==> !occurs(a, needle),
        occurs(a, needle) ==> exists|i: int|
            0 <= i <= a.len() - needle.len() && a == #[trigger] a.take(i) + needle + a.skip(
                i + needle.len(),
            ),
{
    let whole = a + needle + b;
    assert(whole.subrange(a.len() as int, (a.len() + needle.len()) as int) =~= needle);
    if occurs(a, needle) {
        let i = choose|i: int|
            0 <= i <= a.len() - needle.len() && #[trigger] a.subrange(i, i + needle.len())
                == needle;
        assert(a =~= a.take(i) + needle + a.skip(i + needle.len())) by {
            assert forall|k: int| i <= k < i + needle.len() implies a[k] == needle[k - i] by {
                assert(a.subrange(i, i + needle.len())[k - i] == a[k]);
            }
        }
    }
}

/// A plain name is shown between quote marks, whole.
pub proof fn law_a_plain_name_is_shown_whole(name: Seq<char>)
    requires
        forall|i: int|
            0 <= i < name.len() ==> ('a' <= #[trigger] name[i] <= 'z' || 'A' <= name[i] <= 'Z' || '0'
                <= name[i] <= '9' || name[i] == '_'),
    ensures
        shown_name(name) == seq!['"'] + name + seq!['"'],
{
    reveal_strlit("\"");
    assert("\""@ =~= seq!['"']);
}

} // verus!
