//! Which key carries the generation cap on a chat request.
//!
//! OpenAI's reasoning families take the cap under a key of their own, and only OpenAI itself asks
//! for it there: every other service that speaks the same format takes it under the usual one.
use vstd::prelude::*;
use crate::text::{after_prefix, chars_of, rest_after, text_of};

verus! {

/// The key a generation cap travels under.
#[derive(Clone, Copy, Debug, PartialEq, Eq, Structural)]
pub enum TokenLimitField {
    /// What every such service accepts.
    MaxTokens,
    /// What OpenAI's reasoning families require instead.
    MaxCompletionTokens,
}

impl TokenLimitField {
    /// The key, as it appears in the request.
    pub fn wire_name(self) -> (r: &'static str)
        ensures
            r@ == match self {
                TokenLimitField::MaxTokens => "max_tokens"@,
                TokenLimitField::MaxCompletionTokens => "max_completion_tokens"@,
            },
    {
        match self {
            TokenLimitField::MaxTokens => "max_tokens",
            TokenLimitField::MaxCompletionTokens => "max_completion_tokens",
        }
    }
}

/// How an endpoint chooses between the two keys.
#[derive(Clone, Copy, Debug, PartialEq, Eq, Structural)]
pub enum TokenLimitRule {
    /// The usual key for every model.
    AlwaysMaxTokens,
    /// OpenAI's own rule, by the model's family.
    ByOpenAiModelFamily,
}

/// A name without the provider in front of it: what follows its last slash.
pub open spec fn bare_name(model: Seq<char>) -> Seq<char>
    decreases model.len(),
{
    if model.len() == 0 || model.last() == '/' {
        Seq::empty()
    } else {
        bare_name(model.drop_last()).push(model.last())
    }
}

/// The ASCII small letter of a capital, and any other character as it is.
pub open spec fn small(c: char) -> char {
    if 'A' <= c && c <= 'Z' {
        ((c as u32) + 32) as char
    } else {
        c
    }
}

/// A text in ASCII small letters.
pub open spec fn lowered(text: Seq<char>) -> Seq<char> {
    Seq::new(text.len(), |i: int| small(text[i]))
}

/// Whether a character is a decimal digit.
pub open spec fn is_digit(c: char) -> bool {
    '0' <= c && c <= '9'
}

/// Whether a text is a dash and a date, year first.
pub open spec fn is_dated(s: Seq<char>) -> bool {
    &&& s.len() == 11
    &&& s[0] == '-' && s[5] == '-' && s[8] == '-'
    &&& is_digit(s[1]) && is_digit(s[2]) && is_digit(s[3]) && is_digit(s[4])
    &&& is_digit(s[6]) && is_digit(s[7])
    &&& is_digit(s[9]) && is_digit(s[10])
}

/// Whether nothing more than a date follows a family's name.
pub open spec fn ends_family(rest: Option<Seq<char>>) -> bool {
    match rest {
        Some(rest) => rest.len() == 0 || is_dated(rest),
        None => false,
    }
}

/// Whether a name is of one of the `o` families: its number, perhaps a size, perhaps a date.
pub open spec fn is_o_series(name: Seq<char>) -> bool {
    &&& name.len() >= 2
    &&& name[0] == 'o'
    &&& name[1] == '1' || name[1] == '3' || name[1] == '4' || name[1] == '5'
    &&& {
        let rest = name.skip(2);
        ||| ends_family(Some(rest))
        ||| ends_family(rest_after(rest, "-mini"@))
        ||| ends_family(rest_after(rest, "-nano"@))
        ||| ends_family(rest_after(rest, "-pro"@))
    }
}

/// Whether a name is of the `gpt-5` family, whose chat models are not reasoning models.
pub open spec fn is_gpt_five(name: Seq<char>) -> bool {
    match rest_after(name, "gpt-5"@) {
        Some(rest) => rest.len() == 0 || (rest[0] == '-' && rest_after(rest, "-chat"@) is None),
        None => false,
    }
}

/// Whether a model is of one of OpenAI's reasoning families.
pub open spec fn is_reasoning(model: Seq<char>) -> bool {
    let name = lowered(bare_name(model));
    is_o_series(name) || is_gpt_five(name)
}

fn small_of(c: char) -> (r: char)
    ensures
        r == small(c),
{
    if 'A' <= c && c <= 'Z' {
        ((c as u8) + 32) as char
    } else {
        c
    }
}

fn family_name(model: &str) -> (r: String)
    ensures
        r@ == lowered(bare_name(model@)),
{
    let chars = chars_of(model);
    let mut from: usize = chars.len();
    proof {
        assert(chars@.take(chars@.len() as int) =~= chars@);
        assert(chars@.subrange(from as int, chars@.len() as int) =~= Seq::empty());
        assert(bare_name(chars@.take(from as int)) + chars@.subrange(
            from as int,
            chars@.len() as int,
        ) =~= bare_name(chars@));
    }
    while from > 0 && chars[from - 1] != '/'
        invariant
            from <= chars@.len(),
            bare_name(chars@) == bare_name(chars@.take(from as int)) + chars@.subrange(
                from as int,
                chars@.len() as int,
            ),
        decreases from,
    {
        proof {
            assert(chars@.take(from as int).drop_last() =~= chars@.take(from - 1));
            assert(bare_name(chars@.take(from - 1)).push(chars@[from - 1]) + chars@.subrange(
                from as int,
                chars@.len() as int,
            ) =~= bare_name(chars@.take(from - 1)) + chars@.subrange(
                from - 1,
                chars@.len() as int,
            ));
        }
        from = from - 1;
    }
    proof {
        assert(bare_name(chars@.take(from as int)) =~= Seq::empty());
        assert(bare_name(chars@) =~= chars@.subrange(from as int, chars@.len() as int));
    }
    let mut name: Vec<char> = Vec::new();
    let ghost whole = bare_name(chars@);
    let mut i: usize = from;
    while i < chars.len()
        invariant
            from <= i <= chars@.len(),
            whole == chars@.subrange(from as int, chars@.len() as int),
            name@ =~= lowered(whole).take(i - from),
        decreases chars@.len() - i,
    {
        name.push(small_of(chars[i]));
        i = i + 1;
    }
    proof {
        assert(name@ =~= lowered(whole));
        assert(name@.subrange(0, name@.len() as int) =~= name@);
    }
    text_of(&name, 0, name.len())
}

fn digit_at(chars: &Vec<char>, at: usize) -> (r: bool)
    requires
        at < chars@.len(),
    ensures
        r == is_digit(chars@[at as int]),
{
    '0' <= chars[at] && chars[at] <= '9'
}

fn family_ends(rest: &Option<String>) -> (r: bool)
    ensures
        r == ends_family(rest.deep_view()),
{
    match rest {
        Some(rest) => {
            let chars = chars_of(rest.as_str());
            chars.len() == 0 || (chars.len() == 11 && chars[0] == '-' && chars[5] == '-' && chars[8]
                == '-' && digit_at(&chars, 1) && digit_at(&chars, 2) && digit_at(&chars, 3)
                && digit_at(&chars, 4) && digit_at(&chars, 6) && digit_at(&chars, 7) && digit_at(
                &chars,
                9,
            ) && digit_at(&chars, 10))
        },
        None => false,
    }
}

fn of_the_o_series(name: &str) -> (r: bool)
    ensures
        r == is_o_series(name@),
{
    let chars = chars_of(name);
    if chars.len() < 2 || chars[0] != 'o' {
        return false;
    }
    if chars[1] != '1' && chars[1] != '3' && chars[1] != '4' && chars[1] != '5' {
        return false;
    }
    let rest = text_of(&chars, 2, chars.len());
    proof {
        assert(rest@ =~= name@.skip(2));
    }
    let plain: Option<String> = Some(rest.clone());
    family_ends(&plain) || family_ends(&after_prefix(rest.as_str(), "-mini")) || family_ends(
        &after_prefix(rest.as_str(), "-nano"),
    ) || family_ends(&after_prefix(rest.as_str(), "-pro"))
}

fn of_gpt_five(name: &str) -> (r: bool)
    ensures
        r == is_gpt_five(name@),
{
    match after_prefix(name, "gpt-5") {
        Some(rest) => {
            let chars = chars_of(rest.as_str());
            chars.len() == 0 || (chars[0] == '-' && after_prefix(rest.as_str(), "-chat").is_none())
        },
        None => false,
    }
}

/// Whether a model is of one of OpenAI's reasoning families.
pub fn on_the_wire(model: &str) -> (r: bool)
    ensures
        r == is_reasoning(model@),
{
    let name = family_name(model);
    of_the_o_series(name.as_str()) || of_gpt_five(name.as_str())
}

impl TokenLimitRule {
    /// The key a model's cap travels under.
    pub fn field_for(self, model: &str) -> (r: TokenLimitField)
        ensures
            r == if self == TokenLimitRule::ByOpenAiModelFamily && is_reasoning(model@) {
                TokenLimitField::MaxCompletionTokens
            } else {
                TokenLimitField::MaxTokens
            },
    {
        match self {
            TokenLimitRule::AlwaysMaxTokens => TokenLimitField::MaxTokens,
            TokenLimitRule::ByOpenAiModelFamily => if on_the_wire(model) {
                TokenLimitField::MaxCompletionTokens
            } else {
                TokenLimitField::MaxTokens
            },
        }
    }
}

/// The provider in front of a name does not matter, nor does anything else up to the last slash.
pub proof fn law_the_provider_does_not_matter(provider: Seq<char>, name: Seq<char>)
    requires
        !name.contains('/'),
    ensures
        bare_name(provider + seq!['/'] + name) == name,
        bare_name(name) == name,
        is_reasoning(provider + seq!['/'] + name) == is_reasoning(name),
    decreases name.len(),
{
    let whole = provider + seq!['/'] + name;
    if name.len() > 0 {
        let less = name.drop_last();
        assert(name[name.len() - 1] != '/');
        if less.contains('/') {
            let i = choose|i: int| 0 <= i < less.len() && less[i] == '/';
            assert(name[i] == '/');
        }
        law_the_provider_does_not_matter(provider, less);
        assert(whole.drop_last() =~= provider + seq!['/'] + less);
        assert(less.push(name.last()) =~= name);
    } else {
        assert(whole.last() == '/');
        assert(bare_name(name) =~= name);
        assert(bare_name(whole) =~= name);
    }
}

/// Whether a text is one of the sizes an `o` family comes in.
pub open spec fn is_size(size: Seq<char>) -> bool {
    size.len() == 0 || size == "-mini"@ || size == "-nano"@ || size == "-pro"@
}

/// The `o` families are `o` and one of their numbers, in any size and of any date, and nothing that
/// begins otherwise or goes on with anything else.
pub proof fn law_the_o_families(number: char, size: Seq<char>, date: Seq<char>, name: Seq<char>)
    requires
        is_size(size),
        date.len() == 0 || is_dated(date),
    ensures
        number == '1' || number == '3' || number == '4' || number == '5' ==> is_o_series(
            seq!['o', number] + size + date,
        ),
        is_o_series(name) ==> name.len() >= 2 && name[0] == 'o' && (name[1] == '1' || name[1] == '3'
            || name[1] == '4' || name[1] == '5'),
        is_o_series(name) ==> exists|z: Seq<char>, d: Seq<char>| #[trigger]
            is_size(z) && (d.len() == 0 || #[trigger] is_dated(d)) && name.skip(2) == z + d,
{
    let whole = seq!['o', number] + size + date;
    let rest = whole.skip(2);
    assert(rest =~= size + date);
    if size.len() == 0 {
        assert(rest =~= date);
    } else {
        crate::text::law_a_prefix_is_taken_off(size, date, rest);
    }
    if is_o_series(name) {
        let tail = name.skip(2);
        let none = Seq::<char>::empty();
        crate::text::law_a_prefix_is_taken_off("-mini"@, none, tail);
        crate::text::law_a_prefix_is_taken_off("-nano"@, none, tail);
        crate::text::law_a_prefix_is_taken_off("-pro"@, none, tail);
        assert(none + tail =~= tail);
        assert(is_size(none));
        assert(is_size("-mini"@) && is_size("-nano"@) && is_size("-pro"@));
        let z = if ends_family(Some(tail)) {
            none
        } else if ends_family(rest_after(tail, "-mini"@)) {
            "-mini"@
        } else if ends_family(rest_after(tail, "-nano"@)) {
            "-nano"@
        } else {
            "-pro"@
        };
        let d = if ends_family(Some(tail)) {
            tail
        } else {
            rest_after(tail, z)->0
        };
        assert(is_dated(d) || !is_dated(d));
        assert(tail == z + d);
    }
}

/// The `gpt-5` family is the name itself and everything behind a dash after it, but for its chat
/// models.
pub proof fn law_the_gpt_five_family(rest: Seq<char>, name: Seq<char>)
    ensures
        is_gpt_five("gpt-5"@),
        !is_gpt_five("gpt-5"@ + ("-chat"@ + rest)),
        rest.len() > 0 && rest[0] != '-' ==> !is_gpt_five("gpt-5"@ + rest),
        rest.len() > 0 && rest[0] == '-' && rest_after(rest, "-chat"@) is None ==> is_gpt_five(
            "gpt-5"@ + rest,
        ),
        is_gpt_five(name) ==> rest_after(name, "gpt-5"@) is Some,
        is_reasoning(name) <==> is_o_series(lowered(bare_name(name))) || is_gpt_five(
            lowered(bare_name(name)),
        ),
{
    let none = Seq::<char>::empty();
    assert("gpt-5"@ + none =~= "gpt-5"@);
    crate::text::law_a_prefix_is_taken_off("gpt-5"@, none, name);
    crate::text::law_a_prefix_is_taken_off("gpt-5"@, rest, name);
    crate::text::law_a_prefix_is_taken_off("-chat"@, rest, name);
    crate::text::law_a_prefix_is_taken_off("gpt-5"@, "-chat"@ + rest, name);
    reveal_strlit("-chat");
}

/// Names are compared without regard to the case of their ASCII letters.
pub proof fn law_only_capitals_are_made_small(text: Seq<char>, i: int)
    requires
        0 <= i < text.len(),
    ensures
        lowered(text).len() == text.len(),
        'A' <= text[i] <= 'Z' ==> 'a' <= lowered(text)[i] <= 'z' && (lowered(text)[i] as u32) - 0x61
            == (text[i] as u32) - 0x41,
        !('A' <= text[i] <= 'Z') ==> lowered(text)[i] == text[i],
{
}

} // verus!
