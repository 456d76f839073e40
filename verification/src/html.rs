//! Reading the fields of a login form out of a page.
use vstd::prelude::*;

use crate::text::{
    chars_of, find, find_char, parts, same, skipped, starts_with, string_of, taken, trimmed_start,
};

verus! {

/// The value of an attribute: what stands in quotes behind the first `name=`.
/// White space may stand before the quotes, which are single or double.
pub open spec fn attribute(fragment: Seq<char>, name: Seq<char>) -> Option<Seq<char>> {
    match crate::text::find_text(fragment, name + "="@) {
        Some(i) => {
            let rest = crate::text::trim_start(fragment.skip(i + (name + "="@).len()));
            if rest.len() > 0 && (rest[0] == '\'' || rest[0] == '"') {
                match crate::text::split_once(rest.skip(1), rest[0]) {
                    Some((value, _)) => Some(value),
                    None => None,
                }
            } else {
                None
            }
        },
        None => None,
    }
}

/// The value of an input element that has the given name. `fragment` is what
/// stands between two `<`.
pub open spec fn input_value(fragment: Seq<char>, name: Seq<char>) -> Option<Seq<char>> {
    if "input"@.is_prefix_of(fragment) && attribute(fragment.skip("input"@.len() as int), "name"@)
        == Some(name) {
        attribute(fragment.skip("input"@.len() as int), "value"@)
    } else {
        None
    }
}

/// The value of the first input element that has the given name and a value.
pub open spec fn first_input(fragments: Seq<Seq<char>>, name: Seq<char>) -> Option<Seq<char>>
    decreases fragments.len(),
{
    if fragments.len() == 0 {
        None
    } else {
        match input_value(fragments[0], name) {
            Some(value) => Some(value),
            None => first_input(fragments.drop_first(), name),
        }
    }
}

fn attribute_chars<'a>(fragment: &'a [char], name: &str) -> (r: Option<&'a [char]>)
    ensures
        match r {
            Some(value) => attribute(fragment@, name@) == Some(value@),
            None => attribute(fragment@, name@) is None,
        },
{
    let mut marker = chars_of(name);
    marker.push('=');
    proof {
        reveal_strlit("=");
        assert(marker@ == name@ + "="@);
    }
    match find(fragment, marker.as_slice()) {
        Some(i) => {
            let rest = trimmed_start(skipped(fragment, i + marker.len()));
            if rest.len() == 0 || (rest[0] != '\'' && rest[0] != '"') {
                return None;
            }
            let inner = skipped(rest, 1);
            let end: usize = find_char(inner, rest[0]);
            if end < inner.len() {
                Some(taken(inner, end))
            } else {
                None
            }
        },
        None => None,
    }
}

/// The value of an attribute in a fragment of a page.
pub fn html_attribute(fragment: &str, name: &str) -> (r: Option<String>)
    ensures
        match r {
            Some(value) => attribute(fragment@, name@) == Some(value@),
            None => attribute(fragment@, name@) is None,
        },
{
    let chars = chars_of(fragment);
    match attribute_chars(chars.as_slice(), name) {
        Some(value) => Some(string_of(value)),
        None => None,
    }
}

fn read_input<'a>(fragment: &'a [char], name: &str) -> (r: Option<&'a [char]>)
    ensures
        match r {
            Some(value) => input_value(fragment@, name@) == Some(value@),
            None => input_value(fragment@, name@) is None,
        },
{
    let tag = chars_of("input");
    if !starts_with(fragment, tag.as_slice()) {
        return None;
    }
    let attributes = skipped(fragment, tag.len());
    let wanted = chars_of(name);
    match attribute_chars(attributes, "name") {
        Some(found) => if same(found, wanted.as_slice()) {
            attribute_chars(attributes, "value")
        } else {
            None
        },
        None => None,
    }
}

/// The value of the first input element of a page that has the given name and
/// a value.
pub fn extract_input(html: &str, name: &str) -> (r: Option<String>)
    ensures
        match r {
            Some(value) => first_input(crate::text::split(html@, '<'), name@) == Some(value@),
            None => first_input(crate::text::split(html@, '<'), name@) is None,
        },
{
    let chars = chars_of(html);
    let fragments = parts(chars.as_slice(), '<');
    let ghost texts = fragments@.map_values(|p: &[char]| p@);
    let mut i: usize = 0;
    assert(texts.skip(0) == texts);
    while i < fragments.len()
        invariant
            i <= fragments.len(),
            texts == fragments@.map_values(|p: &[char]| p@),
            texts == crate::text::split(html@, '<'),
            first_input(texts.skip(i as int), name@) == first_input(texts, name@),
        decreases fragments.len() - i,
    {
        assert(texts.skip(i as int)[0] == fragments@[i as int]@);
        assert(texts.skip(i as int).drop_first() == texts.skip(i + 1));
        match read_input(fragments[i], name) {
            Some(value) => return Some(string_of(value)),
            None => {},
        }
        i = i + 1;
    }
    None
}

/// White space before a text that begins without any is all that is trimmed.
proof fn lemma_leading_space(space: Seq<char>, rest: Seq<char>)
    requires
        forall|i: int| 0 <= i < space.len() ==> crate::text::is_white(#[trigger] space[i]),
        rest.len() > 0 && !crate::text::is_white(rest[0]),
    ensures
        crate::text::trim_start(space + rest) == rest,
    decreases space.len(),
{
    let whole = space + rest;
    if space.len() == 0 {
        assert(whole == rest);
    } else {
        assert(whole[0] == space[0]);
        assert(whole.drop_first() == space.drop_first() + rest);
        lemma_leading_space(space.drop_first(), rest);
    }
}

/// The value of an attribute is what stands in quotes behind its name and an
/// equals sign, with either kind of quotes and with or without white space
/// before them, where the name did not occur before.
pub proof fn lemma_attribute_reads_back(
    before: Seq<char>,
    name: Seq<char>,
    space: Seq<char>,
    quote: char,
    value: Seq<char>,
    after: Seq<char>,
)
    requires
        quote == '"' || quote == '\'',
        !value.contains(quote),
        forall|i: int| 0 <= i < space.len() ==> crate::text::is_white(#[trigger] space[i]),
        forall|i: int|
            0 <= i < before.len() ==> !#[trigger] crate::text::occurs_at(
                before + name + seq!['='] + space + seq![quote] + value + seq![quote] + after,
                name + seq!['='],
                i,
            ),
    ensures
        attribute(
            before + name + seq!['='] + space + seq![quote] + value + seq![quote] + after,
            name,
        ) == Some(value),
{
    reveal_strlit("=");
    let whole = before + name + seq!['='] + space + seq![quote] + value + seq![quote] + after;
    let marker = name + seq!['='];
    assert(marker == name + "="@);
    let n = before.len() as int;
    assert(whole.subrange(n, n + marker.len()) == marker);
    assert(crate::text::occurs_at(whole, marker, n));
    crate::text::lemma_find_text(whole, marker);
    assert(crate::text::find_text(whole, marker) == Some(n));
    let quoted = seq![quote] + value + seq![quote] + after;
    assert(whole.skip(n + marker.len()) == space + quoted);
    lemma_leading_space(space, quoted);
    let inner = quoted.skip(1);
    assert(inner == value + seq![quote] + after);
    assert forall|i: int| 0 <= i < value.len() implies inner[i] != quote by {
        assert(inner[i] == value[i]);
        assert(value.contains(value[i]));
    }
    assert(inner[value.len() as int] == quote);
    crate::text::lemma_position_is(inner, quote, value.len() as int);
    assert(inner.take(value.len() as int) == value);
}

/// What is read as an attribute's value stands in quotes, and the attribute's
/// name with an equals sign stands in the fragment.
pub proof fn lemma_attribute_stands_there(fragment: Seq<char>, name: Seq<char>)
    requires
        attribute(fragment, name) is Some,
    ensures
        crate::text::has_text(fragment, name + seq!['=']),
        ({
            let value = attribute(fragment, name)->0;
            ||| !value.contains('"') && crate::text::has_text(
                fragment,
                seq!['"'] + value + seq!['"'],
            )
            ||| !value.contains('\'') && crate::text::has_text(
                fragment,
                seq!['\''] + value + seq!['\''],
            )
        }),
{
    reveal_strlit("=");
    let marker = name + seq!['='];
    assert(marker == name + "="@);
    crate::text::lemma_find_text(fragment, marker);
    let n = crate::text::find_text(fragment, marker)->0;
    let tail = fragment.skip(n + marker.len());
    let rest = crate::text::trim_start(tail);
    crate::text::lemma_trim_start_cut(tail);
    let quote = rest[0];
    let inner = rest.skip(1);
    crate::text::lemma_position(inner, quote);
    let p = crate::text::position(inner, quote);
    let value = inner.take(p);
    assert(attribute(fragment, name) == Some(value));
    assert(!value.contains(quote)) by {
        if value.contains(quote) {
            let i = choose|i: int| 0 <= i < value.len() && value[i] == quote;
            assert(inner[i] == quote);
        }
    }
    let framed = seq![quote] + value + seq![quote];
    let at = fragment.len() - rest.len();
    assert(fragment.subrange(at, at + framed.len()) == framed) by {
        assert forall|i: int| 0 <= i < framed.len() implies fragment[at + i] == framed[i] by {
            assert(fragment[at + i] == rest[i]);
            if 0 < i {
                assert(rest[i] == inner[i - 1]);
            }
        }
    }
    assert(crate::text::occurs_at(fragment, framed, at));
}

/// An input element gives its value exactly where it has the name that was asked
/// for; another element gives none.
pub proof fn lemma_inputs(attributes: Seq<char>, fragment: Seq<char>, name: Seq<char>)
    ensures
        attribute(attributes, "name"@) == Some(name) ==> input_value(
            "input"@ + attributes,
            name,
        ) == attribute(attributes, "value"@),
        attribute(attributes, "name"@) != Some(name) ==> input_value(
            "input"@ + attributes,
            name,
        ) is None,
        !"input"@.is_prefix_of(fragment) ==> input_value(fragment, name) is None,
{
    let whole = "input"@ + attributes;
    assert("input"@.is_prefix_of(whole));
    assert(whole.skip("input"@.len() as int) == attributes);
}

/// Of several input elements the first that gives a value counts, and where none
/// does there is none.
pub proof fn lemma_first_input_counts(fragments: Seq<Seq<char>>, name: Seq<char>, n: int)
    requires
        0 <= n <= fragments.len(),
        forall|i: int| 0 <= i < n ==> input_value(#[trigger] fragments[i], name) is None,
    ensures
        n == fragments.len() ==> first_input(fragments, name) is None,
        n < fragments.len() && input_value(fragments[n], name) is Some ==> first_input(
            fragments,
            name,
        ) == input_value(fragments[n], name),
    decreases n,
{
    if n > 0 {
        assert(input_value(fragments[0], name) is None);
        let rest = fragments.drop_first();
        assert forall|i: int| 0 <= i < n - 1 implies input_value(#[trigger] rest[i], name) is None by {
            assert(rest[i] == fragments[i + 1]);
        }
        lemma_first_input_counts(rest, name, n - 1);
        if n < fragments.len() {
            assert(rest[n - 1] == fragments[n]);
        }
    }
}

}
