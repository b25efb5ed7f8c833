//! The name of the file that an element's icon is exported to.

use crate::platform::alphanumeric;
use crate::text::{after_last, chars_of, copy_of, cut_after_last, string_of};
use crate::tree::{attr_value, find_attr, meaningful, UiNode};
use vstd::prelude::*;

verus! {

/// What names an element: the end of its resource id, else the simple name of its class, else
/// nothing in particular.
pub open spec fn icon_stem(attrs: Seq<(Seq<char>, Seq<char>)>) -> Seq<char> {
    match attr_value(attrs, "resource-id"@) {
        Some(id) if meaningful(after_last(id, '/')) => after_last(id, '/'),
        _ => match attr_value(attrs, "class"@) {
            Some(class) => after_last(class, '.'),
            None => "icon"@,
        },
    }
}

/// A character that may stand in the name of an icon: an alphanumeric one, or the underscore
/// that stands for any other.
pub open spec fn plain(c: char) -> bool {
    alphanumeric(c) || c == '_'
}

/// The character that stands for `c` in a name, told whether it is alphanumeric.
pub fn name_char(c: char, is_alphanumeric: bool) -> (r: char)
    ensures
        r == (if is_alphanumeric {
            c
        } else {
            '_'
        }),
{
    if is_alphanumeric {
        c
    } else {
        '_'
    }
}

/// `s` with an underscore for each character that is not alphanumeric.
pub open spec fn sanitized(s: Seq<char>) -> Seq<char> {
    Seq::new(
        s.len(),
        |i: int|
            if alphanumeric(s[i]) {
                s[i]
            } else {
                '_'
            },
    )
}

/// The file name for the icon of an element with the given attributes.
pub open spec fn icon_name(attrs: Seq<(Seq<char>, Seq<char>)>) -> Seq<char> {
    let stem = sanitized(icon_stem(attrs));
    (if stem.len() == 0 {
        "icon"@
    } else {
        stem
    }) + ".png"@
}

fn sanitize(s: &[char]) -> (r: Vec<char>)
    ensures
        r@ == sanitized(s@),
{
    let mut out: Vec<char> = Vec::new();
    let n: usize = s.len();
    for i in 0..n
        invariant
            n == s@.len(),
            out@ == sanitized(s@).take(i as int),
    {
        let c = s[i];
        out.push(name_char(c, c.is_alphanumeric()));
        assert(out@ =~= sanitized(s@).take(i + 1));
    }
    assert(sanitized(s@).take(n as int) =~= sanitized(s@));
    out
}

fn find_stem(node: &UiNode) -> (r: Vec<char>)
    ensures
        r@ == icon_stem(node@.attrs),
{
    let listed = node.attrs.as_slice();
    assert(listed.deep_view() =~= node@.attrs);
    if let Some(id) = find_attr(listed, "resource-id") {
        let all = chars_of(id);
        let end = cut_after_last(all.as_slice(), '/');
        let text = string_of(end);
        if is_meaningful(text.as_str()) {
            return vstd::slice::slice_to_vec(end);
        }
    }
    match find_attr(listed, "class") {
        Some(class) => {
            let all = chars_of(class);
            vstd::slice::slice_to_vec(cut_after_last(all.as_slice(), '.'))
        },
        None => chars_of("icon"),
    }
}

fn is_meaningful(s: &str) -> (r: bool)
    ensures
        r == meaningful(s@),
{
    !s.is_empty() && !crate::platform::same_text(s, "null")
}

/// Names the file for an element's icon.
pub fn export_icon_name(node: &UiNode) -> (r: String)
    ensures
        r@ == icon_name(node@.attrs),
{
    let stem = sanitize(find_stem(node).as_slice());
    let mut s = if stem.len() == 0 {
        copy_of("icon")
    } else {
        string_of(stem.as_slice())
    };
    s.append(".png");
    s
}

/// The name of an icon has at least one character before `.png`, and these are all plain
/// unless they are the word that stands in for a missing name.
pub proof fn icon_name_is_plain(attrs: Seq<(Seq<char>, Seq<char>)>)
    ensures
        exists|stem: Seq<char>|
            {
                &&& stem.len() > 0
                &&& icon_name(attrs) == #[trigger] (stem + ".png"@)
                &&& stem == "icon"@ || forall|i: int|
                    0 <= i < stem.len() ==> plain(#[trigger] stem[i])
            },
{
    reveal_strlit("icon");
    let stem = sanitized(icon_stem(attrs));
    let used = if stem.len() == 0 {
        "icon"@
    } else {
        stem
    };
    assert(icon_name(attrs) == used + ".png"@);
}

/// The name of an icon has as many characters before `.png` as the name it is made from: each
/// alphanumeric one stands as it is, and each other one has an underscore in its place.
pub proof fn icon_name_replaces_one_by_one(attrs: Seq<(Seq<char>, Seq<char>)>, stem: Seq<char>)
    requires
        stem == icon_stem(attrs),
        stem.len() > 0,
    ensures
        icon_name(attrs).len() == stem.len() + 4,
        forall|i: int|
            0 <= i < stem.len() ==> #[trigger] icon_name(attrs)[i] == (if alphanumeric(stem[i]) {
                stem[i]
            } else {
                '_'
            }),
        icon_name(attrs).skip(stem.len() as int) == seq!['.', 'p', 'n', 'g'],
{
    reveal_strlit(".png");
    assert(".png"@ =~= seq!['.', 'p', 'n', 'g']);
    assert(icon_name(attrs).skip(stem.len() as int) =~= ".png"@);
}

/// An icon is named after the end of the resource id, what follows its last slash, where that
/// means something; else after the end of the class, what follows its last dot; else it is
/// called `icon`.
pub proof fn icon_is_named_after_id_or_class(attrs: Seq<(Seq<char>, Seq<char>)>)
    ensures
        ({
            let by_id = attr_value(attrs, "resource-id"@) matches Some(id) && after_last(
                id,
                '/',
            ).len() > 0 && after_last(id, '/') != seq!['n', 'u', 'l', 'l'];
            &&& by_id ==> icon_stem(attrs) == after_last(
                attr_value(attrs, "resource-id"@)->0,
                '/',
            )
            &&& !by_id && attr_value(attrs, "class"@) is Some ==> icon_stem(attrs) == after_last(
                attr_value(attrs, "class"@)->0,
                '.',
            )
            &&& !by_id && attr_value(attrs, "class"@) is None ==> icon_stem(attrs) == seq![
                'i',
                'c',
                'o',
                'n',
            ]
            &&& icon_stem(attrs).len() == 0 ==> icon_name(attrs) == seq![
                'i',
                'c',
                'o',
                'n',
                '.',
                'p',
                'n',
                'g',
            ]
        }),
{
    reveal_strlit("null");
    reveal_strlit("icon");
    reveal_strlit(".png");
    assert("null"@ =~= seq!['n', 'u', 'l', 'l']);
    assert("icon"@ =~= seq!['i', 'c', 'o', 'n']);
    if icon_stem(attrs).len() == 0 {
        assert(icon_name(attrs) =~= seq!['i', 'c', 'o', 'n', '.', 'p', 'n', 'g']);
    }
}

} // verus!
