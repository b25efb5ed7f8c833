//! The XPath that singles an element out of its page.

use crate::platform::same_text;
use crate::text::{chars_in, chars_of, copy_of, find, find_is_first, pieces, split, split_text,
    string_of, text_in};
use crate::tree::{addressable, attr_meaning, attr_value, children_are_forest, find_meaning,
    forest, node_on, NodeView, UiNode};
use vstd::prelude::*;

verus! {

// ── Literals ──

/// Texts with a separator between each two.
pub open spec fn joined(parts: Seq<Seq<char>>, sep: Seq<char>) -> Seq<char>
    decreases parts.len(),
{
    if parts.len() == 0 {
        Seq::empty()
    } else if parts.len() == 1 {
        parts[0]
    } else {
        joined(parts.drop_last(), sep) + sep + parts.last()
    }
}

/// `s` between single quotes.
pub open spec fn single_quoted(s: Seq<char>) -> Seq<char> {
    seq!['\''] + s + seq!['\'']
}

/// `s` between double quotes.
pub open spec fn double_quoted(s: Seq<char>) -> Seq<char> {
    seq!['"'] + s + seq!['"']
}

/// The arguments that put the first `n` parts together again, with a single quote
/// between each two. An empty part needs none.
pub open spec fn concat_args(parts: Seq<Seq<char>>, n: nat) -> Seq<Seq<char>>
    decreases n,
{
    if n == 0 {
        Seq::empty()
    } else {
        let part = parts[n - 1];
        concat_args(parts, (n - 1) as nat) + (if n > 1 {
            seq![double_quoted(seq!['\''])]
        } else {
            Seq::empty()
        }) + (if part.len() > 0 {
            seq![single_quoted(part)]
        } else {
            Seq::empty()
        })
    }
}

/// The XPath 1.0 expression for the string `v`: a literal in the quotes that `v` does not
/// hold, or, where it holds both, a `concat` of its parts.
pub open spec fn literal(v: Seq<char>) -> Seq<char> {
    if !v.contains('\'') {
        single_quoted(v)
    } else if !v.contains('"') {
        double_quoted(v)
    } else {
        let parts = split(v, seq!['\'']);
        "concat("@ + joined(concat_args(parts, parts.len()), ", "@) + ")"@
    }
}

fn holds(s: &[char], c: char) -> (r: bool)
    ensures
        r == s@.contains(c),
{
    let n: usize = s.len();
    for i in 0..n
        invariant
            n == s@.len(),
            forall|j: int| 0 <= j < i ==> s@[j] != c,
    {
        if s[i] == c {
            assert(s@[i as int] == c);
            return true;
        }
    }
    false
}

/// Joins texts with a separator.
pub fn join_texts(parts: &Vec<String>, sep: &str) -> (r: String)
    ensures
        r@ == joined(parts.deep_view(), sep@),
{
    let mut out = String::new();
    let n: usize = parts.len();
    let ghost all = parts.deep_view();
    for i in 0..n
        invariant
            n == parts@.len(),
            all == parts.deep_view(),
            out@ == joined(all.take(i as int), sep@),
    {
        let ghost before = out@;
        if i > 0 {
            out.append(sep);
        }
        out.append(parts[i].as_str());
        proof {
            let now = all.take(i + 1);
            assert(now.drop_last() == all.take(i as int));
            assert(now.last() == parts@[i as int]@);
            if i == 0 {
                assert(out@ =~= now[0]);
            } else {
                assert(out@ =~= before + sep@ + now.last());
            }
        }
    }
    assert(all.take(n as int) == all);
    out
}

/// Writes the XPath 1.0 expression for a string.
pub fn xpath_literal(v: &str) -> (r: String)
    ensures
        r@ == literal(v@),
{
    let all = chars_of(v);
    if !holds(all.as_slice(), '\'') {
        let mut s = String::new();
        s.push('\'');
        s.append(v);
        s.push('\'');
        assert(s@ =~= single_quoted(v@));
        return s;
    }
    if !holds(all.as_slice(), '"') {
        let mut s = String::new();
        s.push('"');
        s.append(v);
        s.push('"');
        assert(s@ =~= double_quoted(v@));
        return s;
    }
    let quote: Vec<char> = vec!['\''];
    assert(quote@ =~= seq!['\'']);
    let parts = split_text(all.as_slice(), quote.as_slice());
    let ghost texts = pieces(parts@);
    let mut args: Vec<String> = Vec::new();
    let n: usize = parts.len();
    for i in 0..n
        invariant
            n == parts@.len(),
            texts == pieces(parts@),
            args.deep_view() == concat_args(texts, i as nat),
    {
        let ghost before = args.deep_view();
        if i > 0 {
            let mut between = String::new();
            between.push('"');
            between.push('\'');
            between.push('"');
            assert(between@ =~= double_quoted(seq!['\'']));
            args.push(between);
            assert(args.deep_view() =~= before + seq![double_quoted(seq!['\''])]);
        } else {
            assert(args.deep_view() =~= before + Seq::<Seq<char>>::empty());
        }
        let ghost middle = args.deep_view();
        if parts[i].len() > 0 {
            let inner = string_of(parts[i].as_slice());
            let mut quoted = String::new();
            quoted.push('\'');
            quoted.append(inner.as_str());
            quoted.push('\'');
            assert(quoted@ =~= single_quoted(texts[i as int]));
            args.push(quoted);
            assert(args.deep_view() =~= middle + seq![single_quoted(texts[i as int])]);
        } else {
            assert(args.deep_view() =~= middle + Seq::<Seq<char>>::empty());
        }
    }
    let list = join_texts(&args, ", ");
    let mut s = String::new();
    s.append("concat(");
    s.append(list.as_str());
    s.append(")");
    assert(s@ =~= "concat("@ + list@ + ")"@);
    s
}

/// The string that an XPath literal stands for. Such a literal has no escapes: it ends at
/// the quote that it starts with.
pub open spec fn literal_value(e: Seq<char>) -> Option<Seq<char>> {
    if e.len() >= 2 && (e[0] == '\'' || e[0] == '"') && e.last() == e[0] && !e.subrange(
        1,
        e.len() - 1,
    ).contains(e[0]) {
        Some(e.subrange(1, e.len() - 1))
    } else {
        None
    }
}

/// The strings of some literals, one after the other.
pub open spec fn concat_value(args: Seq<Seq<char>>) -> Option<Seq<char>>
    decreases args.len(),
{
    if args.len() == 0 {
        Some(Seq::empty())
    } else {
        match (concat_value(args.drop_last()), literal_value(args.last())) {
            (Some(a), Some(b)) => Some(a + b),
            _ => None,
        }
    }
}

/// `e` is an XPath 1.0 expression whose value is the string `v`: a literal, or a call of
/// `concat` with two or more literals.
pub open spec fn denotes(e: Seq<char>, v: Seq<char>) -> bool {
    ||| literal_value(e) == Some(v)
    ||| exists|args: Seq<Seq<char>>|
        {
            &&& args.len() >= 2
            &&& #[trigger] concat_value(args) == Some(v)
            &&& e == "concat("@ + joined(args, ", "@) + ")"@
        }
}

proof fn concat_value_push(args: Seq<Seq<char>>, e: Seq<char>)
    ensures
        concat_value(args.push(e)) == (match (concat_value(args), literal_value(e)) {
            (Some(a), Some(b)) => Some(a + b),
            _ => None,
        }),
{
    assert(args.push(e).drop_last() =~= args);
}

/// The parts of a text joined by the character at which it was split are the text, and no
/// part holds that character.
pub proof fn split_joins(s: Seq<char>, c: char)
    ensures
        joined(split(s, seq![c]), seq![c]) == s,
        split(s, seq![c]).len() >= 1,
        s.contains(c) ==> split(s, seq![c]).len() >= 2,
        forall|i: int|
            0 <= i < split(s, seq![c]).len() ==> !(#[trigger] split(s, seq![c])[i]).contains(c),
    decreases s.len(),
{
    let pat = seq![c];
    find_is_first(s, pat, 0);
    let parts = split(s, pat);
    match find(s, pat) {
        None => {
            assert(parts =~= seq![s]);
            if s.contains(c) {
                let k = choose|k: int| 0 <= k < s.len() && s[k] == c;
                assert(s.subrange(k, k + 1) =~= pat);
                assert(crate::text::occurs_at(s, pat, k));
            }
        },
        Some(i) => {
            let rest = s.skip(i + 1);
            let tail = split(rest, pat);
            split_joins(rest, c);
            assert(parts =~= seq![s.take(i)] + tail);
            joined_cons(s.take(i), tail, pat);
            assert(s.subrange(i, i + 1)[0] == c);
            assert(s.take(i) + pat + rest =~= s);
            assert forall|k: int| 0 <= k < parts.len() implies !(#[trigger] parts[k]).contains(
                c,
            ) by {
                if k == 0 {
                    if s.take(i).contains(c) {
                        let j = choose|j: int| 0 <= j < s.take(i).len() && s.take(i)[j] == c;
                        assert(s.subrange(j, j + 1) =~= pat);
                        assert(crate::text::occurs_at(s, pat, j));
                    }
                } else {
                    assert(parts[k] == tail[k - 1]);
                }
            }
        },
    }
}

proof fn joined_cons(first: Seq<char>, rest: Seq<Seq<char>>, sep: Seq<char>)
    requires
        rest.len() >= 1,
    ensures
        joined(seq![first] + rest, sep) == first + sep + joined(rest, sep),
    decreases rest.len(),
{
    let all = seq![first] + rest;
    assert(all.drop_last() =~= seq![first] + rest.drop_last());
    assert(all.last() == rest.last());
    if rest.len() == 1 {
        assert(all.drop_last() =~= seq![first]);
        assert(joined(all.drop_last(), sep) == first);
    } else {
        joined_cons(first, rest.drop_last(), sep);
        assert(first + sep + joined(rest.drop_last(), sep) + sep + rest.last() =~= first + sep + (
        joined(rest.drop_last(), sep) + sep + rest.last()));
    }
}

proof fn concat_args_value(parts: Seq<Seq<char>>, n: nat)
    requires
        n <= parts.len(),
        forall|i: int| 0 <= i < parts.len() ==> !(#[trigger] parts[i]).contains('\''),
    ensures
        concat_value(concat_args(parts, n)) == Some(joined(parts.take(n as int), seq!['\''])),
        concat_args(parts, n).len() >= n - 1,
        n >= 1 && parts[n - 1].len() > 0 ==> concat_args(parts, n).len() >= n,
        n >= 2 && (exists|i: int| 0 <= i < n && (#[trigger] parts[i]).len() > 0) ==> concat_args(
            parts,
            n,
        ).len() >= 2,
    decreases n,
{
    if n > 0 {
        concat_args_value(parts, (n - 1) as nat);
        let before = concat_args(parts, (n - 1) as nat);
        let part = parts[n - 1];
        let quote = double_quoted(seq!['\'']);
        let own = single_quoted(part);
        assert(literal_value(quote) == Some(seq!['\''])) by {
            assert(quote.subrange(1, 2) =~= seq!['\'']);
        }
        assert(literal_value(own) == Some(part)) by {
            assert(own.subrange(1, own.len() - 1) =~= part);
        }
        let middle = if n > 1 {
            before.push(quote)
        } else {
            before
        };
        concat_value_push(before, quote);
        concat_value_push(middle, own);
        let whole = concat_args(parts, n);
        assert(whole =~= if part.len() > 0 {
            middle.push(own)
        } else {
            middle
        });
        let taken = parts.take(n as int);
        assert(taken.drop_last() =~= parts.take(n - 1));
        assert(taken.last() == part);
        if n == 1 {
            assert(before =~= Seq::<Seq<char>>::empty());
            assert(taken[0] == part);
            assert(Seq::<char>::empty() + part =~= part);
            if part.len() == 0 {
                assert(part =~= Seq::<char>::empty());
            }
        } else {
            let j = joined(parts.take(n - 1), seq!['\'']);
            assert(j + seq!['\''] + part =~= (j + seq!['\'']) + part);
            if part.len() == 0 {
                assert(j + seq!['\''] + part =~= j + seq!['\'']);
            }
            if n == 2 && part.len() == 0 && (exists|i: int| 0 <= i < n && (#[trigger] parts[i]).len()
                > 0) {
                let i = choose|i: int| 0 <= i < n && (#[trigger] parts[i]).len() > 0;
                assert(i == 0);
            }
        }
    } else {
        assert(parts.take(0) =~= Seq::<Seq<char>>::empty());
    }
}

/// The expression for a string has exactly that string as its value, whatever quotes,
/// line breaks or tabs it holds.
pub proof fn literal_denotes(v: Seq<char>)
    ensures
        denotes(literal(v), v),
{
    if !v.contains('\'') {
        let e = single_quoted(v);
        assert(e.subrange(1, e.len() - 1) =~= v);
    } else if !v.contains('"') {
        let e = double_quoted(v);
        assert(e.subrange(1, e.len() - 1) =~= v);
    } else {
        let parts = split(v, seq!['\'']);
        split_joins(v, '\'');
        concat_args_value(parts, parts.len());
        assert(parts.take(parts.len() as int) =~= parts);
        if forall|i: int| 0 <= i < parts.len() ==> (#[trigger] parts[i]).len() == 0 {
            joined_of_empty(parts, '\'');
            let k = choose|k: int| 0 <= k < v.len() && v[k] == '"';
            assert(v[k] == '\'');
        }
        let args = concat_args(parts, parts.len());
        assert(concat_value(args) == Some(v));
    }
}

proof fn joined_of_empty(parts: Seq<Seq<char>>, c: char)
    requires
        forall|i: int| 0 <= i < parts.len() ==> (#[trigger] parts[i]).len() == 0,
    ensures
        forall|k: int|
            0 <= k < joined(parts, seq![c]).len() ==> #[trigger] joined(parts, seq![c])[k] == c,
    decreases parts.len(),
{
    if parts.len() > 1 {
        let short = parts.drop_last();
        assert forall|i: int| 0 <= i < short.len() implies (#[trigger] short[i]).len() == 0 by {
            assert(short[i] == parts[i]);
        }
        joined_of_empty(short, c);
        assert(parts[parts.len() - 1].len() == 0);
        let whole = joined(parts, seq![c]);
        let before = joined(short, seq![c]);
        assert forall|k: int| 0 <= k < whole.len() implies #[trigger] whole[k] == c by {
            if k < before.len() {
                assert(whole[k] == before[k]);
            }
        }
    } else if parts.len() == 1 {
        assert(parts[0].len() == 0);
    }
}

// ── Escaping ──

/// How a character is written inside a double-quoted string literal.
pub open spec fn escape_char(c: char) -> Seq<char> {
    if c == '\\' {
        seq!['\\', '\\']
    } else if c == '"' {
        seq!['\\', '"']
    } else if c == '\n' {
        seq!['\\', 'n']
    } else if c == '\r' {
        seq!['\\', 'r']
    } else if c == '\t' {
        seq!['\\', 't']
    } else {
        seq![c]
    }
}

/// How a text is written inside a double-quoted string literal.
pub open spec fn escaped(s: Seq<char>) -> Seq<char>
    decreases s.len(),
{
    if s.len() == 0 {
        Seq::empty()
    } else {
        escaped(s.drop_last()) + escape_char(s.last())
    }
}

/// Writes an XPath for use inside a double-quoted string literal, on one line.
pub fn xpath_escaped_for_code(xpath: &str) -> (r: String)
    ensures
        r@ == escaped(xpath@),
{
    let all = chars_of(xpath);
    let mut out = String::new();
    let n: usize = all.len();
    for i in 0..n
        invariant
            n == all@.len(),
            out@ == escaped(all@.take(i as int)),
    {
        assert(all@.take(i + 1).drop_last() == all@.take(i as int));
        let c = all[i];
        let ghost before = out@;
        if c == '\\' {
            out.push('\\');
            out.push('\\');
        } else if c == '"' {
            out.push('\\');
            out.push('"');
        } else if c == '\n' {
            out.push('\\');
            out.push('n');
        } else if c == '\r' {
            out.push('\\');
            out.push('r');
        } else if c == '\t' {
            out.push('\\');
            out.push('t');
        } else {
            out.push(c);
        }
        assert(out@ =~= before + escape_char(c));
    }
    assert(all@.take(n as int) == all@);
    out
}

/// What a host language makes of the text between the quotes of a string literal.
pub open spec fn unescaped(s: Seq<char>) -> Seq<char>
    decreases s.len(),
{
    if s.len() == 0 {
        Seq::empty()
    } else if s[0] == '\\' && s.len() >= 2 {
        let c = if s[1] == 'n' {
            '\n'
        } else if s[1] == 'r' {
            '\r'
        } else if s[1] == 't' {
            '\t'
        } else {
            s[1]
        };
        seq![c] + unescaped(s.skip(2))
    } else {
        seq![s[0]] + unescaped(s.skip(1))
    }
}

proof fn escaped_cons(s: Seq<char>)
    requires
        s.len() > 0,
    ensures
        escaped(s) == escape_char(s[0]) + escaped(s.drop_first()),
    decreases s.len(),
{
    if s.len() == 1 {
        assert(s.drop_last() =~= Seq::<char>::empty());
        assert(s.drop_first() =~= Seq::<char>::empty());
        assert(escaped(s) =~= escape_char(s[0]) + escaped(s.drop_first()));
    } else {
        escaped_cons(s.drop_last());
        assert(s.drop_last().drop_first() =~= s.drop_first().drop_last());
        assert(escaped(s) =~= escape_char(s[0]) + escaped(s.drop_first()));
    }
}

/// The host language turns the escaped text back into the XPath itself.
pub proof fn escaped_reads_back(s: Seq<char>)
    ensures
        unescaped(escaped(s)) == s,
    decreases s.len(),
{
    if s.len() > 0 {
        escaped_cons(s);
        escaped_reads_back(s.drop_first());
        let e = escaped(s);
        let head = escape_char(s[0]);
        assert(e.skip(head.len() as int) =~= escaped(s.drop_first()));
        assert(e[0] == head[0]);
        if head.len() == 2 {
            assert(e[1] == head[1]);
        }
        assert(seq![s[0]] + s.drop_first() =~= s);
    }
}

/// How many backslashes stand directly before the place `i`.
pub open spec fn backslashes_before(s: Seq<char>, i: int) -> nat
    decreases i,
{
    if 0 < i <= s.len() && s[i - 1] == '\\' {
        backslashes_before(s, i - 1) + 1
    } else {
        0
    }
}

proof fn backslashes_of_prefix(a: Seq<char>, b: Seq<char>, i: int)
    requires
        i <= a.len(),
    ensures
        backslashes_before(a + b, i) == backslashes_before(a, i),
    decreases i,
{
    if 0 < i {
        backslashes_of_prefix(a, b, i - 1);
    }
}

/// The escaped text stands on one line and ends no string literal: it holds no line feed,
/// carriage return or tab, an odd number of backslashes stands directly before each double
/// quote, and an even number before the end.
pub proof fn escaped_is_safe(s: Seq<char>)
    ensures
        forall|i: int|
            0 <= i < escaped(s).len() ==> {
                let c = #[trigger] escaped(s)[i];
                &&& c != '\n' && c != '\r' && c != '\t'
                &&& c == '"' ==> backslashes_before(escaped(s), i) % 2 == 1
            },
        backslashes_before(escaped(s), escaped(s).len() as int) % 2 == 0,
    decreases s.len(),
{
    if s.len() > 0 {
        escaped_is_safe(s.drop_last());
        let before = escaped(s.drop_last());
        let tail = escape_char(s.last());
        let all = escaped(s);
        let n = before.len() as int;
        backslashes_of_prefix(before, tail, n);
        assert(all[n] == tail[0]);
        if tail.len() == 2 {
            assert(all[n + 1] == tail[1]);
            assert(backslashes_before(all, n + 1) == backslashes_before(all, n) + 1);
        }
        assert forall|i: int| 0 <= i < all.len() implies {
            let c = #[trigger] all[i];
            &&& c != '\n' && c != '\r' && c != '\t'
            &&& c == '"' ==> backslashes_before(all, i) % 2 == 1
        } by {
            if i < n {
                assert(all[i] == before[i]);
                backslashes_of_prefix(before, tail, i);
            } else {
                assert(all[i] == tail[i - n]);
            }
        }
    }
}

// ── Matching ──

/// Every required pair stands among the attributes.
pub open spec fn satisfies(
    attrs: Seq<(Seq<char>, Seq<char>)>,
    preds: Seq<(Seq<char>, Seq<char>)>,
) -> bool {
    forall|i: int| 0 <= i < preds.len() ==> attrs.contains(#[trigger] preds[i])
}

/// How many nodes of the tree satisfy `preds`.
pub open spec fn match_count(node: NodeView, preds: Seq<(Seq<char>, Seq<char>)>) -> nat
    decreases node, node.children.len() + 1,
{
    (if satisfies(node.attrs, preds) {
        1nat
    } else {
        0
    }) + matches_below(node, preds, node.children.len())
}

/// How many nodes of the first `n` subtrees satisfy `preds`.
pub open spec fn matches_below(node: NodeView, preds: Seq<(Seq<char>, Seq<char>)>, n: nat) -> nat
    decreases node, n,
{
    if n == 0 || n > node.children.len() {
        0
    } else {
        matches_below(node, preds, (n - 1) as nat) + match_count(node.children[n - 1], preds)
    }
}

/// Finds the value of an attribute of a node, placeholders counted as missing.
pub fn node_attr<'a>(node: &'a UiNode, key: &str) -> (r: Option<&'a str>)
    ensures
        text_in(r) == attr_meaning(node@.attrs, key@),
{
    assert(node.attrs.deep_view() =~= node@.attrs);
    find_meaning(node.attrs.as_slice(), key)
}

/// Whether a node's attributes hold every required pair.
pub fn node_matches_attrs(node: &UiNode, preds: &[(&str, &str)]) -> (r: bool)
    ensures
        r == satisfies(node@.attrs, preds.deep_view()),
{
    let n: usize = preds.len();
    let m: usize = node.attrs.len();
    let ghost wanted = preds.deep_view();
    let ghost have = node@.attrs;
    for i in 0..n
        invariant
            n == preds@.len(),
            m == node.attrs@.len(),
            wanted == preds.deep_view(),
            have == node.attrs.deep_view(),
            forall|j: int| 0 <= j < i ==> have.contains(#[trigger] wanted[j]),
    {
        let (k, v) = preds[i];
        assert(wanted[i as int] == (k@, v@));
        let mut found = false;
        let mut j: usize = 0;
        while j < m && !found
            invariant
                m == node.attrs@.len(),
                j <= m,
                have == node.attrs.deep_view(),
                found ==> have.contains((k@, v@)),
                !found ==> forall|l: int| 0 <= l < j ==> have[l] != (k@, v@),
            decreases m - j,
        {
            assert(have[j as int] == (node.attrs@[j as int].0@, node.attrs@[j as int].1@));
            if same_text(node.attrs[j].0.as_str(), k) && same_text(node.attrs[j].1.as_str(), v) {
                found = true;
                assert(have[j as int] == (k@, v@));
            }
            j += 1;
        }
        if !found {
            assert(!have.contains(wanted[i as int]));
            return false;
        }
    }
    true
}

/// Counts the matching nodes of a tree on top of `count`, up to two.
fn walk(node: &UiNode, preds: &[(&str, &str)], count: &mut u32)
    requires
        *old(count) <= 2,
    ensures
        *final(count) == (if *old(count) + match_count(node@, preds.deep_view()) >= 2 {
            2
        } else {
            *old(count) + match_count(node@, preds.deep_view())
        }),
    decreases node,
{
    if *count >= 2 {
        return;
    }
    if node_matches_attrs(node, preds) {
        *count += 1;
    }
    let ghost own = *count as nat;
    let n: usize = node.children.len();
    proof {
        children_are_forest(*node);
    }
    for i in 0..n
        invariant
            n == node.children@.len(),
            node@.children == forest(node.children@),
            own == *old(count) + (if satisfies(node@.attrs, preds.deep_view()) {
                1nat
            } else {
                0
            }),
            own <= 2,
            *count <= 2,
            *count == (if own + matches_below(node@, preds.deep_view(), i as nat) >= 2 {
                2
            } else {
                own + matches_below(node@, preds.deep_view(), i as nat)
            }),
    {
        if *count >= 2 {
            proof {
                matches_below_grows(node@, preds.deep_view(), i as nat, n as nat);
            }
            return;
        }
        walk(&node.children[i], preds, count);
        assert(node@.children[i as int] == node.children@[i as int]@);
    }
}

proof fn matches_below_grows(
    node: NodeView,
    preds: Seq<(Seq<char>, Seq<char>)>,
    i: nat,
    n: nat,
)
    requires
        i <= n <= node.children.len(),
    ensures
        matches_below(node, preds, i) <= matches_below(node, preds, n),
    decreases n,
{
    if i < n {
        matches_below_grows(node, preds, i, (n - 1) as nat);
    }
}

/// Counts the nodes of a tree that satisfy `preds`. More than two count as two.
pub fn count_matches(root: &UiNode, preds: &[(&str, &str)]) -> (r: u32)
    ensures
        r == (if match_count(root@, preds.deep_view()) >= 2 {
            2
        } else {
            match_count(root@, preds.deep_view())
        }),
{
    let mut count: u32 = 0;
    walk(root, preds, &mut count);
    count
}

// ── Generating ──

/// An XPath with the given predicates.
pub open spec fn xpath_of(preds: Seq<(Seq<char>, Seq<char>)>) -> Seq<char>
    decreases preds.len(),
{
    if preds.len() == 0 {
        "//*"@
    } else {
        xpath_of(preds.drop_last()) + "[@"@ + preds.last().0 + "="@ + literal(preds.last().1)
            + "]"@
    }
}

/// Writes an XPath with the given predicates.
pub fn build_xpath_str(preds: &[(&str, &str)]) -> (r: String)
    ensures
        r@ == xpath_of(preds.deep_view()),
{
    let mut s = copy_of("//*");
    let n: usize = preds.len();
    let ghost all = preds.deep_view();
    assert(all.take(0) =~= Seq::empty());
    for i in 0..n
        invariant
            n == preds@.len(),
            all == preds.deep_view(),
            s@ == xpath_of(all.take(i as int)),
    {
        let ghost before = s@;
        let (k, v) = preds[i];
        assert(all.take(i + 1).drop_last() =~= all.take(i as int));
        assert(all.take(i + 1).last() == (k@, v@));
        let value = xpath_literal(v);
        s.append("[@");
        s.append(k);
        s.append("=");
        s.append(value.as_str());
        s.append("]");
        assert(s@ =~= before + "[@"@ + k@ + "="@ + literal(v@) + "]"@);
    }
    assert(all.take(n as int) =~= all);
    s
}

/// A pair of a name and a value that is there, in a list.
pub open spec fn pair(k: Seq<char>, v: Option<Seq<char>>) -> Seq<(Seq<char>, Seq<char>)> {
    match v {
        Some(x) => seq![(k, x)],
        None => Seq::empty(),
    }
}

/// The candidate with the given predicates, if there are as many as it should have.
pub open spec fn candidate(
    preds: Seq<(Seq<char>, Seq<char>)>,
    n: nat,
) -> Seq<Seq<(Seq<char>, Seq<char>)>> {
    if preds.len() == n {
        seq![preds]
    } else {
        Seq::empty()
    }
}

/// The candidates made of what identifies an element, the preferred ones first.
pub open spec fn base_candidates(attrs: Seq<(Seq<char>, Seq<char>)>) -> Seq<
    Seq<(Seq<char>, Seq<char>)>,
> {
    let text = pair("text"@, attr_meaning(attrs, "text"@));
    let id = pair("resource-id"@, attr_meaning(attrs, "resource-id"@));
    let desc = pair("content-desc"@, attr_meaning(attrs, "content-desc"@));
    let class = pair("class"@, attr_meaning(attrs, "class"@));
    candidate(text, 1) + candidate(id, 1) + candidate(desc, 1) + candidate(id + text, 2)
        + candidate(class + text, 2) + candidate(class + id, 2) + candidate(id + desc, 2)
        + candidate(class + id + desc, 3)
}

/// The predicates on an element's state.
pub open spec fn state_preds(attrs: Seq<(Seq<char>, Seq<char>)>) -> Seq<(Seq<char>, Seq<char>)> {
    pair("checked"@, attr_meaning(attrs, "checked"@)) + pair(
        "selected"@,
        attr_meaning(attrs, "selected"@),
    )
}

/// Each of the first `n` candidates with the state added.
pub open spec fn with_state(
    base: Seq<Seq<(Seq<char>, Seq<char>)>>,
    state: Seq<(Seq<char>, Seq<char>)>,
    n: nat,
) -> Seq<Seq<(Seq<char>, Seq<char>)>> {
    Seq::new(n, |i: int| base[i] + state)
}

/// All candidates in the order in which they are tried: those of identity, then, where
/// the element has a state, the same with the state, and last its class with the state.
pub open spec fn candidates(attrs: Seq<(Seq<char>, Seq<char>)>) -> Seq<
    Seq<(Seq<char>, Seq<char>)>,
> {
    let base = base_candidates(attrs);
    let state = state_preds(attrs);
    if state.len() == 0 {
        base
    } else {
        let class = pair("class"@, attr_meaning(attrs, "class"@));
        base + with_state(base, state, base.len()) + (if class.len() == 1 {
            seq![class + state]
        } else {
            Seq::empty()
        })
    }
}

/// The first of the candidates from `i` on that exactly one node of the tree satisfies.
pub open spec fn first_unique(
    root: NodeView,
    cands: Seq<Seq<(Seq<char>, Seq<char>)>>,
    i: int,
) -> Option<Seq<(Seq<char>, Seq<char>)>>
    decreases cands.len() - i,
{
    if i >= cands.len() {
        None
    } else if match_count(root, cands[i]) == 1 {
        Some(cands[i])
    } else {
        first_unique(root, cands, i + 1)
    }
}

/// The XPath of the first candidate that singles out one node, if there is one.
pub open spec fn generated(node: NodeView, root: NodeView) -> Option<Seq<char>> {
    match first_unique(root, candidates(node.attrs), 0) {
        Some(preds) => Some(xpath_of(preds)),
        None => None,
    }
}

/// Adds a candidate made of one to three attributes if all of them are there.
fn offer<'a>(
    cands: &mut Vec<Vec<(&'a str, &'a str)>>,
    a: Vec<(&'a str, &'a str)>,
    wanted: usize,
)
    ensures
        final(cands).deep_view() == old(cands).deep_view() + candidate(
            a.deep_view(),
            wanted as nat,
        ),
{
    let ghost before = cands.deep_view();
    if a.len() == wanted {
        cands.push(a);
        assert(cands.deep_view() =~= before + seq![a.deep_view()]);
    } else {
        assert(cands.deep_view() =~= before + Seq::empty());
    }
}

/// The pairs of the attributes that are there.
fn pairs<'a>(node: &'a UiNode, keys: &Vec<&'static str>) -> (r: Vec<(&'a str, &'a str)>)
    ensures
        r.deep_view() == pairs_of(node@.attrs, keys.deep_view()),
{
    let mut out: Vec<(&'a str, &'a str)> = Vec::new();
    let n: usize = keys.len();
    let ghost all = keys.deep_view();
    assert(all.take(0) =~= Seq::empty());
    assert(out.deep_view() =~= Seq::empty());
    for i in 0..n
        invariant
            n == keys@.len(),
            all == keys.deep_view(),
            out.deep_view() == pairs_of(node@.attrs, all.take(i as int)),
    {
        let ghost before = out.deep_view();
        let key: &'static str = keys[i];
        assert(all.take(i + 1).drop_last() =~= all.take(i as int));
        assert(all.take(i + 1).last() == key@);
        match node_attr(node, key) {
            Some(v) => {
                out.push((key, v));
                assert(out.deep_view() =~= before + seq![(key@, v@)]);
            },
            None => {
                assert(out.deep_view() =~= before + Seq::empty());
            },
        }
    }
    assert(all.take(n as int) =~= all);
    out
}

/// The pairs of those of the attributes `keys` that are there.
pub open spec fn pairs_of(
    attrs: Seq<(Seq<char>, Seq<char>)>,
    keys: Seq<Seq<char>>,
) -> Seq<(Seq<char>, Seq<char>)>
    decreases keys.len(),
{
    if keys.len() == 0 {
        Seq::empty()
    } else {
        pairs_of(attrs, keys.drop_last()) + pair(keys.last(), attr_meaning(attrs, keys.last()))
    }
}

proof fn pairs_of_one(attrs: Seq<(Seq<char>, Seq<char>)>, a: Seq<char>)
    ensures
        pairs_of(attrs, seq![a]) == pair(a, attr_meaning(attrs, a)),
{
    assert(seq![a].drop_last() =~= Seq::empty());
    assert(pairs_of(attrs, seq![a].drop_last()) =~= Seq::empty());
    assert(pairs_of(attrs, seq![a]) =~= pair(a, attr_meaning(attrs, a)));
}

proof fn pairs_of_two(attrs: Seq<(Seq<char>, Seq<char>)>, a: Seq<char>, b: Seq<char>)
    ensures
        pairs_of(attrs, seq![a, b]) == pair(a, attr_meaning(attrs, a)) + pair(
            b,
            attr_meaning(attrs, b),
        ),
{
    assert(seq![a, b].drop_last() =~= seq![a]);
    pairs_of_one(attrs, a);
}

proof fn pairs_of_three(
    attrs: Seq<(Seq<char>, Seq<char>)>,
    a: Seq<char>,
    b: Seq<char>,
    c: Seq<char>,
)
    ensures
        pairs_of(attrs, seq![a, b, c]) == pair(a, attr_meaning(attrs, a)) + pair(
            b,
            attr_meaning(attrs, b),
        ) + pair(c, attr_meaning(attrs, c)),
{
    assert(seq![a, b, c].drop_last() =~= seq![a, b]);
    pairs_of_two(attrs, a, b);
}

/// Lists the candidates for a node in the order in which they are tried.
fn list_candidates<'a>(node: &'a UiNode) -> (r: Vec<Vec<(&'a str, &'a str)>>)
    ensures
        r.deep_view() == candidates(node@.attrs),
{
    let ghost attrs = node@.attrs;
    let one: Vec<&'static str> = vec!["text"];
    let two: Vec<&'static str> = vec!["resource-id"];
    let three: Vec<&'static str> = vec!["content-desc"];
    let four: Vec<&'static str> = vec!["resource-id", "text"];
    let five: Vec<&'static str> = vec!["class", "text"];
    let six: Vec<&'static str> = vec!["class", "resource-id"];
    let seven: Vec<&'static str> = vec!["resource-id", "content-desc"];
    let eight: Vec<&'static str> = vec!["class", "resource-id", "content-desc"];
    let nine: Vec<&'static str> = vec!["class"];
    let ten: Vec<&'static str> = vec!["checked", "selected"];
    proof {
        assert(one.deep_view() =~= seq!["text"@]);
        assert(two.deep_view() =~= seq!["resource-id"@]);
        assert(three.deep_view() =~= seq!["content-desc"@]);
        assert(four.deep_view() =~= seq!["resource-id"@, "text"@]);
        assert(five.deep_view() =~= seq!["class"@, "text"@]);
        assert(six.deep_view() =~= seq!["class"@, "resource-id"@]);
        assert(seven.deep_view() =~= seq!["resource-id"@, "content-desc"@]);
        assert(eight.deep_view() =~= seq!["class"@, "resource-id"@, "content-desc"@]);
        assert(nine.deep_view() =~= seq!["class"@]);
        assert(ten.deep_view() =~= seq!["checked"@, "selected"@]);
        pairs_of_one(attrs, "text"@);
        pairs_of_one(attrs, "resource-id"@);
        pairs_of_one(attrs, "content-desc"@);
        pairs_of_one(attrs, "class"@);
        pairs_of_two(attrs, "resource-id"@, "text"@);
        pairs_of_two(attrs, "class"@, "text"@);
        pairs_of_two(attrs, "class"@, "resource-id"@);
        pairs_of_two(attrs, "resource-id"@, "content-desc"@);
        pairs_of_three(attrs, "class"@, "resource-id"@, "content-desc"@);
        pairs_of_two(attrs, "checked"@, "selected"@);
    }
    let mut base: Vec<Vec<(&'a str, &'a str)>> = Vec::new();
    assert(base.deep_view() =~= Seq::empty());
    offer(&mut base, pairs(node, &one), 1);
    assert(Seq::empty() + candidate(pairs_of(attrs, seq!["text"@]), 1) =~= candidate(
        pairs_of(attrs, seq!["text"@]),
        1,
    ));
    offer(&mut base, pairs(node, &two), 1);
    offer(&mut base, pairs(node, &three), 1);
    offer(&mut base, pairs(node, &four), 2);
    offer(&mut base, pairs(node, &five), 2);
    offer(&mut base, pairs(node, &six), 2);
    offer(&mut base, pairs(node, &seven), 2);
    offer(&mut base, pairs(node, &eight), 3);
    assert(base.deep_view() == base_candidates(attrs));
    let state = pairs(node, &ten);
    if state.len() == 0 {
        return base;
    }
    let n: usize = base.len();
    let ghost plain = base.deep_view();
    let ghost st = state.deep_view();
    let mut all = base;
    for i in 0..n
        invariant
            n == plain.len(),
            st == state.deep_view(),
            all@.len() == n + i,
            all.deep_view() == plain + with_state(plain, st, i as nat),
    {
        let ghost before = all.deep_view();
        let extended = extend(&all[i], &state);
        assert(all@[i as int].deep_view() == before[i as int]);
        assert(before[i as int] == plain[i as int]);
        all.push(extended);
        assert(all.deep_view() =~= before.push(plain[i as int] + st));
        assert(all.deep_view() =~= plain + with_state(plain, st, (i + 1) as nat));
    }
    let class = pairs(node, &nine);
    let ghost before = all.deep_view();
    if class.len() == 1 {
        all.push(extend(&class, &state));
        assert(all.deep_view() =~= before + seq![class.deep_view() + st]);
    } else {
        assert(all.deep_view() =~= before + Seq::empty());
    }
    all
}

/// One list of predicates after the other.
fn extend<'a>(a: &Vec<(&'a str, &'a str)>, b: &Vec<(&'a str, &'a str)>) -> (r: Vec<
    (&'a str, &'a str),
>)
    ensures
        r.deep_view() == a.deep_view() + b.deep_view(),
{
    let mut out: Vec<(&'a str, &'a str)> = Vec::new();
    let n: usize = a.len();
    for i in 0..n
        invariant
            n == a@.len(),
            out@ == a@.take(i as int),
    {
        out.push(a[i]);
    }
    let m: usize = b.len();
    for i in 0..m
        invariant
            m == b@.len(),
            out@ == a@ + b@.take(i as int),
    {
        out.push(b[i]);
    }
    assert(out@ =~= a@ + b@);
    assert(out.deep_view() =~= a.deep_view() + b.deep_view());
    out
}

/// Generates the XPath that singles `node` out of the page `root`: the first candidate
/// that exactly one node satisfies. There may be none.
pub fn generate_xpath(node: &UiNode, root: &UiNode) -> (r: Option<String>)
    ensures
        chars_in(r) == generated(node@, root@),
{
    let cands = list_candidates(node);
    let n: usize = cands.len();
    let ghost all = candidates(node@.attrs);
    for i in 0..n
        invariant
            n == cands@.len(),
            all == cands.deep_view(),
            all == candidates(node@.attrs),
            first_unique(root@, all, 0) == first_unique(root@, all, i as int),
    {
        assert(all[i as int] == cands@[i as int].deep_view());
        let preds = cands[i].as_slice();
        assert(preds.deep_view() =~= cands@[i as int].deep_view());
        if count_matches(root, preds) == 1 {
            return Some(build_xpath_str(preds));
        }
    }
    None
}

// ── Laws ──

/// An attribute's meaning is a pair among the attributes.
proof fn value_is_a_pair(attrs: Seq<(Seq<char>, Seq<char>)>, key: Seq<char>)
    ensures
        attr_value(attrs, key) matches Some(v) ==> attrs.contains((key, v)),
    decreases attrs.len(),
{
    if attrs.len() > 0 {
        if attrs[0].0 == key {
            assert(attrs[0] == (key, attrs[0].1));
        } else {
            value_is_a_pair(attrs.drop_first(), key);
            if let Some(v) = attr_value(attrs, key) {
                let rest = attrs.drop_first();
                let k = choose|k: int| 0 <= k < rest.len() && rest[k] == (key, v);
                assert(attrs[k + 1] == (key, v));
            }
        }
    }
}

/// Each predicate gives one of the attributes with its value, and that value means something.
pub open spec fn describes(
    preds: Seq<(Seq<char>, Seq<char>)>,
    attrs: Seq<(Seq<char>, Seq<char>)>,
) -> bool {
    forall|i: int|
        0 <= i < preds.len() ==> attr_meaning(attrs, (#[trigger] preds[i]).0) == Some(preds[i].1)
}

proof fn both_describe(
    a: Seq<(Seq<char>, Seq<char>)>,
    b: Seq<(Seq<char>, Seq<char>)>,
    attrs: Seq<(Seq<char>, Seq<char>)>,
)
    requires
        describes(a, attrs),
        describes(b, attrs),
    ensures
        describes(a + b, attrs),
{
    assert forall|i: int| 0 <= i < (a + b).len() implies attr_meaning(
        attrs,
        (#[trigger] (a + b)[i]).0,
    ) == Some((a + b)[i].1) by {
        if i < a.len() {
            assert((a + b)[i] == a[i]);
        } else {
            assert((a + b)[i] == b[i - a.len()]);
        }
    }
}

/// Every candidate for a node says at least one thing, each of them an attribute of the node,
/// and so is satisfied by the node itself.
pub proof fn candidates_match_self(attrs: Seq<(Seq<char>, Seq<char>)>, i: int)
    requires
        0 <= i < candidates(attrs).len(),
    ensures
        candidates(attrs)[i].len() > 0,
        describes(candidates(attrs)[i], attrs),
        satisfies(attrs, candidates(attrs)[i]),
{
    let text = pair("text"@, attr_meaning(attrs, "text"@));
    let id = pair("resource-id"@, attr_meaning(attrs, "resource-id"@));
    let desc = pair("content-desc"@, attr_meaning(attrs, "content-desc"@));
    let class = pair("class"@, attr_meaning(attrs, "class"@));
    let checked = pair("checked"@, attr_meaning(attrs, "checked"@));
    let selected = pair("selected"@, attr_meaning(attrs, "selected"@));
    both_describe(id, text, attrs);
    both_describe(class, text, attrs);
    both_describe(class, id, attrs);
    both_describe(id, desc, attrs);
    both_describe(class + id, desc, attrs);
    both_describe(checked, selected, attrs);
    let base = base_candidates(attrs);
    let state = state_preds(attrs);
    assert forall|k: int| 0 <= k < base.len() implies describes(#[trigger] base[k], attrs)
        && base[k].len() > 0 by {
        base_member(attrs, k);
    }
    let all = candidates(attrs);
    if i >= base.len() {
        if i < 2 * base.len() {
            assert(all[i] == base[i - base.len()] + state);
            both_describe(base[i - base.len()], state, attrs);
        } else {
            assert(all[i] == class + state);
            both_describe(class, state, attrs);
        }
    } else {
        assert(all[i] == base[i]);
    }
    assert forall|k: int| 0 <= k < all[i].len() implies attrs.contains(#[trigger] all[i][k]) by {
        value_is_a_pair(attrs, all[i][k].0);
        assert(all[i][k] == (all[i][k].0, all[i][k].1));
    }
}

/// Each base candidate is one of eight combinations.
proof fn base_member(attrs: Seq<(Seq<char>, Seq<char>)>, k: int)
    requires
        0 <= k < base_candidates(attrs).len(),
    ensures
        ({
            let text = pair("text"@, attr_meaning(attrs, "text"@));
            let id = pair("resource-id"@, attr_meaning(attrs, "resource-id"@));
            let desc = pair("content-desc"@, attr_meaning(attrs, "content-desc"@));
            let class = pair("class"@, attr_meaning(attrs, "class"@));
            let c = base_candidates(attrs)[k];
            c == text || c == id || c == desc || c == id + text || c == class + text || c == class
                + id || c == id + desc || c == class + id + desc
        }),
        base_candidates(attrs)[k].len() > 0,
{
    let text = pair("text"@, attr_meaning(attrs, "text"@));
    let id = pair("resource-id"@, attr_meaning(attrs, "resource-id"@));
    let desc = pair("content-desc"@, attr_meaning(attrs, "content-desc"@));
    let class = pair("class"@, attr_meaning(attrs, "class"@));
    let s1 = candidate(text, 1);
    let s2 = s1 + candidate(id, 1);
    let s3 = s2 + candidate(desc, 1);
    let s4 = s3 + candidate(id + text, 2);
    let s5 = s4 + candidate(class + text, 2);
    let s6 = s5 + candidate(class + id, 2);
    let s7 = s6 + candidate(id + desc, 2);
    let s8 = s7 + candidate(class + id + desc, 3);
    assert(s8 == base_candidates(attrs));
    if k >= s7.len() {
    } else if k >= s6.len() {
        assert(s8[k] == s7[k]);
    } else if k >= s5.len() {
        assert(s8[k] == s6[k]);
    } else if k >= s4.len() {
        assert(s8[k] == s5[k]);
    } else if k >= s3.len() {
        assert(s8[k] == s4[k]);
    } else if k >= s2.len() {
        assert(s8[k] == s3[k]);
    } else if k >= s1.len() {
        assert(s8[k] == s2[k]);
    } else {
        assert(s8[k] == s1[k]);
    }
}

proof fn first_unique_found(root: NodeView, cands: Seq<Seq<(Seq<char>, Seq<char>)>>, i: int)
    requires
        0 <= i,
    ensures
        first_unique(root, cands, i) matches Some(p) ==> (exists|k: int|
            i <= k < cands.len() && #[trigger] cands[k] == p && match_count(root, p) == 1 && (
            forall|j: int| i <= j < k ==> match_count(root, #[trigger] cands[j]) != 1)),
        first_unique(root, cands, i) is None ==> forall|j: int|
            i <= j < cands.len() ==> match_count(root, #[trigger] cands[j]) != 1,
    decreases cands.len() - i,
{
    if i < cands.len() {
        first_unique_found(root, cands, i + 1);
        if match_count(root, cands[i]) != 1 {
            if let Some(p) = first_unique(root, cands, i + 1) {
                let k = choose|k: int|
                    i + 1 <= k < cands.len() && #[trigger] cands[k] == p && match_count(root, p)
                        == 1 && (forall|j: int|
                        i + 1 <= j < k ==> match_count(root, #[trigger] cands[j]) != 1);
                assert(cands[k] == p);
            }
        } else {
            assert(cands[i] == first_unique(root, cands, i)->0);
        }
    }
}

proof fn match_count_covers(
    node: NodeView,
    preds: Seq<(Seq<char>, Seq<char>)>,
    path: Seq<usize>,
)
    requires
        node_on(node, path) matches Some(hit) && satisfies(hit.attrs, preds),
    ensures
        match_count(node, preds) >= 1,
    decreases path.len(),
{
    if path.len() > 0 {
        let k = path[0] as nat;
        match_count_covers(node.children[k as int], preds, path.drop_first());
        matches_below_grows(node, preds, k + 1, node.children.len());
    }
}

proof fn match_count_of_two(
    node: NodeView,
    preds: Seq<(Seq<char>, Seq<char>)>,
    p: Seq<usize>,
    q: Seq<usize>,
)
    requires
        node_on(node, p) matches Some(hit) && satisfies(hit.attrs, preds),
        node_on(node, q) matches Some(hit) && satisfies(hit.attrs, preds),
        p != q,
    ensures
        match_count(node, preds) >= 2,
    decreases p.len() + q.len(),
{
    if p.len() == 0 || q.len() == 0 {
        let longer = if p.len() == 0 {
            q
        } else {
            p
        };
        if longer.len() == 0 {
            assert(p =~= q);
        }
        let k = longer[0] as nat;
        match_count_covers(node.children[k as int], preds, longer.drop_first());
        matches_below_grows(node, preds, k + 1, node.children.len());
    } else if p[0] == q[0] {
        let k = p[0] as nat;
        if p.drop_first() == q.drop_first() {
            assert(p =~= seq![p[0]] + p.drop_first());
            assert(q =~= seq![q[0]] + q.drop_first());
        }
        match_count_of_two(node.children[k as int], preds, p.drop_first(), q.drop_first());
        matches_below_grows(node, preds, k + 1, node.children.len());
    } else {
        let (a, b) = if p[0] < q[0] {
            (p, q)
        } else {
            (q, p)
        };
        match_count_covers(node.children[a[0] as int], preds, a.drop_first());
        match_count_covers(node.children[b[0] as int], preds, b.drop_first());
        matches_below_grows(node, preds, (a[0] + 1) as nat, b[0] as nat);
        matches_below_grows(node, preds, (b[0] + 1) as nat, node.children.len());
    }
}

/// A generated XPath comes from at least one predicate. Each predicate gives an attribute of
/// the node on `path` with a value that means something, so that node satisfies them all. No
/// other node of the page does.
pub proof fn xpath_is_unique(root: NodeView, path: Seq<usize>, node: NodeView)
    requires
        node_on(root, path) == Some(node),
        generated(node, root) is Some,
    ensures
        exists|preds: Seq<(Seq<char>, Seq<char>)>|
            {
                &&& generated(node, root) == Some(#[trigger] xpath_of(preds))
                &&& preds.len() > 0
                &&& describes(preds, node.attrs)
                &&& satisfies(node.attrs, preds)
                &&& forall|other: Seq<usize>|
                    (#[trigger] node_on(root, other) matches Some(hit) && satisfies(
                        hit.attrs,
                        preds,
                    )) ==> other == path
            },
{
    let cands = candidates(node.attrs);
    first_unique_found(root, cands, 0);
    let preds = first_unique(root, cands, 0)->0;
    let k = choose|k: int|
        0 <= k < cands.len() && #[trigger] cands[k] == preds && match_count(root, preds) == 1 && (
        forall|j: int| 0 <= j < k ==> match_count(root, #[trigger] cands[j]) != 1);
    candidates_match_self(node.attrs, k);
    assert forall|other: Seq<usize>|
        (#[trigger] node_on(root, other) matches Some(hit) && satisfies(
            hit.attrs,
            preds,
        )) implies other == path by {
        if other != path {
            match_count_of_two(root, preds, other, path);
        }
    }
    assert(generated(node, root) == Some(xpath_of(preds)));
}

/// No XPath is generated exactly where each candidate is satisfied by more than one node.
pub proof fn no_xpath_only_if_ambiguous(root: NodeView, path: Seq<usize>, node: NodeView)
    requires
        node_on(root, path) == Some(node),
    ensures
        generated(node, root) is None <==> forall|k: int|
            0 <= k < candidates(node.attrs).len() ==> match_count(
                root,
                #[trigger] candidates(node.attrs)[k],
            ) >= 2,
{
    let cands = candidates(node.attrs);
    first_unique_found(root, cands, 0);
    assert forall|k: int| 0 <= k < cands.len() implies match_count(root, #[trigger] cands[k])
        >= 1 by {
        candidates_match_self(node.attrs, k);
        match_count_covers(root, cands[k], path);
    }
    if let Some(p) = first_unique(root, cands, 0) {
        let k = choose|k: int|
            0 <= k < cands.len() && #[trigger] cands[k] == p && match_count(root, p) == 1 && (
            forall|j: int| 0 <= j < k ==> match_count(root, #[trigger] cands[j]) != 1);
        assert(match_count(root, cands[k]) == 1);
    }
}

// ── Laws of choice ──

/// The name and the value are those of one of the attributes.
pub open spec fn stands_among(
    pair: (Seq<char>, Seq<char>),
    attrs: Seq<(Seq<char>, Seq<char>)>,
) -> bool {
    exists|j: int| 0 <= j < attrs.len() && #[trigger] attrs[j] == pair
}

/// A node of the tree has every required attribute with its value.
pub open spec fn matched_on(
    root: NodeView,
    path: Seq<usize>,
    preds: Seq<(Seq<char>, Seq<char>)>,
) -> bool {
    node_on(root, path) matches Some(hit) && forall|i: int|
        0 <= i < preds.len() ==> stands_among(#[trigger] preds[i], hit.attrs)
}

/// The count of matches tells whether there is none, one or more than one: none where no node
/// of the tree has all the required attributes, one where exactly one node has.
pub proof fn count_tells_how_many(root: NodeView, preds: Seq<(Seq<char>, Seq<char>)>)
    requires
        addressable(root),
    ensures
        match_count(root, preds) == 0 <==> forall|p: Seq<usize>| !#[trigger] matched_on(
            root,
            p,
            preds,
        ),
        match_count(root, preds) == 1 <==> (exists|p: Seq<usize>| #[trigger]
            matched_on(root, p, preds)) && (forall|p: Seq<usize>, q: Seq<usize>| #[trigger]
            matched_on(root, p, preds) && #[trigger] matched_on(root, q, preds) ==> p == q),
{
    assert forall|p: Seq<usize>| #[trigger] matched_on(root, p, preds) implies match_count(
        root,
        preds,
    ) >= 1 by {
        matched_is_satisfied(root, p, preds);
        match_count_covers(root, preds, p);
    }
    assert forall|p: Seq<usize>, q: Seq<usize>| #[trigger]
        matched_on(root, p, preds) && #[trigger] matched_on(root, q, preds) && p
            != q implies match_count(root, preds) >= 2 by {
        matched_is_satisfied(root, p, preds);
        matched_is_satisfied(root, q, preds);
        match_count_of_two(root, preds, p, q);
    }
    if match_count(root, preds) >= 1 {
        let p = a_match(root, preds);
        assert(matched_on(root, p, preds));
    }
    if match_count(root, preds) >= 2 {
        let (p, q) = two_matches(root, preds);
        assert(matched_on(root, p, preds) && matched_on(root, q, preds));
    }
}

proof fn a_match(node: NodeView, preds: Seq<(Seq<char>, Seq<char>)>) -> (p: Seq<usize>)
    requires
        addressable(node),
        match_count(node, preds) >= 1,
    ensures
        matched_on(node, p, preds),
    decreases node, node.children.len() + 1,
{
    if satisfies(node.attrs, preds) {
        let p = Seq::<usize>::empty();
        satisfied_is_matched(node, p, preds);
        p
    } else {
        a_match_below(node, preds, node.children.len())
    }
}

proof fn matched_is_satisfied(
    root: NodeView,
    path: Seq<usize>,
    preds: Seq<(Seq<char>, Seq<char>)>,
)
    requires
        matched_on(root, path, preds),
    ensures
        node_on(root, path) matches Some(hit) && satisfies(hit.attrs, preds),
{
    let attrs = node_on(root, path)->0.attrs;
    assert forall|i: int| 0 <= i < preds.len() implies attrs.contains(#[trigger] preds[i]) by {
        assert(stands_among(preds[i], attrs));
    }
}

proof fn satisfied_is_matched(
    root: NodeView,
    path: Seq<usize>,
    preds: Seq<(Seq<char>, Seq<char>)>,
)
    requires
        node_on(root, path) matches Some(hit) && satisfies(hit.attrs, preds),
    ensures
        matched_on(root, path, preds),
{
    let attrs = node_on(root, path)->0.attrs;
    assert forall|i: int| 0 <= i < preds.len() implies stands_among(#[trigger] preds[i], attrs) by {
        assert(attrs.contains(preds[i]));
    }
}

proof fn matched_in_child(
    node: NodeView,
    k: nat,
    p: Seq<usize>,
    preds: Seq<(Seq<char>, Seq<char>)>,
)
    requires
        addressable(node),
        k < node.children.len(),
        matched_on(node.children[k as int], p, preds),
    ensures
        matched_on(node, seq![k as usize] + p, preds),
{
    assert((seq![k as usize] + p).drop_first() =~= p);
    assert(node_on(node, seq![k as usize] + p) == node_on(node.children[k as int], p));
}

proof fn a_match_below(node: NodeView, preds: Seq<(Seq<char>, Seq<char>)>, n: nat) -> (p: Seq<
    usize,
>)
    requires
        addressable(node),
        n <= node.children.len(),
        matches_below(node, preds, n) >= 1,
    ensures
        matched_on(node, p, preds),
        p.len() > 0 && p[0] < n,
    decreases node, n,
{
    if match_count(node.children[n - 1], preds) >= 1 {
        let q = a_match(node.children[n - 1], preds);
        matched_in_child(node, (n - 1) as nat, q, preds);
        seq![(n - 1) as usize] + q
    } else {
        a_match_below(node, preds, (n - 1) as nat)
    }
}

proof fn two_matches(node: NodeView, preds: Seq<(Seq<char>, Seq<char>)>) -> (r: (
    Seq<usize>,
    Seq<usize>,
))
    requires
        addressable(node),
        match_count(node, preds) >= 2,
    ensures
        matched_on(node, r.0, preds),
        matched_on(node, r.1, preds),
        r.0 != r.1,
    decreases node, node.children.len() + 1,
{
    if satisfies(node.attrs, preds) {
        let p = Seq::<usize>::empty();
        satisfied_is_matched(node, p, preds);
        let q = a_match_below(node, preds, node.children.len());
        (p, q)
    } else {
        two_matches_below(node, preds, node.children.len())
    }
}

proof fn two_matches_below(node: NodeView, preds: Seq<(Seq<char>, Seq<char>)>, n: nat) -> (r: (
    Seq<usize>,
    Seq<usize>,
))
    requires
        addressable(node),
        n <= node.children.len(),
        matches_below(node, preds, n) >= 2,
    ensures
        matched_on(node, r.0, preds),
        matched_on(node, r.1, preds),
        r.0 != r.1,
    decreases node, n,
{
    let k = (n - 1) as nat;
    let child = node.children[n - 1];
    if match_count(child, preds) >= 2 {
        let (p, q) = two_matches(child, preds);
        matched_in_child(node, k, p, preds);
        matched_in_child(node, k, q, preds);
        let a = seq![k as usize] + p;
        let b = seq![k as usize] + q;
        assert(a.drop_first() =~= p && b.drop_first() =~= q);
        (a, b)
    } else if match_count(child, preds) == 1 {
        let p = a_match(child, preds);
        matched_in_child(node, k, p, preds);
        let a = seq![k as usize] + p;
        let b = a_match_below(node, preds, k);
        assert(a[0] == k as usize);
        (a, b)
    } else {
        two_matches_below(node, preds, k)
    }
}

/// The predicates on some attributes of a node.
pub open spec fn predicates(attrs: Seq<(Seq<char>, Seq<char>)>, keys: Seq<Seq<char>>) -> Seq<
    (Seq<char>, Seq<char>),
> {
    Seq::new(keys.len(), |i: int| (keys[i], attr_meaning(attrs, keys[i])->0))
}

/// Each of the attributes is there and means something, and together, with some predicates
/// more, they are those of one node of the page only.
pub open spec fn singles_out(
    root: NodeView,
    attrs: Seq<(Seq<char>, Seq<char>)>,
    keys: Seq<Seq<char>>,
    more: Seq<(Seq<char>, Seq<char>)>,
) -> bool {
    &&& forall|i: int|
        0 <= i < keys.len() ==> attr_meaning(attrs, #[trigger] keys[i]) is Some
    &&& match_count(root, predicates(attrs, keys) + more) == 1
}

/// What identifies an element, the preferred choice first.
pub open spec fn identities() -> Seq<Seq<Seq<char>>> {
    seq![
        seq!["text"@],
        seq!["resource-id"@],
        seq!["content-desc"@],
        seq!["resource-id"@, "text"@],
        seq!["class"@, "text"@],
        seq!["class"@, "resource-id"@],
        seq!["resource-id"@, "content-desc"@],
        seq!["class"@, "resource-id"@, "content-desc"@],
    ]
}

/// The first of the choices from `i` on that singles a node out, with some predicates more.
pub open spec fn first_choice(
    root: NodeView,
    attrs: Seq<(Seq<char>, Seq<char>)>,
    more: Seq<(Seq<char>, Seq<char>)>,
    k: int,
) -> bool {
    &&& 0 <= k < identities().len()
    &&& singles_out(root, attrs, identities()[k], more)
    &&& forall|j: int| 0 <= j < k ==> !singles_out(root, attrs, #[trigger] identities()[j], more)
}

proof fn unique_of_parts(
    root: NodeView,
    a: Seq<Seq<(Seq<char>, Seq<char>)>>,
    b: Seq<Seq<(Seq<char>, Seq<char>)>>,
    i: int,
)
    requires
        0 <= i <= a.len(),
    ensures
        first_unique(root, a + b, i) == (match first_unique(root, a, i) {
            Some(p) => Some(p),
            None => first_unique(root, b, 0),
        }),
    decreases a.len() - i,
{
    if i < a.len() {
        assert((a + b)[i] == a[i]);
        unique_of_parts(root, a, b, i + 1);
    } else {
        unique_of_tail(root, a, b, 0);
    }
}

proof fn unique_of_tail(
    root: NodeView,
    a: Seq<Seq<(Seq<char>, Seq<char>)>>,
    b: Seq<Seq<(Seq<char>, Seq<char>)>>,
    i: int,
)
    requires
        0 <= i <= b.len(),
    ensures
        first_unique(root, a + b, a.len() + i) == first_unique(root, b, i),
    decreases b.len() - i,
{
    if i < b.len() {
        assert((a + b)[a.len() + i] == b[i]);
        unique_of_tail(root, a, b, i + 1);
    }
}

proof fn unique_of_one(
    root: NodeView,
    preds: Seq<(Seq<char>, Seq<char>)>,
    n: nat,
    more: Seq<(Seq<char>, Seq<char>)>,
)
    ensures
        first_unique(root, with_state(candidate(preds, n), more, candidate(preds, n).len()), 0) == (
        if preds.len() == n && match_count(root, preds + more) == 1 {
            Some(preds + more)
        } else {
            None
        }),
{
    let list = with_state(candidate(preds, n), more, candidate(preds, n).len());
    if preds.len() == n {
        assert(list.len() == 1 && list[0] == preds + more);
        assert(first_unique(root, list, 1) is None);
    } else {
        assert(list.len() == 0);
    }
}

proof fn states_of_parts(
    a: Seq<Seq<(Seq<char>, Seq<char>)>>,
    b: Seq<Seq<(Seq<char>, Seq<char>)>>,
    more: Seq<(Seq<char>, Seq<char>)>,
)
    ensures
        with_state(a + b, more, (a + b).len()) == with_state(a, more, a.len()) + with_state(
            b,
            more,
            b.len(),
        ),
{
    assert(with_state(a + b, more, (a + b).len()) =~= with_state(a, more, a.len()) + with_state(
        b,
        more,
        b.len(),
    ));
}

/// The choice among the base candidates, with some predicates more, adds one candidate.
proof fn choice_grows(
    root: NodeView,
    list: Seq<Seq<(Seq<char>, Seq<char>)>>,
    preds: Seq<(Seq<char>, Seq<char>)>,
    n: nat,
    more: Seq<(Seq<char>, Seq<char>)>,
)
    ensures
        ({
            let all = list + candidate(preds, n);
            first_unique(root, with_state(all, more, all.len()), 0) == (match first_unique(
                root,
                with_state(list, more, list.len()),
                0,
            ) {
                Some(p) => Some(p),
                None => if preds.len() == n && match_count(root, preds + more) == 1 {
                    Some(preds + more)
                } else {
                    None
                },
            })
        }),
{
    states_of_parts(list, candidate(preds, n), more);
    unique_of_parts(
        root,
        with_state(list, more, list.len()),
        with_state(candidate(preds, n), more, candidate(preds, n).len()),
        0,
    );
    unique_of_one(root, preds, n, more);
}

proof fn predicates_of_one(attrs: Seq<(Seq<char>, Seq<char>)>, a: Seq<char>)
    ensures
        pair(a, attr_meaning(attrs, a)).len() == 1 <==> attr_meaning(attrs, a) is Some,
        attr_meaning(attrs, a) is Some ==> pair(a, attr_meaning(attrs, a)) == predicates(
            attrs,
            seq![a],
        ),
{
    if attr_meaning(attrs, a) is Some {
        assert(pair(a, attr_meaning(attrs, a)) =~= predicates(attrs, seq![a]));
    }
}

proof fn predicates_of_two(attrs: Seq<(Seq<char>, Seq<char>)>, a: Seq<char>, b: Seq<char>)
    ensures
        ({
            let both = pair(a, attr_meaning(attrs, a)) + pair(b, attr_meaning(attrs, b));
            &&& both.len() == 2 <==> attr_meaning(attrs, a) is Some && attr_meaning(attrs, b)
                is Some
            &&& both.len() == 2 ==> both == predicates(attrs, seq![a, b])
        }),
{
    let both = pair(a, attr_meaning(attrs, a)) + pair(b, attr_meaning(attrs, b));
    if both.len() == 2 {
        assert(both =~= predicates(attrs, seq![a, b]));
    }
}

proof fn predicates_of_three(
    attrs: Seq<(Seq<char>, Seq<char>)>,
    a: Seq<char>,
    b: Seq<char>,
    c: Seq<char>,
)
    ensures
        ({
            let all = pair(a, attr_meaning(attrs, a)) + pair(b, attr_meaning(attrs, b)) + pair(
                c,
                attr_meaning(attrs, c),
            );
            &&& all.len() == 3 <==> attr_meaning(attrs, a) is Some && attr_meaning(attrs, b)
                is Some && attr_meaning(attrs, c) is Some
            &&& all.len() == 3 ==> all == predicates(attrs, seq![a, b, c])
        }),
{
    let all = pair(a, attr_meaning(attrs, a)) + pair(b, attr_meaning(attrs, b)) + pair(
        c,
        attr_meaning(attrs, c),
    );
    if all.len() == 3 {
        assert(all =~= predicates(attrs, seq![a, b, c]));
    }
}

/// What the first of the base candidates with some predicates more comes to, if one singles a
/// node out.
#[verifier::spinoff_prover]
proof fn base_choice(
    root: NodeView,
    attrs: Seq<(Seq<char>, Seq<char>)>,
    more: Seq<(Seq<char>, Seq<char>)>,
) -> (k: int)
    ensures
        ({
            let base = base_candidates(attrs);
            let found = first_unique(root, with_state(base, more, base.len()), 0);
            if 0 <= k < 8 {
                &&& first_choice(root, attrs, more, k)
                &&& found == Some(predicates(attrs, identities()[k]) + more)
            } else {
                &&& forall|j: int|
                    0 <= j < 8 ==> !singles_out(root, attrs, #[trigger] identities()[j], more)
                &&& found is None
            }
        }),
{
    let text = pair("text"@, attr_meaning(attrs, "text"@));
    let id = pair("resource-id"@, attr_meaning(attrs, "resource-id"@));
    let desc = pair("content-desc"@, attr_meaning(attrs, "content-desc"@));
    let class = pair("class"@, attr_meaning(attrs, "class"@));
    predicates_of_one(attrs, "text"@);
    predicates_of_one(attrs, "resource-id"@);
    predicates_of_one(attrs, "content-desc"@);
    predicates_of_two(attrs, "resource-id"@, "text"@);
    predicates_of_two(attrs, "class"@, "text"@);
    predicates_of_two(attrs, "class"@, "resource-id"@);
    predicates_of_two(attrs, "resource-id"@, "content-desc"@);
    predicates_of_three(attrs, "class"@, "resource-id"@, "content-desc"@);
    let c0 = Seq::<Seq<(Seq<char>, Seq<char>)>>::empty();
    let c1 = c0 + candidate(text, 1);
    let c2 = c1 + candidate(id, 1);
    let c3 = c2 + candidate(desc, 1);
    let c4 = c3 + candidate(id + text, 2);
    let c5 = c4 + candidate(class + text, 2);
    let c6 = c5 + candidate(class + id, 2);
    let c7 = c6 + candidate(id + desc, 2);
    let c8 = c7 + candidate(class + id + desc, 3);
    choice_grows(root, c0, text, 1, more);
    choice_grows(root, c1, id, 1, more);
    choice_grows(root, c2, desc, 1, more);
    choice_grows(root, c3, id + text, 2, more);
    choice_grows(root, c4, class + text, 2, more);
    choice_grows(root, c5, class + id, 2, more);
    choice_grows(root, c6, id + desc, 2, more);
    choice_grows(root, c7, class + id + desc, 3, more);
    assert(c1 =~= candidate(text, 1));
    assert(c8 == base_candidates(attrs));
    assert(first_unique(root, with_state(c0, more, c0.len()), 0) is None);
    let all = identities();
    assert(all[0] == seq!["text"@] && all[1] == seq!["resource-id"@] && all[2] == seq![
        "content-desc"@,
    ]);
    assert(all[3] == seq!["resource-id"@, "text"@] && all[4] == seq!["class"@, "text"@]);
    assert(all[5] == seq!["class"@, "resource-id"@]);
    assert(all[6] == seq!["resource-id"@, "content-desc"@]);
    assert(all[7] == seq!["class"@, "resource-id"@, "content-desc"@]);
    one_singles_out(root, attrs, "text"@, more);
    one_singles_out(root, attrs, "resource-id"@, more);
    one_singles_out(root, attrs, "content-desc"@, more);
    two_single_out(root, attrs, "resource-id"@, "text"@, more);
    two_single_out(root, attrs, "class"@, "text"@, more);
    two_single_out(root, attrs, "class"@, "resource-id"@, more);
    two_single_out(root, attrs, "resource-id"@, "content-desc"@, more);
    three_single_out(root, attrs, "class"@, "resource-id"@, "content-desc"@, more);
    if singles_out(root, attrs, all[0], more) {
        0
    } else if singles_out(root, attrs, all[1], more) {
        1
    } else if singles_out(root, attrs, all[2], more) {
        2
    } else if singles_out(root, attrs, all[3], more) {
        3
    } else if singles_out(root, attrs, all[4], more) {
        4
    } else if singles_out(root, attrs, all[5], more) {
        5
    } else if singles_out(root, attrs, all[6], more) {
        6
    } else if singles_out(root, attrs, all[7], more) {
        7
    } else {
        8
    }
}

proof fn one_singles_out(
    root: NodeView,
    attrs: Seq<(Seq<char>, Seq<char>)>,
    a: Seq<char>,
    more: Seq<(Seq<char>, Seq<char>)>,
)
    ensures
        singles_out(root, attrs, seq![a], more) <==> pair(a, attr_meaning(attrs, a)).len() == 1
            && match_count(root, pair(a, attr_meaning(attrs, a)) + more) == 1,
{
    predicates_of_one(attrs, a);
    assert(seq![a][0] == a);
}

proof fn two_single_out(
    root: NodeView,
    attrs: Seq<(Seq<char>, Seq<char>)>,
    a: Seq<char>,
    b: Seq<char>,
    more: Seq<(Seq<char>, Seq<char>)>,
)
    ensures
        ({
            let both = pair(a, attr_meaning(attrs, a)) + pair(b, attr_meaning(attrs, b));
            singles_out(root, attrs, seq![a, b], more) <==> both.len() == 2 && match_count(
                root,
                both + more,
            ) == 1
        }),
{
    predicates_of_two(attrs, a, b);
    assert(seq![a, b][0] == a && seq![a, b][1] == b);
}

proof fn three_single_out(
    root: NodeView,
    attrs: Seq<(Seq<char>, Seq<char>)>,
    a: Seq<char>,
    b: Seq<char>,
    c: Seq<char>,
    more: Seq<(Seq<char>, Seq<char>)>,
)
    ensures
        ({
            let all = pair(a, attr_meaning(attrs, a)) + pair(b, attr_meaning(attrs, b)) + pair(
                c,
                attr_meaning(attrs, c),
            );
            singles_out(root, attrs, seq![a, b, c], more) <==> all.len() == 3 && match_count(
                root,
                all + more,
            ) == 1
        }),
{
    predicates_of_three(attrs, a, b, c);
    assert(seq![a, b, c][0] == a && seq![a, b, c][1] == b && seq![a, b, c][2] == c);
}

/// The predicates on what an element's state is: whether it is checked and whether it is
/// selected, as far as it tells.
pub open spec fn tells_state(
    attrs: Seq<(Seq<char>, Seq<char>)>,
    state: Seq<(Seq<char>, Seq<char>)>,
) -> bool {
    match (attr_meaning(attrs, "checked"@), attr_meaning(attrs, "selected"@)) {
        (Some(c), Some(s)) => state == seq![("checked"@, c), ("selected"@, s)],
        (Some(c), None) => state == seq![("checked"@, c)],
        (None, Some(s)) => state == seq![("selected"@, s)],
        (None, None) => state.len() == 0,
    }
}

/// The XPath of an element is that of the first choice that singles it out: its text, else its
/// resource id, else its description, else two or three of its attributes. Where none does, its
/// state helps: the same choices with the state added, and last its class with the state. Where
/// that does not help either, and only there, it has none.
pub proof fn xpath_is_the_first_choice(
    root: NodeView,
    node: NodeView,
    state: Seq<(Seq<char>, Seq<char>)>,
    k: int,
)
    requires
        tells_state(node.attrs, state),
    ensures
        identities() == seq![
            seq!["text"@],
            seq!["resource-id"@],
            seq!["content-desc"@],
            seq!["resource-id"@, "text"@],
            seq!["class"@, "text"@],
            seq!["class"@, "resource-id"@],
            seq!["resource-id"@, "content-desc"@],
            seq!["class"@, "resource-id"@, "content-desc"@],
        ],
        first_choice(root, node.attrs, Seq::empty(), k) ==> generated(node, root) == Some(
            xpath_of(predicates(node.attrs, identities()[k])),
        ),
        (forall|j: int|
            0 <= j < 8 ==> !singles_out(
                root,
                node.attrs,
                #[trigger] identities()[j],
                Seq::empty(),
            )) ==> {
            &&& state.len() > 0 && first_choice(root, node.attrs, state, k) ==> generated(
                node,
                root,
            ) == Some(xpath_of(predicates(node.attrs, identities()[k]) + state))
            &&& state.len() > 0 && (forall|j: int|
                0 <= j < 8 ==> !singles_out(root, node.attrs, #[trigger] identities()[j], state))
                ==> generated(node, root) == (if singles_out(
                root,
                node.attrs,
                seq!["class"@],
                state,
            ) {
                Some(xpath_of(predicates(node.attrs, seq!["class"@]) + state))
            } else {
                None
            })
            &&& state.len() == 0 ==> generated(node, root) is None
        },
{
    let attrs = node.attrs;
    let base = base_candidates(attrs);
    let none = Seq::<(Seq<char>, Seq<char>)>::empty();
    let own = state_preds(attrs);
    assert(own =~= state);
    let first = base_choice(root, attrs, none);
    let second = base_choice(root, attrs, state);
    assert(with_state(base, none, base.len()) =~= base) by {
        assert forall|i: int| 0 <= i < base.len() implies with_state(base, none, base.len())[i]
            == #[trigger] base[i] by {
            assert(base[i] + none =~= base[i]);
        }
    }
    if 0 <= first < 8 {
        assert(predicates(attrs, identities()[first]) + none =~= predicates(
            attrs,
            identities()[first],
        ));
    }
    if 0 <= k < 8 {
        choice_is_one(root, attrs, none, first, k);
        choice_is_one(root, attrs, state, second, k);
    }
    if state.len() == 0 {
        assert(candidates(attrs) == base);
    } else {
        let class = pair("class"@, attr_meaning(attrs, "class"@));
        let last = if class.len() == 1 {
            seq![class + state]
        } else {
            Seq::empty()
        };
        let stated = with_state(base, state, base.len());
        assert(candidates(attrs) == base + stated + last);
        unique_of_parts(root, base + stated, last, 0);
        unique_of_parts(root, base, stated, 0);
        one_singles_out(root, attrs, "class"@, state);
        predicates_of_one(attrs, "class"@);
        if class.len() == 1 {
            assert(last[0] == class + state);
            assert(first_unique(root, last, 1) is None);
        } else {
            assert(first_unique(root, last, 0) is None);
        }
    }
}

/// There is only one first choice.
proof fn choice_is_one(
    root: NodeView,
    attrs: Seq<(Seq<char>, Seq<char>)>,
    more: Seq<(Seq<char>, Seq<char>)>,
    a: int,
    b: int,
)
    requires
        0 <= a < 8 ==> first_choice(root, attrs, more, a),
        !(0 <= a < 8) ==> forall|j: int|
            0 <= j < 8 ==> !singles_out(root, attrs, #[trigger] identities()[j], more),
        0 <= b < 8,
    ensures
        first_choice(root, attrs, more, b) ==> a == b,
{
    if first_choice(root, attrs, more, b) {
        assert(singles_out(root, attrs, identities()[b], more));
        if 0 <= a < 8 {
            assert(singles_out(root, attrs, identities()[a], more));
        }
    }
}

/// If the text, the resource id or the description of an element is that of no other node of the
/// page, it has an XPath. The first of the three that is, in this order, is its only predicate.
pub proof fn one_attribute_is_enough(root: NodeView, node: NodeView)
    ensures
        ({
            let lone = |key: Seq<char>|
                attr_meaning(node.attrs, key) matches Some(v) && match_count(
                    root,
                    seq![(key, v)],
                ) == 1;
            let by = |key: Seq<char>|
                Some(xpath_of(seq![(key, attr_meaning(node.attrs, key)->0)]));
            &&& lone("text"@) ==> generated(node, root) == by("text"@)
            &&& !lone("text"@) && lone("resource-id"@) ==> generated(node, root) == by(
                "resource-id"@,
            )
            &&& !lone("text"@) && !lone("resource-id"@) && lone("content-desc"@) ==> generated(
                node,
                root,
            ) == by("content-desc"@)
        }),
{
    let attrs = node.attrs;
    let none = Seq::<(Seq<char>, Seq<char>)>::empty();
    let all = identities();
    let state = state_preds(attrs);
    assert(tells_state(attrs, state)) by {
        match (attr_meaning(attrs, "checked"@), attr_meaning(attrs, "selected"@)) {
            (Some(c), Some(s)) => {
                assert(state =~= seq![("checked"@, c), ("selected"@, s)]);
            },
            (Some(c), None) => {
                assert(state =~= seq![("checked"@, c)]);
            },
            (None, Some(s)) => {
                assert(state =~= seq![("selected"@, s)]);
            },
            (None, None) => {},
        }
    }
    lone_singles_out(root, attrs, "text"@);
    lone_singles_out(root, attrs, "resource-id"@);
    lone_singles_out(root, attrs, "content-desc"@);
    assert(all[0] == seq!["text"@] && all[1] == seq!["resource-id"@] && all[2] == seq![
        "content-desc"@,
    ]);
    xpath_is_the_first_choice(root, node, state, 0);
    xpath_is_the_first_choice(root, node, state, 1);
    xpath_is_the_first_choice(root, node, state, 2);
}

proof fn lone_singles_out(root: NodeView, attrs: Seq<(Seq<char>, Seq<char>)>, key: Seq<char>)
    ensures
        attr_meaning(attrs, key) matches Some(v) ==> predicates(attrs, seq![key]) == seq![(key, v)],
        singles_out(root, attrs, seq![key], Seq::empty()) <==> (attr_meaning(attrs, key) matches Some(
            v,
        ) && match_count(root, seq![(key, v)]) == 1),
{
    let none = Seq::<(Seq<char>, Seq<char>)>::empty();
    assert(predicates(attrs, seq![key]) + none =~= predicates(attrs, seq![key]));
    assert(seq![key][0] == key);
    if let Some(v) = attr_meaning(attrs, key) {
        assert(predicates(attrs, seq![key]) =~= seq![(key, v)]);
    }
}

/// An XPath starts with `//*`, and each predicate follows in brackets: an at sign, the name of
/// the attribute, an equals sign and its value as a literal.
pub proof fn xpath_lists_its_predicates(
    preds: Seq<(Seq<char>, Seq<char>)>,
    key: Seq<char>,
    value: Seq<char>,
)
    ensures
        xpath_of(Seq::empty()) == seq!['/', '/', '*'],
        xpath_of(preds.push((key, value))) == xpath_of(preds) + seq!['[', '@'] + key + seq!['=']
            + literal(value) + seq![']'],
{
    reveal_strlit("//*");
    reveal_strlit("[@");
    reveal_strlit("=");
    reveal_strlit("]");
    assert("//*"@ =~= seq!['/', '/', '*']);
    assert("[@"@ =~= seq!['[', '@']);
    assert("="@ =~= seq!['=']);
    assert("]"@ =~= seq![']']);
    assert(preds.push((key, value)).drop_last() =~= preds);
}

/// A value without a single quote is written between single quotes, and one with single but no
/// double quotes between double quotes, as it stands.
pub proof fn literals_stand_in_quotes(v: Seq<char>)
    ensures
        !v.contains('\'') ==> literal(v) == seq!['\''] + v + seq!['\''],
        v.contains('\'') && !v.contains('"') ==> literal(v) == seq!['"'] + v + seq!['"'],
{
}

/// Only five characters are escaped, each by a backslash before one character; all others stand
/// as they are.
pub proof fn escaping_goes_character_by_character(a: Seq<char>, c: char)
    ensures
        escaped(Seq::empty()) == Seq::<char>::empty(),
        escaped(a.push(c)) == escaped(a) + (if c == '\\' || c == '"' {
            seq!['\\', c]
        } else if c == '\n' {
            seq!['\\', 'n']
        } else if c == '\r' {
            seq!['\\', 'r']
        } else if c == '\t' {
            seq!['\\', 't']
        } else {
            seq![c]
        }),
{
    assert(a.push(c).drop_last() =~= a);
}

} // verus!
