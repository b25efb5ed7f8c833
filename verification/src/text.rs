//! Texts as sequences of characters: trimming, splitting, searching.

use vstd::prelude::*;

verus! {

/// What an optional text holds.
pub open spec fn text_in(s: Option<&str>) -> Option<Seq<char>> {
    match s {
        Some(t) => Some(t@),
        None => None,
    }
}

/// What an optional text of its own holds.
pub open spec fn chars_in(s: Option<String>) -> Option<Seq<char>> {
    match s {
        Some(t) => Some(t@),
        None => None,
    }
}

/// Whether `c` has Unicode's `White_Space` property.
pub open spec fn is_white(c: char) -> bool {
    let n = c as u32;
    ||| 0x9 <= n <= 0xd
    ||| n == 0x20
    ||| n == 0x85
    ||| n == 0xa0
    ||| n == 0x1680
    ||| 0x2000 <= n <= 0x200a
    ||| n == 0x2028
    ||| n == 0x2029
    ||| n == 0x202f
    ||| n == 0x205f
    ||| n == 0x3000
}

/// Whether `c` is white space.
pub fn white(c: char) -> (r: bool)
    ensures
        r == is_white(c),
{
    let n: u32 = c as u32;
    (0x9 <= n && n <= 0xd) || n == 0x20 || n == 0x85 || n == 0xa0 || n == 0x1680 || (0x2000 <= n
        && n <= 0x200a) || n == 0x2028 || n == 0x2029 || n == 0x202f || n == 0x205f || n == 0x3000
}

/// The characters of a text.
pub fn chars_of(s: &str) -> (r: Vec<char>)
    ensures
        r@ == s@,
{
    let mut out: Vec<char> = Vec::new();
    for c in it: s.chars()
        invariant
            out@ == it.seq().take(it.index() as int),
            it.seq() == s@,
    {
        out.push(c);
    }
    out
}

/// The text made of some characters.
pub fn string_of(s: &[char]) -> (r: String)
    ensures
        r@ == s@,
{
    let mut out = String::new();
    let n: usize = s.len();
    for i in 0..n
        invariant
            n == s@.len(),
            out@ == s@.take(i as int),
    {
        out.push(s[i]);
        assert(s@.take(i + 1) == s@.take(i as int).push(s@[i as int]));
    }
    assert(s@.take(n as int) == s@);
    out
}

/// An owned copy of a text.
pub fn copy_of(s: &str) -> (r: String)
    ensures
        r@ == s@,
{
    let mut out = String::new();
    out.append(s);
    assert(out@ =~= s@);
    out
}

/// The texts that a vector of character vectors holds.
pub open spec fn pieces(v: Seq<Vec<char>>) -> Seq<Seq<char>> {
    Seq::new(v.len(), |i: int| v[i]@)
}

// ── Trimming ──

/// `s` without the white space at its start.
pub open spec fn trim_start(s: Seq<char>) -> Seq<char>
    decreases s.len(),
{
    if s.len() > 0 && is_white(s[0]) {
        trim_start(s.drop_first())
    } else {
        s
    }
}

/// `s` without the white space at its end.
pub open spec fn trim_end(s: Seq<char>) -> Seq<char>
    decreases s.len(),
{
    if s.len() > 0 && is_white(s.last()) {
        trim_end(s.drop_last())
    } else {
        s
    }
}

/// `s` without the white space around it.
pub open spec fn trimmed(s: Seq<char>) -> Seq<char> {
    trim_end(trim_start(s))
}

/// Drops the white space at the start.
pub fn skip_white<'a>(s: &'a [char]) -> (r: &'a [char])
    ensures
        r@ == trim_start(s@),
{
    let n: usize = s.len();
    let mut i: usize = 0;
    assert(s@.skip(0) == s@);
    while i < n && white(s[i])
        invariant
            n == s@.len(),
            i <= n,
            trim_start(s@) == trim_start(s@.skip(i as int)),
        decreases n - i,
    {
        assert(s@.skip(i as int).drop_first() == s@.skip(i + 1));
        i += 1;
    }
    assert(s@.subrange(i as int, n as int) == s@.skip(i as int));
    vstd::slice::slice_subrange(s, i, n)
}

/// Drops the white space around a text.
pub fn trim<'a>(s: &'a [char]) -> (r: &'a [char])
    ensures
        r@ == trimmed(s@),
{
    let t = skip_white(s);
    let mut n: usize = t.len();
    assert(t@.take(n as int) == t@);
    while n > 0 && white(t[n - 1])
        invariant
            n <= t@.len(),
            trim_end(t@) == trim_end(t@.take(n as int)),
        decreases n,
    {
        assert(t@.take(n as int).drop_last() == t@.take(n - 1));
        n -= 1;
    }
    assert(t@.subrange(0, n as int) == t@.take(n as int));
    vstd::slice::slice_subrange(t, 0, n)
}

// ── Searching ──

/// `pat` stands in `s` at position `i`.
pub open spec fn occurs_at<T>(s: Seq<T>, pat: Seq<T>, i: int) -> bool {
    &&& 0 <= i
    &&& i + pat.len() <= s.len()
    &&& s.subrange(i, i + pat.len()) == pat
}

/// The first position from `i` on at which `pat` stands in `s`.
pub open spec fn find_from<T>(s: Seq<T>, pat: Seq<T>, i: int) -> Option<int>
    decreases s.len() + 1 - i,
{
    if i + pat.len() > s.len() {
        None
    } else if s.subrange(i, i + pat.len()) == pat {
        Some(i)
    } else {
        find_from(s, pat, i + 1)
    }
}

/// The first position at which `pat` stands in `s`.
pub open spec fn find<T>(s: Seq<T>, pat: Seq<T>) -> Option<int> {
    find_from(s, pat, 0)
}

/// The search finds the first position and misses none.
pub proof fn find_is_first<T>(s: Seq<T>, pat: Seq<T>, i: int)
    requires
        0 <= i,
    ensures
        find_from(s, pat, i) matches Some(k) ==> i <= k && occurs_at(s, pat, k) && forall|j: int|
            i <= j < k ==> !occurs_at(s, pat, j),
        find_from(s, pat, i) is None ==> forall|j: int| i <= j ==> !occurs_at(s, pat, j),
    decreases s.len() + 1 - i,
{
    if i + pat.len() <= s.len() && s.subrange(i, i + pat.len()) != pat {
        find_is_first(s, pat, i + 1);
    }
}

/// Whether `pat` stands at position `i` of `s`.
fn stands_at(s: &[char], pat: &[char], i: usize) -> (r: bool)
    requires
        i + pat@.len() <= s@.len(),
    ensures
        r == (s@.subrange(i as int, i + pat@.len()) == pat@),
{
    let m: usize = pat.len();
    let n: usize = s.len();
    for k in 0..m
        invariant
            m == pat@.len(),
            n == s@.len(),
            i + m <= n,
            forall|j: int| 0 <= j < k ==> s@[i + j] == pat@[j],
    {
        if s[i + k] != pat[k] {
            assert(s@.subrange(i as int, i + pat@.len())[k as int] != pat@[k as int]);
            return false;
        }
    }
    assert(s@.subrange(i as int, i + pat@.len()) =~= pat@);
    true
}

/// Finds the first occurrence of `pat`.
pub fn find_text(s: &[char], pat: &[char]) -> (r: Option<usize>)
    ensures
        (match r {
            Some(i) => find(s@, pat@) == Some(i as int) && i + pat@.len() <= s@.len(),
            None => find(s@, pat@) is None,
        }),
{
    let n: usize = s.len();
    let m: usize = pat.len();
    if m > n {
        return None;
    }
    let mut i: usize = 0;
    while i <= n - m
        invariant
            n == s@.len(),
            m == pat@.len(),
            m <= n,
            i <= n - m + 1,
            find(s@, pat@) == find_from(s@, pat@, i as int),
        decreases n - m + 1 - i,
    {
        if stands_at(s, pat, i) {
            return Some(i);
        }
        if i == n - m {
            assert(find_from(s@, pat@, i + 1) is None);
            return None;
        }
        i += 1;
    }
    None
}

/// The text between the pieces that `pat` separates.
pub open spec fn split(s: Seq<char>, pat: Seq<char>) -> Seq<Seq<char>>
    decreases s.len(),
    when pat.len() > 0
{
    match find(s, pat) {
        None => seq![s],
        Some(i) => {
            proof {
                find_is_first(s, pat, 0);
            }
            seq![s.take(i)] + split(s.skip(i + pat.len()), pat)
        },
    }
}

/// Splits a text at each `pat`.
pub fn split_text(s: &[char], pat: &[char]) -> (r: Vec<Vec<char>>)
    requires
        pat@.len() > 0,
    ensures
        pieces(r@) == split(s@, pat@),
        r@.len() > 0,
{
    let mut out: Vec<Vec<char>> = Vec::new();
    let mut rest: &[char] = s;
    proof {
        assert(pieces(out@) + split(s@, pat@) =~= split(s@, pat@));
    }
    loop
        invariant
            pat@.len() > 0,
            pieces(out@) + split(rest@, pat@) == split(s@, pat@),
        decreases rest@.len(),
    {
        let ghost before = pieces(out@);
        match find_text(rest, pat) {
            None => {
                let piece = vstd::slice::slice_to_vec(rest);
                out.push(piece);
                assert(pieces(out@) =~= before + seq![rest@]);
                return out;
            },
            Some(i) => {
                let piece = vstd::slice::slice_to_vec(vstd::slice::slice_subrange(rest, 0, i));
                let ghost whole = rest@;
                proof {
                    assert(whole.subrange(0, i as int) == whole.take(i as int));
                    assert(whole.subrange(i + pat@.len(), whole.len() as int) == whole.skip(
                        i + pat@.len(),
                    ));
                }
                let total: usize = rest.len();
                let k: usize = i + pat.len();
                rest = vstd::slice::slice_subrange(rest, k, total);
                out.push(piece);
                assert(pieces(out@) =~= before + seq![whole.take(i as int)]);
                assert(before + (seq![whole.take(i as int)] + split(rest@, pat@)) =~= (before
                    + seq![whole.take(i as int)]) + split(rest@, pat@));
            },
        }
    }
}

/// What follows the last `c` in `s`, or all of `s` where there is none.
pub open spec fn after_last(s: Seq<char>, c: char) -> Seq<char>
    decreases s.len(),
{
    if s.len() == 0 || s.last() == c {
        Seq::empty()
    } else {
        after_last(s.drop_last(), c).push(s.last())
    }
}

/// Cuts a text down to what follows the last `c`.
pub fn cut_after_last<'a>(s: &'a [char], c: char) -> (r: &'a [char])
    ensures
        r@ == after_last(s@, c),
{
    let n: usize = s.len();
    let mut i: usize = n;
    assert(s@.take(n as int) == s@);
    assert(s@.skip(n as int) == Seq::<char>::empty());
    assert(after_last(s@, c) =~= after_last(s@.take(n as int), c) + s@.skip(n as int));
    while i > 0 && s[i - 1] != c
        invariant
            n == s@.len(),
            i <= n,
            after_last(s@, c) == after_last(s@.take(i as int), c) + s@.skip(i as int),
        decreases i,
    {
        proof {
            let t = s@.take(i as int);
            assert(t.drop_last() == s@.take(i - 1));
            assert(after_last(t.drop_last(), c).push(t.last()) + s@.skip(i as int) =~= after_last(
                s@.take(i - 1),
                c,
            ) + s@.skip(i - 1));
        }
        i -= 1;
    }
    assert(after_last(s@, c) =~= s@.skip(i as int));
    assert(s@.subrange(i as int, n as int) == s@.skip(i as int));
    vstd::slice::slice_subrange(s, i, n)
}

// ── Prefixes ──

/// `s` starts with `pat`.
pub open spec fn has_prefix(s: Seq<char>, pat: Seq<char>) -> bool {
    pat.len() <= s.len() && s.take(pat.len() as int) == pat
}

/// What follows `pat` at the start of a text, if it stands there.
pub fn strip_start<'a>(s: &'a [char], pat: &str) -> (r: Option<&'a [char]>)
    ensures
        (match r {
            Some(t) => has_prefix(s@, pat@) && t@ == s@.skip(pat@.len() as int),
            None => !has_prefix(s@, pat@),
        }),
{
    let p = chars_of(pat);
    let n: usize = s.len();
    let m: usize = p.len();
    if m > n || !stands_at(s, p.as_slice(), 0) {
        assert(m <= n ==> s@.subrange(0, m as int) == s@.take(m as int));
        return None;
    }
    assert(s@.subrange(0, m as int) == s@.take(m as int));
    assert(s@.subrange(m as int, n as int) == s@.skip(m as int));
    Some(vstd::slice::slice_subrange(s, m, n))
}

/// What follows every `pat` at the start of `s`.
pub open spec fn past_all(s: Seq<char>, pat: Seq<char>) -> Seq<char>
    decreases s.len(),
{
    if pat.len() > 0 && has_prefix(s, pat) {
        past_all(s.skip(pat.len() as int), pat)
    } else {
        s
    }
}

/// Drops every `pat` at the start of a text.
pub fn strip_all<'a>(s: &'a [char], pat: &str) -> (r: &'a [char])
    requires
        pat@.len() > 0,
    ensures
        r@ == past_all(s@, pat@),
{
    let mut rest: &'a [char] = s;
    loop
        invariant
            pat@.len() > 0,
            past_all(rest@, pat@) == past_all(s@, pat@),
        decreases rest@.len(),
    {
        match strip_start(rest, pat) {
            Some(t) => {
                rest = t;
            },
            None => {
                return rest;
            },
        }
    }
}

/// `s` without a carriage return at its end.
pub open spec fn strip_cr(s: Seq<char>) -> Seq<char> {
    if s.len() > 0 && s.last() == '\r' {
        s.drop_last()
    } else {
        s
    }
}

/// The lines of a text: each ends at a line feed, with or without a carriage return
/// before it. A text that does not end in a line feed has one more line, as it stands.
pub open spec fn lines(s: Seq<char>) -> Seq<Seq<char>>
    decreases s.len(),
{
    if s.len() == 0 {
        Seq::empty()
    } else {
        match find(s, seq!['\n']) {
            None => seq![s],
            Some(i) => {
                proof {
                    find_is_first(s, seq!['\n'], 0);
                }
                seq![strip_cr(s.take(i))] + lines(s.skip(i + 1))
            },
        }
    }
}

/// Splits a text into its lines.
pub fn split_lines(s: &[char]) -> (r: Vec<Vec<char>>)
    ensures
        pieces(r@) == lines(s@),
{
    let mut out: Vec<Vec<char>> = Vec::new();
    let mut rest: &[char] = s;
    let newline: Vec<char> = vec!['\n'];
    proof {
        assert(newline@ =~= seq!['\n']);
        assert(pieces(out@) + lines(s@) =~= lines(s@));
    }
    while rest.len() > 0
        invariant
            newline@ == seq!['\n'],
            pieces(out@) + lines(rest@) == lines(s@),
        decreases rest@.len(),
    {
        let ghost before = pieces(out@);
        let ghost whole = rest@;
        match find_text(rest, newline.as_slice()) {
            None => {
                out.push(vstd::slice::slice_to_vec(rest));
                assert(pieces(out@) =~= before + seq![rest@]);
                return out;
            },
            Some(i) => {
                let end: usize = if i > 0 && rest[i - 1] == '\r' {
                    i - 1
                } else {
                    i
                };
                let piece = vstd::slice::slice_to_vec(vstd::slice::slice_subrange(rest, 0, end));
                proof {
                    assert(whole.subrange(0, end as int) =~= strip_cr(whole.take(i as int)));
                    assert(whole.subrange(i + 1, whole.len() as int) == whole.skip(i + 1));
                }
                rest = vstd::slice::slice_subrange(rest, i + 1, rest.len());
                out.push(piece);
                assert(pieces(out@) =~= before + seq![strip_cr(whole.take(i as int))]);
                assert(before + (seq![strip_cr(whole.take(i as int))] + lines(rest@)) =~= (before
                    + seq![strip_cr(whole.take(i as int))]) + lines(rest@));
            },
        }
    }
    assert(lines(rest@) =~= Seq::<Seq<char>>::empty());
    assert(pieces(out@) + Seq::<Seq<char>>::empty() =~= pieces(out@));
    out
}

/// How many characters stand at the start of `s` before the first white space.
pub open spec fn word_len(s: Seq<char>) -> nat
    decreases s.len(),
{
    if s.len() == 0 || is_white(s[0]) {
        0
    } else {
        1 + word_len(s.drop_first())
    }
}

/// A word is no longer than the text that it starts.
pub proof fn word_len_bound(s: Seq<char>)
    ensures
        word_len(s) <= s.len(),
    decreases s.len(),
{
    if s.len() > 0 && !is_white(s[0]) {
        word_len_bound(s.drop_first());
    }
}

/// Trimming does not lengthen a text.
pub proof fn trim_start_shortens(s: Seq<char>)
    ensures
        trim_start(s).len() <= s.len(),
        trim_start(s).len() > 0 ==> !is_white(trim_start(s)[0]),
    decreases s.len(),
{
    if s.len() > 0 && is_white(s[0]) {
        trim_start_shortens(s.drop_first());
    }
}

/// The words of a text: what white space separates.
pub open spec fn words(s: Seq<char>) -> Seq<Seq<char>>
    decreases s.len(),
{
    let t = trim_start(s);
    if t.len() == 0 {
        Seq::empty()
    } else {
        proof {
            trim_start_shortens(s);
            word_len_bound(t);
        }
        seq![t.take(word_len(t) as int)] + words(t.skip(word_len(t) as int))
    }
}

/// Measures the word at the start of a text.
fn first_word_len(s: &[char]) -> (r: usize)
    ensures
        r == word_len(s@),
        r <= s@.len(),
{
    let n: usize = s.len();
    let mut i: usize = 0;
    assert(s@.skip(0) == s@);
    while i < n && !white(s[i])
        invariant
            n == s@.len(),
            i <= n,
            word_len(s@) == i + word_len(s@.skip(i as int)),
        decreases n - i,
    {
        assert(s@.skip(i as int).drop_first() == s@.skip(i + 1));
        i += 1;
    }
    i
}

/// Splits a text into its words.
pub fn split_words(s: &[char]) -> (r: Vec<Vec<char>>)
    ensures
        pieces(r@) == words(s@),
{
    let mut out: Vec<Vec<char>> = Vec::new();
    let mut rest: &[char] = s;
    proof {
        assert(pieces(out@) + words(s@) =~= words(s@));
    }
    loop
        invariant
            pieces(out@) + words(rest@) == words(s@),
        decreases rest@.len(),
    {
        let ghost before = pieces(out@);
        let ghost whole = rest@;
        let t = skip_white(rest);
        proof {
            trim_start_shortens(whole);
        }
        if t.len() == 0 {
            assert(words(whole) =~= Seq::<Seq<char>>::empty());
            assert(before + Seq::<Seq<char>>::empty() =~= before);
            return out;
        }
        let k: usize = first_word_len(t);
        let piece = vstd::slice::slice_to_vec(vstd::slice::slice_subrange(t, 0, k));
        proof {
            assert(t@.subrange(0, k as int) == t@.take(k as int));
            assert(t@.subrange(k as int, t@.len() as int) == t@.skip(k as int));
        }
        rest = vstd::slice::slice_subrange(t, k, t.len());
        out.push(piece);
        assert(pieces(out@) =~= before + seq![t@.take(k as int)]);
        assert(before + (seq![t@.take(k as int)] + words(rest@)) =~= (before + seq![
            t@.take(k as int),
        ]) + words(rest@));
    }
}

// ── Laws ──

/// White space is what Unicode lists as such: six characters of ASCII and nineteen beyond.
pub proof fn white_space_is_listed(c: char)
    ensures
        is_white(c) <==> {
            ||| c == ' ' || c == '\t' || c == '\n' || c == '\r' || c == '\u{b}' || c == '\u{c}'
            ||| c == '\u{85}' || c == '\u{a0}' || c == '\u{1680}' || c == '\u{3000}'
            ||| c == '\u{2000}' || c == '\u{2001}' || c == '\u{2002}' || c == '\u{2003}'
            ||| c == '\u{2004}' || c == '\u{2005}' || c == '\u{2006}' || c == '\u{2007}'
            ||| c == '\u{2008}' || c == '\u{2009}' || c == '\u{200a}'
            ||| c == '\u{2028}' || c == '\u{2029}' || c == '\u{202f}' || c == '\u{205f}'
        },
{
}

/// Trimming cuts out the middle of a text: all that it drops at either end is white space, and
/// what is left, if anything, neither starts nor ends with any.
pub proof fn trimmed_is_the_middle(s: Seq<char>)
    ensures
        exists|i: int, j: int|
            {
                &&& 0 <= i <= j <= s.len()
                &&& trimmed(s) == #[trigger] s.subrange(i, j)
                &&& forall|k: int| 0 <= k < i ==> is_white(#[trigger] s[k])
                &&& forall|k: int| j <= k < s.len() ==> is_white(#[trigger] s[k])
                &&& i < j ==> !is_white(s[i]) && !is_white(s[j - 1])
            },
{
    let i = start_of(s);
    let t = trim_start(s);
    let n = end_of(t);
    assert(trimmed(s) =~= s.subrange(i, i + n));
    assert forall|k: int| i + n <= k < s.len() implies is_white(#[trigger] s[k]) by {
        assert(s[k] == t[k - i]);
    }
    if n > 0 {
        assert(s[i] == t[0] && s[i + n - 1] == t[n - 1]);
    }
}

proof fn start_of(s: Seq<char>) -> (i: int)
    ensures
        0 <= i <= s.len(),
        trim_start(s) == s.skip(i),
        forall|k: int| 0 <= k < i ==> is_white(#[trigger] s[k]),
        i < s.len() ==> !is_white(s[i]),
    decreases s.len(),
{
    if s.len() > 0 && is_white(s[0]) {
        let rest = s.drop_first();
        let i = start_of(rest);
        assert(rest.skip(i) =~= s.skip(i + 1));
        assert forall|k: int| 0 <= k < i + 1 implies is_white(#[trigger] s[k]) by {
            if k > 0 {
                assert(s[k] == rest[k - 1]);
            }
        }
        if i < rest.len() {
            assert(s[i + 1] == rest[i]);
        }
        i + 1
    } else {
        assert(s.skip(0) =~= s);
        0
    }
}

proof fn end_of(s: Seq<char>) -> (n: int)
    ensures
        0 <= n <= s.len(),
        trim_end(s) == s.take(n),
        forall|k: int| n <= k < s.len() ==> is_white(#[trigger] s[k]),
        n > 0 ==> !is_white(s[n - 1]),
    decreases s.len(),
{
    if s.len() > 0 && is_white(s.last()) {
        let rest = s.drop_last();
        let n = end_of(rest);
        assert(rest.take(n) =~= s.take(n));
        assert forall|k: int| n <= k < s.len() implies is_white(#[trigger] s[k]) by {
            if k < rest.len() {
                assert(s[k] == rest[k]);
            }
        }
        n
    } else {
        assert(s.take(s.len() as int) =~= s);
        s.len() as int
    }
}

/// Something else than `pat` stands at a place of `s`.
pub open spec fn differs_at<T>(s: Seq<T>, pat: Seq<T>, i: int) -> bool {
    exists|j: int| 0 <= j < pat.len() && s[i + j] != #[trigger] pat[j]
}

/// A search finds a place where each element is the one sought, and none before it is such a
/// place. It fails only where there is none.
pub proof fn search_is_exact<T>(s: Seq<T>, pat: Seq<T>)
    ensures
        match find(s, pat) {
            Some(k) => {
                &&& 0 <= k && k + pat.len() <= s.len()
                &&& forall|j: int| 0 <= j < pat.len() ==> s[k + j] == #[trigger] pat[j]
                &&& forall|i: int| 0 <= i < k ==> #[trigger] differs_at(s, pat, i)
            },
            None => forall|i: int|
                0 <= i && i + pat.len() <= s.len() ==> #[trigger] differs_at(s, pat, i),
        },
{
    find_is_first(s, pat, 0);
    assert forall|i: int|
        0 <= i && i + pat.len() <= s.len() && !occurs_at(s, pat, i) implies #[trigger] differs_at(
        s,
        pat,
        i,
    ) by {
        if forall|j: int| 0 <= j < pat.len() ==> s[i + j] == #[trigger] pat[j] {
            assert(s.subrange(i, i + pat.len()) =~= pat);
        }
    }
    if let Some(k) = find(s, pat) {
        assert forall|j: int| 0 <= j < pat.len() implies s[k + j] == #[trigger] pat[j] by {
            assert(s.subrange(k, k + pat.len())[j] == s[k + j]);
        }
        assert forall|i: int| 0 <= i < k implies #[trigger] differs_at(s, pat, i) by {
            assert(!occurs_at(s, pat, i));
        }
    } else {
        assert forall|i: int| 0 <= i && i + pat.len() <= s.len() implies #[trigger] differs_at(
            s,
            pat,
            i,
        ) by {
            assert(!occurs_at(s, pat, i));
        }
    }
}

/// Where the separator does not stand in a text, it has one piece, itself.
pub proof fn unsplit_is_whole(s: Seq<char>, pat: Seq<char>)
    requires
        pat.len() > 0,
        forall|i: int| 0 <= i && i + pat.len() <= s.len() ==> #[trigger] differs_at(s, pat, i),
    ensures
        split(s, pat) == seq![s],
{
    search_is_exact(s, pat);
    if let Some(k) = find(s, pat) {
        assert(differs_at(s, pat, k));
    }
}

/// The first piece of a text is what stands before the first separator, and the others are the
/// pieces of what follows it.
pub proof fn split_goes_on(a: Seq<char>, pat: Seq<char>, b: Seq<char>)
    requires
        pat.len() > 0,
        forall|i: int| 0 <= i < a.len() ==> #[trigger] differs_at(a + pat + b, pat, i),
    ensures
        split(a + pat + b, pat) == seq![a] + split(b, pat),
{
    let s = a + pat + b;
    search_is_exact(s, pat);
    assert forall|j: int| 0 <= j < pat.len() implies s[a.len() + j] == #[trigger] pat[j] by {}
    assert(!differs_at(s, pat, a.len() as int));
    let k = find(s, pat)->0;
    if k < a.len() {
        assert(differs_at(s, pat, k));
    }
    assert(s.take(k) =~= a);
    assert(s.skip(k + pat.len()) =~= b);
}

/// What follows the last `c` is the end of the text, holds no `c`, and is all of it or comes
/// right after one.
pub proof fn after_last_is_the_end(s: Seq<char>, c: char)
    ensures
        exists|i: int|
            {
                &&& 0 <= i <= s.len()
                &&& after_last(s, c) == #[trigger] s.skip(i)
                &&& forall|k: int| i <= k < s.len() ==> #[trigger] s[k] != c
                &&& i > 0 ==> s[i - 1] == c
            },
    decreases s.len(),
{
    if s.len() == 0 || s.last() == c {
        assert(after_last(s, c) =~= s.skip(s.len() as int));
    } else {
        let t = s.drop_last();
        after_last_is_the_end(t, c);
        let i = choose|i: int|
            {
                &&& 0 <= i <= t.len()
                &&& after_last(t, c) == #[trigger] t.skip(i)
                &&& forall|k: int| i <= k < t.len() ==> #[trigger] t[k] != c
                &&& i > 0 ==> t[i - 1] == c
            };
        assert(after_last(s, c) =~= s.skip(i));
        assert forall|k: int| i <= k < s.len() implies #[trigger] s[k] != c by {
            if k < t.len() {
                assert(s[k] == t[k]);
            }
        }
        if i > 0 {
            assert(s[i - 1] == t[i - 1]);
        }
    }
}

/// A text starts with another if its first characters are those of the other.
pub proof fn prefix_is_the_start(s: Seq<char>, pat: Seq<char>)
    ensures
        has_prefix(s, pat) <==> pat.len() <= s.len() && forall|j: int|
            0 <= j < pat.len() ==> s[j] == #[trigger] pat[j],
        has_prefix(pat + s, pat),
        pat.len() > 0 ==> past_all(pat + s, pat) == past_all(s, pat),
        !has_prefix(s, pat) ==> past_all(s, pat) == s,
{
    if pat.len() <= s.len() {
        if forall|j: int| 0 <= j < pat.len() ==> s[j] == #[trigger] pat[j] {
            assert(s.take(pat.len() as int) =~= pat);
        }
        if s.take(pat.len() as int) == pat {
            assert forall|j: int| 0 <= j < pat.len() implies s[j] == #[trigger] pat[j] by {
                assert(s.take(pat.len() as int)[j] == s[j]);
            }
        }
    }
    assert((pat + s).take(pat.len() as int) =~= pat);
    assert((pat + s).skip(pat.len() as int) =~= s);
}

/// A line ends at a line feed, and a carriage return right before that does not belong to it.
/// The other lines are those of what follows. The end of a text without a line feed is a line
/// too, unless it is empty.
pub proof fn lines_end_at_line_feeds(a: Seq<char>, b: Seq<char>)
    requires
        !a.contains('\n'),
    ensures
        lines(a + seq!['\n'] + b) == (if a.len() > 0 && a.last() == '\r' {
            seq![a.drop_last()]
        } else {
            seq![a]
        }) + lines(b),
        lines(a) == (if a.len() == 0 {
            Seq::empty()
        } else {
            seq![a]
        }),
{
    let s = a + seq!['\n'] + b;
    line_feed_found(a, b);
    assert(s.take(a.len() as int) =~= a);
    assert(s.skip(a.len() as int + 1) =~= b);
}

proof fn line_feed_found(a: Seq<char>, b: Seq<char>)
    requires
        !a.contains('\n'),
    ensures
        find(a + seq!['\n'] + b, seq!['\n']) == Some(a.len() as int),
        find(a, seq!['\n']) is None,
{
    let s = a + seq!['\n'] + b;
    assert forall|j: int| 0 <= j < a.len() implies #[trigger] a[j] != '\n' && s[j] == a[j] by {
        assert(a.contains(a[j]));
    }
    character_found(s, '\n', 0, a.len() as int);
    character_missing(a, '\n', 0);
}

/// A pattern is found where it stands, if its first element stands nowhere before.
pub(crate) proof fn pattern_found<T>(s: Seq<T>, pat: Seq<T>, i: int, k: int)
    requires
        0 <= i <= k,
        pat.len() > 0,
        k + pat.len() <= s.len(),
        s.subrange(k, k + pat.len()) == pat,
        forall|j: int| i <= j < k ==> #[trigger] s[j] != pat[0],
    ensures
        find_from(s, pat, i) == Some(k),
    decreases k - i,
{
    if i < k {
        assert(s.subrange(i, i + pat.len())[0] == s[i]);
        pattern_found(s, pat, i + 1, k);
    }
}

/// A character is found where it stands first.
pub(crate) proof fn character_found(s: Seq<char>, c: char, i: int, k: int)
    requires
        0 <= i <= k < s.len(),
        s[k] == c,
        forall|j: int| i <= j < k ==> #[trigger] s[j] != c,
    ensures
        find_from(s, seq![c], i) == Some(k),
    decreases k - i,
{
    let one = s.subrange(i, i + 1);
    assert(one[0] == s[i]);
    if i < k {
        character_found(s, c, i + 1, k);
    } else {
        assert(one =~= seq![c]);
    }
}

/// A character that does not stand in a text is not found.
pub(crate) proof fn character_missing(s: Seq<char>, c: char, i: int)
    requires
        0 <= i,
        forall|j: int| i <= j < s.len() ==> #[trigger] s[j] != c,
    ensures
        find_from(s, seq![c], i) is None,
    decreases s.len() - i,
{
    if i < s.len() {
        assert(s.subrange(i, i + 1)[0] == s[i]);
        character_missing(s, c, i + 1);
    }
}

/// White space before a text does not change its words. A word ends at the first white space
/// after it, and at the end of the text.
pub proof fn words_end_at_white_space(w: Seq<char>, c: char, b: Seq<char>)
    requires
        is_white(c),
        forall|k: int| 0 <= k < w.len() ==> !is_white(#[trigger] w[k]),
    ensures
        words(seq![c] + b) == words(b),
        w.len() > 0 ==> words(w + seq![c] + b) == seq![w] + words(b),
        w.len() > 0 ==> words(w) == seq![w],
        words(Seq::empty()) == Seq::<Seq<char>>::empty(),
{
    assert((seq![c] + b).drop_first() =~= b);
    let s = w + seq![c] + b;
    word_ends(w, seq![c] + b);
    word_ends(w, Seq::empty());
    assert(w + (seq![c] + b) =~= s);
    assert(w + Seq::<char>::empty() =~= w);
    if w.len() > 0 {
        assert(s[0] == w[0]);
        assert(s.take(w.len() as int) =~= w);
        assert(s.skip(w.len() as int) =~= seq![c] + b);
        assert(w.take(w.len() as int) =~= w);
        assert(w.skip(w.len() as int) =~= Seq::<char>::empty());
        assert(words(Seq::<char>::empty()) =~= Seq::<Seq<char>>::empty());
        assert(words(w) =~= seq![w]);
    }
}

proof fn word_ends(w: Seq<char>, b: Seq<char>)
    requires
        forall|k: int| 0 <= k < w.len() ==> !is_white(#[trigger] w[k]),
        b.len() > 0 ==> is_white(b[0]),
    ensures
        word_len(w + b) == w.len(),
    decreases w.len(),
{
    if w.len() == 0 {
        assert(w + b =~= b);
    } else {
        assert((w + b)[0] == w[0]);
        assert((w + b).drop_first() =~= w.drop_first() + b);
        assert forall|k: int| 0 <= k < w.drop_first().len() implies !is_white(
            #[trigger] w.drop_first()[k],
        ) by {
            assert(w.drop_first()[k] == w[k + 1]);
        }
        word_ends(w.drop_first(), b);
    }
}

} // verus!
