//! The UI hierarchy as a tree: its nodes, their labels, and finding one by a point or by
//! a path.

use crate::geometry::{Coord, Pos, Rect, LARGEST};
use crate::platform::same_text;
use crate::text::{after_last, chars_of, copy_of, cut_after_last, string_of, text_in};
use vstd::prelude::*;
use vstd::utf8::*;

verus! {

/// A node of the hierarchy.
#[derive(Debug)]
pub struct UiNode {
    pub bounds: Rect,
    pub attrs: Vec<(String, String)>,
    pub children: Vec<UiNode>,
    pub label: String,
}

/// A node with its texts as sequences of characters.
#[verifier::ext_equal]
pub struct NodeView {
    pub bounds: Rect,
    pub attrs: Seq<(Seq<char>, Seq<char>)>,
    pub children: Seq<NodeView>,
    pub label: Seq<char>,
}

impl UiNode {
    /// The node with all that is below it.
    pub open spec fn tree(self) -> NodeView
        decreases self,
    {
        NodeView {
            bounds: self.bounds,
            attrs: self.attrs.deep_view(),
            children: Seq::new(
                self.children@.len(),
                |i: int|
                    if 0 <= i < self.children@.len() {
                        self.children@[i].tree()
                    } else {
                        arbitrary()
                    },
            ),
            label: self.label@,
        }
    }
}

impl View for UiNode {
    type V = NodeView;

    open spec fn view(&self) -> NodeView {
        self.tree()
    }
}

/// The trees of some nodes.
pub open spec fn forest(nodes: Seq<UiNode>) -> Seq<NodeView> {
    Seq::new(nodes.len(), |i: int| nodes[i]@)
}

/// A node's children are the forest of its vector.
pub proof fn children_are_forest(node: UiNode)
    ensures
        node@.children == forest(node.children@),
{
    assert(node@.children =~= forest(node.children@));
}

impl Clone for UiNode {
    /// Copies the node with all that is below it.
    fn clone(&self) -> (r: UiNode)
        ensures
            r@ == self@,
        decreases self,
    {
        let mut children: Vec<UiNode> = Vec::new();
        let n: usize = self.children.len();
        for i in 0..n
            invariant
                n == self.children@.len(),
                forest(children@) == forest(self.children@).take(i as int),
        {
            let ghost before = children@;
            let child = (&self.children[i]).clone();
            children.push(child);
            assert(forest(children@) =~= forest(before).push(child@));
            assert(forest(children@) =~= forest(self.children@).take(i + 1));
        }
        assert(forest(self.children@).take(n as int) =~= forest(self.children@));
        let attrs = copy_pairs(&self.attrs);
        let r = UiNode { bounds: self.bounds, attrs, children, label: self.label.clone() };
        proof {
            children_are_forest(r);
            children_are_forest(*self);
        }
        r
    }
}

/// Copies a list of names and values.
pub fn copy_pairs(pairs: &Vec<(String, String)>) -> (r: Vec<(String, String)>)
    ensures
        r.deep_view() == pairs.deep_view(),
{
    let mut out: Vec<(String, String)> = Vec::new();
    let n: usize = pairs.len();
    for i in 0..n
        invariant
            n == pairs@.len(),
            out.deep_view() == pairs.deep_view().take(i as int),
    {
        let ghost before = out.deep_view();
        out.push((pairs[i].0.clone(), pairs[i].1.clone()));
        assert(out.deep_view() =~= before.push(pairs.deep_view()[i as int]));
        assert(out.deep_view() =~= pairs.deep_view().take(i + 1));
    }
    assert(pairs.deep_view().take(n as int) =~= pairs.deep_view());
    out
}

// ── Attributes ──

/// The value of the first attribute named `key`.
pub open spec fn attr_value(attrs: Seq<(Seq<char>, Seq<char>)>, key: Seq<char>) -> Option<
    Seq<char>,
>
    decreases attrs.len(),
{
    if attrs.len() == 0 {
        None
    } else if attrs[0].0 == key {
        Some(attrs[0].1)
    } else {
        attr_value(attrs.drop_first(), key)
    }
}

/// The value is no placeholder.
pub open spec fn meaningful(v: Seq<char>) -> bool {
    v.len() > 0 && v != "null"@
}

/// The value of an attribute, placeholders counted as missing.
pub open spec fn attr_meaning(attrs: Seq<(Seq<char>, Seq<char>)>, key: Seq<char>) -> Option<
    Seq<char>,
> {
    match attr_value(attrs, key) {
        Some(v) if meaningful(v) => Some(v),
        _ => None,
    }
}

/// Finds the value of the first attribute named `key`.
pub fn find_attr<'a>(attrs: &'a [(String, String)], key: &str) -> (r: Option<&'a str>)
    ensures
        text_in(r) == attr_value(attrs.deep_view(), key@),
{
    let n: usize = attrs.len();
    let ghost all = attrs.deep_view();
    assert(all.skip(0) == all);
    for i in 0..n
        invariant
            n == attrs@.len(),
            all == attrs.deep_view(),
            attr_value(all, key@) == attr_value(all.skip(i as int), key@),
    {
        assert(all.skip(i as int)[0] == (attrs@[i as int].0@, attrs@[i as int].1@));
        if same_text(attrs[i].0.as_str(), key) {
            return Some(attrs[i].1.as_str());
        }
        assert(all.skip(i as int).drop_first() == all.skip(i + 1));
    }
    None
}

/// Finds the value of an attribute that is not a placeholder.
pub fn find_meaning<'a>(attrs: &'a [(String, String)], key: &str) -> (r: Option<&'a str>)
    ensures
        text_in(r) == attr_meaning(attrs.deep_view(), key@),
{
    match find_attr(attrs, key) {
        Some(v) => if !v.is_empty() && !same_text(v, "null") {
            Some(v)
        } else {
            None
        },
        None => None,
    }
}

// ── Labels ──

/// How many bytes a character takes in UTF-8.
pub open spec fn char_bytes(c: char) -> nat {
    let n = c as u32;
    if n < 0x80 {
        1
    } else if n < 0x800 {
        2
    } else if n < 0x1_0000 {
        3
    } else {
        4
    }
}

/// How many bytes a text takes in UTF-8.
pub open spec fn byte_len(s: Seq<char>) -> nat
    decreases s.len(),
{
    if s.len() == 0 {
        0
    } else {
        byte_len(s.drop_last()) + char_bytes(s.last())
    }
}

/// How many of the first `n` characters of `s` fit in `limit` bytes together.
pub open spec fn fitting(s: Seq<char>, limit: nat, n: nat) -> nat
    decreases n,
{
    if n == 0 || byte_len(s.take(n as int)) <= limit {
        n
    } else {
        fitting(s, limit, (n - 1) as nat)
    }
}

/// The character that ends a shortened label.
pub const ELLIPSIS: char = '\u{2026}';

/// A label of more than 100 bytes is cut to the characters that fit in 97 bytes and ends
/// in an ellipsis.
pub open spec fn shortened(s: Seq<char>) -> Seq<char> {
    if byte_len(s) > 100 {
        s.take(fitting(s, 97, s.len()) as int).push(ELLIPSIS)
    } else {
        s
    }
}

/// The label of a node: its class without the package, its text in quotes and its
/// resource id without the package in brackets.
pub open spec fn label_of(attrs: Seq<(Seq<char>, Seq<char>)>) -> Seq<char> {
    let class = match attr_value(attrs, "class"@) {
        Some(v) => after_last(v, '.'),
        None => "?"@,
    };
    let text = match attr_meaning(attrs, "text"@) {
        Some(t) => " \""@ + t + "\""@,
        None => Seq::empty(),
    };
    let id = match attr_meaning(attrs, "resource-id"@) {
        Some(r) => " ["@ + after_last(r, '/') + "]"@,
        None => Seq::empty(),
    };
    shortened(class + text + id)
}

fn char_bytes_of(c: char) -> (r: usize)
    ensures
        r == char_bytes(c),
        1 <= r <= 4,
{
    let n: u32 = c as u32;
    if n < 0x80 {
        1
    } else if n < 0x800 {
        2
    } else if n < 0x1_0000 {
        3
    } else {
        4
    }
}

proof fn byte_len_monotone(s: Seq<char>, i: int, j: int)
    requires
        0 <= i <= j <= s.len(),
    ensures
        byte_len(s.take(i)) <= byte_len(s.take(j)),
        byte_len(s.take(i)) + (j - i) <= byte_len(s.take(j)),
    decreases j,
{
    if i < j {
        assert(s.take(j).drop_last() == s.take(j - 1));
        byte_len_monotone(s, i, j - 1);
    }
}

/// A length that fits is not cut further, one that does not is.
proof fn fitting_at(s: Seq<char>, limit: nat, k: nat, n: nat)
    requires
        k <= n <= s.len(),
        byte_len(s.take(k as int)) <= limit,
        k < n ==> byte_len(s.take(k as int + 1)) > limit,
    ensures
        fitting(s, limit, n) == k,
    decreases n,
{
    if k < n {
        byte_len_monotone(s, k as int + 1, n as int);
        fitting_at(s, limit, k, (n - 1) as nat);
    }
}

fn shorten(s: Vec<char>) -> (r: String)
    ensures
        r@ == shortened(s@),
{
    let n: usize = s.len();
    let mut i: usize = 0;
    let mut size: usize = 0;
    // The characters that fit in 97 bytes, and their size.
    let mut kept: usize = 0;
    assert(s@.take(0) =~= Seq::<char>::empty());
    while i < n && size <= 100
        invariant
            n == s@.len(),
            i <= n,
            kept <= i,
            size == byte_len(s@.take(i as int)),
            size <= 104,
            byte_len(s@.take(kept as int)) <= 97,
            kept < i ==> byte_len(s@.take(kept + 1)) > 97,
        decreases n - i,
    {
        assert(s@.take(i + 1).drop_last() == s@.take(i as int));
        size = size + char_bytes_of(s[i]);
        i += 1;
        if size <= 97 {
            proof {
                if kept < i - 1 {
                    byte_len_monotone(s@, kept + 1, i as int);
                }
            }
            kept = i;
        }
    }
    proof {
        byte_len_monotone(s@, i as int, n as int);
        assert(s@.take(n as int) == s@);
    }
    if size > 100 {
        proof {
            assert(kept < i) by {
                if kept == i {
                    assert(size == byte_len(s@.take(kept as int)));
                }
            }
            fitting_at(s@, 97, kept as nat, n as nat);
        }
        let mut out = string_of(vstd::slice::slice_subrange(s.as_slice(), 0, kept));
        out.push(ELLIPSIS);
        assert(s@.subrange(0, kept as int) == s@.take(kept as int));
        out
    } else {
        string_of(s.as_slice())
    }
}

/// Builds the label of a node from its attributes.
pub fn build_label(attrs: &[(String, String)]) -> (r: String)
    ensures
        r@ == label_of(attrs.deep_view()),
{
    let mut s = match find_attr(attrs, "class") {
        Some(v) => string_of(cut_after_last(chars_of(v).as_slice(), '.')),
        None => copy_of("?"),
    };
    let ghost class = s@;
    if let Some(t) = find_meaning(attrs, "text") {
        s.append(" \"");
        s.append(t);
        s.append("\"");
        assert(s@ =~= class + (" \""@ + t@ + "\""@));
    }
    let ghost upto = s@;
    assert(upto =~= class + match attr_meaning(attrs.deep_view(), "text"@) {
        Some(t) => " \""@ + t + "\""@,
        None => Seq::empty(),
    });
    if let Some(r) = find_meaning(attrs, "resource-id") {
        let short = string_of(cut_after_last(chars_of(r).as_slice(), '/'));
        s.append(" [");
        s.append(short.as_str());
        s.append("]");
        assert(s@ =~= upto + (" ["@ + short@ + "]"@));
    } else {
        assert(s@ =~= upto + Seq::<char>::empty());
    }
    shorten(chars_of(s.as_str()))
}

/// No label takes more than 100 bytes.
pub proof fn label_fits(attrs: Seq<(Seq<char>, Seq<char>)>)
    ensures
        byte_len(label_of(attrs)) <= 100,
{
    let class = match attr_value(attrs, "class"@) {
        Some(v) => after_last(v, '.'),
        None => "?"@,
    };
    let text = match attr_meaning(attrs, "text"@) {
        Some(t) => " \""@ + t + "\""@,
        None => Seq::empty(),
    };
    let id = match attr_meaning(attrs, "resource-id"@) {
        Some(r) => " ["@ + after_last(r, '/') + "]"@,
        None => Seq::empty(),
    };
    let s = class + text + id;
    if byte_len(s) > 100 {
        fitting_bound(s, 97, s.len());
        let cut = s.take(fitting(s, 97, s.len()) as int);
        assert(cut.push(ELLIPSIS).drop_last() == cut);
    }
}

proof fn fitting_bound(s: Seq<char>, limit: nat, n: nat)
    requires
        n <= s.len(),
    ensures
        fitting(s, limit, n) <= n,
        byte_len(s.take(fitting(s, limit, n) as int)) <= limit,
    decreases n,
{
    if n == 0 {
        assert(s.take(0) =~= Seq::<char>::empty());
    } else if byte_len(s.take(n as int)) > limit {
        fitting_bound(s, limit, (n - 1) as nat);
    }
}

// ── Paths ──

/// The node that a path of child numbers leads to.
pub open spec fn node_on(node: NodeView, path: Seq<usize>) -> Option<NodeView>
    decreases path.len(),
{
    if path.len() == 0 {
        Some(node)
    } else if path[0] < node.children.len() {
        node_on(node.children[path[0] as int], path.drop_first())
    } else {
        None
    }
}

impl UiNode {
    /// Follows a path of child numbers.
    pub fn node_at(&self, path: &[usize]) -> (r: Option<&UiNode>)
        ensures
            (match r {
                Some(n) => node_on(self@, path@) == Some(n@),
                None => node_on(self@, path@) is None,
            }),
    {
        let mut node = self;
        let n: usize = path.len();
        assert(path@.skip(0) == path@);
        for i in 0..n
            invariant
                n == path@.len(),
                node_on(self@, path@) == node_on(node@, path@.skip(i as int)),
        {
            assert(path@.skip(i as int).drop_first() == path@.skip(i + 1));
            proof {
                children_are_forest(*node);
            }
            if path[i] >= node.children.len() {
                return None;
            }
            node = &node.children[path[i]];
        }
        Some(node)
    }
}

/// A path that goes on leads where its end leads from where its start leads.
pub proof fn node_on_append(node: NodeView, a: Seq<usize>, b: Seq<usize>)
    ensures
        node_on(node, a + b) == (match node_on(node, a) {
            Some(n) => node_on(n, b),
            None => None,
        }),
    decreases a.len(),
{
    if a.len() == 0 {
        assert(a + b == b);
    } else {
        assert((a + b).drop_first() == a.drop_first() + b);
        if a[0] < node.children.len() {
            node_on_append(node.children[a[0] as int], a.drop_first(), b);
        }
    }
}

// ── Finding by a point ──

/// `area` gives for each rectangle what `m` says.
pub open spec fn measures_as<F: Fn(&Rect) -> Coord>(area: F, m: spec_fn(Rect) -> Coord) -> bool {
    forall|r: &Rect, c: Coord| #[trigger] call_ensures(area, (r,), c) ==> c == m(*r)
}

/// `area` takes every rectangle.
pub open spec fn measures_all<F: Fn(&Rect) -> Coord>(area: F) -> bool {
    forall|r: &Rect| call_requires(area, (r,))
}

/// The candidate beats the best so far: its area is smaller, or the same and its path
/// longer. Before there is a best, only areas up to the largest finite number count.
pub open spec fn beats(area: Coord, len: nat, best: Option<(Seq<usize>, Coord)>) -> bool {
    let (best_area, best_len) = match best {
        Some((p, a)) => (a, p.len()),
        None => (Coord::At(LARGEST), 0),
    };
    area.lt(best_area) || (area.same(best_area) && len > best_len)
}

/// The path from `node` to the innermost node at `pos`: among the children's answers the
/// one of the smallest area, the deeper one of two of the same area, the earlier one of
/// two as deep; `node` itself where no child has an answer.
pub open spec fn branch(node: NodeView, pos: Pos, m: spec_fn(Rect) -> Coord) -> Option<Seq<usize>>
    decreases node, node.children.len() + 1,
{
    match best_child(node, pos, m, node.children.len()) {
        Some((p, _)) => Some(p),
        None => if node.bounds.covers(pos) {
            Some(Seq::empty())
        } else {
            None
        },
    }
}

/// The best answer among the first `n` children, with its area.
pub open spec fn best_child(node: NodeView, pos: Pos, m: spec_fn(Rect) -> Coord, n: nat) -> Option<
    (Seq<usize>, Coord),
>
    decreases node, n,
{
    if n == 0 || n > node.children.len() {
        None
    } else {
        let best = best_child(node, pos, m, (n - 1) as nat);
        let child = node.children[n - 1];
        match branch(child, pos, m) {
            None => best,
            Some(sub) => match node_on(child, sub) {
                None => best,
                Some(hit) => {
                    let found = seq![(n - 1) as usize] + sub;
                    if beats(m(hit.bounds), found.len(), best) {
                        Some((found, m(hit.bounds)))
                    } else {
                        best
                    }
                },
            },
        }
    }
}

/// `base` followed by what was found below it.
pub open spec fn below(base: Seq<usize>, sub: Option<Seq<usize>>) -> Option<Seq<usize>> {
    match sub {
        Some(p) => Some(base + p),
        None => None,
    }
}

/// What an optional vector holds.
pub open spec fn path_in(r: Option<Vec<usize>>) -> Option<Seq<usize>> {
    match r {
        Some(v) => Some(v@),
        None => None,
    }
}

impl UiNode {
    /// Finds the innermost node at `pos`. `path` is the path of this node; the answer
    /// starts with it, and it is left as it was.
    pub fn find_branch<F: Fn(&Rect) -> Coord>(
        &self,
        pos: Pos,
        path: &mut Vec<usize>,
        area: &F,
    ) -> (r: Option<Vec<usize>>)
        requires
            measures_all(*area),
        ensures
            final(path)@ == old(path)@,
            r matches Some(p) ==> old(path)@.is_prefix_of(p@) && node_on(
                self@,
                p@.skip(old(path)@.len() as int),
            ) is Some,
            forall|m: spec_fn(Rect) -> Coord| #[trigger]
                measures_as(*area, m) ==> path_in(r) == below(old(path)@, branch(self@, pos, m)),
        decreases self,
    {
        let ghost base = path@;
        let mut best_path: Option<Vec<usize>> = None;
        let mut best_area: Coord = Coord::At(LARGEST);
        let n: usize = self.children.len();
        proof {
            children_are_forest(*self);
        }
        for i in 0..n
            invariant
                n == self.children@.len(),
                self@.children == forest(self.children@),
                measures_all(*area),
                path@ == base,
                best_path matches Some(p) ==> base.is_prefix_of(p@) && p@.len() > base.len()
                    && node_on(self@, p@.skip(base.len() as int)) is Some,
                best_path is None ==> best_area == Coord::At(LARGEST),
                forall|m: spec_fn(Rect) -> Coord| #[trigger]
                    measures_as(*area, m) ==> match best_child(self@, pos, m, i as nat) {
                        Some((p, a)) => path_in(best_path) == Some(base + p) && best_area == a,
                        None => best_path is None,
                    },
        {
            let child = &self.children[i];
            let ghost deeper = base.push(i);
            path.push(i);
            assert(path@ == deeper);
            let found = child.find_branch(pos, path, area);
            if let Some(found) = found {
                let depth: usize = path.len();
                let ghost sub = found@.skip(deeper.len() as int);
                let size = match child.node_at(
                    vstd::slice::slice_subrange(found.as_slice(), depth, found.len()),
                ) {
                    Some(hit) => area(&hit.bounds),
                    None => Coord::Nan,
                };
                assert(found@.subrange(depth as int, found@.len() as int) == sub);
                let longest: usize = match &best_path {
                    Some(p) => p.len(),
                    None => 0,
                };
                let better = size.below(best_area) || (size.equals(best_area) && found.len()
                    > longest);
                proof {
                    assert(found@.subrange(0, deeper.len() as int) == deeper);
                    assert(found@ =~= found@.subrange(0, deeper.len() as int) + sub);
                    assert(found@ =~= base + (seq![i] + sub));
                    assert(found@.skip(base.len() as int) =~= seq![i] + sub);
                    assert((seq![i] + sub).drop_first() =~= sub);
                    assert(node_on(self@, seq![i] + sub) is Some);
                    assert forall|m: spec_fn(Rect) -> Coord| #[trigger]
                        measures_as(*area, m) implies match best_child(
                        self@,
                        pos,
                        m,
                        (i + 1) as nat,
                    ) {
                        Some((p, a)) => if better {
                            Some(found@) == Some(base + p) && size == a
                        } else {
                            path_in(best_path) == Some(base + p) && best_area == a
                        },
                        None => !better && best_path is None,
                    } by {
                        assert(below(deeper, branch(child@, pos, m)) == Some(found@));
                        let s2 = branch(child@, pos, m)->0;
                        assert(s2 =~= sub) by {
                            assert((deeper + s2).skip(deeper.len() as int) =~= s2);
                        }
                        let best = best_child(self@, pos, m, i as nat);
                        if let Some((p, _)) = best {
                            assert((base + p).len() == base.len() + p.len());
                        }
                        assert(self@.children[i as int] == child@);
                    }
                }
                if better {
                    best_area = size;
                    best_path = Some(found);
                }
            } else {
                proof {
                    assert forall|m: spec_fn(Rect) -> Coord| #[trigger]
                        measures_as(*area, m) implies best_child(self@, pos, m, (i + 1) as nat)
                        == best_child(self@, pos, m, i as nat) by {
                        assert(below(deeper, branch(child@, pos, m)) is None);
                        assert(self@.children[i as int] == child@);
                    }
                }
            }
            path.pop();
            assert(path@ =~= base);
        }
        if best_path.is_some() {
            return best_path;
        }
        if self.bounds.contains(pos) {
            let own = path.clone();
            assert(own@ =~= base + Seq::<usize>::empty());
            assert(own@.skip(base.len() as int) =~= Seq::<usize>::empty());
            return Some(own);
        }
        None
    }
}

/// Every child has a number that a path can hold.
pub open spec fn addressable(node: NodeView) -> bool
    decreases node,
{
    &&& node.children.len() <= usize::MAX
    &&& forall|i: int| 0 <= i < node.children.len() ==> addressable(#[trigger] node.children[i])
}

/// The trees that exist in memory are addressable.
pub proof fn nodes_addressable(node: UiNode)
    ensures
        addressable(node@),
    decreases node,
{
    children_are_forest(node);
    assert(node.children.len() == node.children@.len());
    assert forall|i: int| 0 <= i < node@.children.len() implies addressable(
        #[trigger] node@.children[i],
    ) by {
        nodes_addressable(node.children@[i]);
    }
}

/// The node that is found lies at the point.
pub proof fn found_covers(node: NodeView, pos: Pos, m: spec_fn(Rect) -> Coord)
    requires
        addressable(node),
    ensures
        branch(node, pos, m) matches Some(p) ==> (node_on(node, p) matches Some(hit)
            && hit.bounds.covers(pos)),
    decreases node, node.children.len() + 1,
{
    if best_child(node, pos, m, node.children.len()) is Some {
        best_covers(node, pos, m, node.children.len());
    }
}

proof fn best_covers(node: NodeView, pos: Pos, m: spec_fn(Rect) -> Coord, n: nat)
    requires
        addressable(node),
        n <= node.children.len(),
    ensures
        best_child(node, pos, m, n) matches Some((p, a)) ==> p.len() > 0 && p[0] < n && (node_on(
            node,
            p,
        ) matches Some(hit) && hit.bounds.covers(pos) && a == m(hit.bounds)) && branch(
            node.children[p[0] as int],
            pos,
            m,
        ) == Some(p.drop_first()),
    decreases node, n,
{
    if n > 0 {
        best_covers(node, pos, m, (n - 1) as nat);
        let child = node.children[n - 1];
        found_covers(child, pos, m);
        if branch(child, pos, m) is Some {
            let sub = branch(child, pos, m)->0;
            let found = seq![(n - 1) as usize] + sub;
            assert(found.drop_first() =~= sub);
        }
    }
}

/// The node on `path` lies at the point, and none below it does.
pub open spec fn innermost(node: NodeView, pos: Pos, path: Seq<usize>) -> bool {
    &&& node_on(node, path) matches Some(hit) && hit.bounds.covers(pos)
    &&& forall|deeper: Seq<usize>|
        deeper.len() > 0 ==> (#[trigger] node_on(node, path + deeper) matches Some(hit)
            ==> !hit.bounds.covers(pos))
}

/// The area of each innermost node at the point is a number, and a finite one. That of the
/// root does not matter.
pub open spec fn finite_at(node: NodeView, pos: Pos, m: spec_fn(Rect) -> Coord) -> bool {
    forall|path: Seq<usize>|
        path.len() > 0 && #[trigger] innermost(node, pos, path) ==> (m(
            node_on(node, path)->0.bounds,
        ) matches Coord::At(k) && k <= LARGEST)
}

proof fn innermost_below(node: NodeView, pos: Pos, k: nat, path: Seq<usize>)
    requires
        addressable(node),
        k < node.children.len(),
        innermost(node.children[k as int], pos, path),
    ensures
        innermost(node, pos, seq![k as usize] + path),
        node_on(node, seq![k as usize] + path) == node_on(node.children[k as int], path),
{
    let child = node.children[k as int];
    let whole = seq![k as usize] + path;
    assert(whole.drop_first() =~= path);
    assert forall|deeper: Seq<usize>| deeper.len() > 0 implies (#[trigger] node_on(
        node,
        whole + deeper,
    ) matches Some(hit) ==> !hit.bounds.covers(pos)) by {
        assert((whole + deeper).drop_first() =~= path + deeper);
        assert(node_on(node, whole + deeper) == node_on(child, path + deeper));
    }
}

proof fn finite_below(node: NodeView, pos: Pos, m: spec_fn(Rect) -> Coord, k: nat)
    requires
        addressable(node),
        finite_at(node, pos, m),
        k < node.children.len(),
    ensures
        finite_at(node.children[k as int], pos, m),
{
    let child = node.children[k as int];
    assert forall|path: Seq<usize>|
        path.len() > 0 && #[trigger] innermost(child, pos, path) implies (m(
        node_on(child, path)->0.bounds,
    ) matches Coord::At(k) && k <= LARGEST) by {
        innermost_below(node, pos, k, path);
    }
}

/// Where a node of the tree lies at the point, one is found.
pub proof fn nothing_is_missed(
    node: NodeView,
    pos: Pos,
    m: spec_fn(Rect) -> Coord,
    path: Seq<usize>,
)
    requires
        addressable(node),
        finite_at(node, pos, m),
        node_on(node, path) matches Some(hit) && hit.bounds.covers(pos),
    ensures
        branch(node, pos, m) is Some,
    decreases node, node.children.len() + 1,
{
    if path.len() > 0 {
        let k = path[0] as nat;
        finite_below(node, pos, m, k);
        nothing_is_missed(node.children[k as int], pos, m, path.drop_first());
        best_is_best(node, pos, m, k, node.children.len());
    }
}

/// The node that is found is an innermost one at the point.
pub proof fn found_is_innermost(node: NodeView, pos: Pos, m: spec_fn(Rect) -> Coord)
    requires
        addressable(node),
        finite_at(node, pos, m),
        branch(node, pos, m) is Some,
    ensures
        innermost(node, pos, branch(node, pos, m)->0),
    decreases node, node.children.len() + 3,
{
    let p = branch(node, pos, m)->0;
    found_covers(node, pos, m);
    assert forall|deeper: Seq<usize>| deeper.len() > 0 implies (#[trigger] node_on(node, p + deeper)
        matches Some(hit) ==> !hit.bounds.covers(pos)) by {
        none_below_found(node, pos, m, deeper);
    }
}

proof fn none_below_found(
    node: NodeView,
    pos: Pos,
    m: spec_fn(Rect) -> Coord,
    deeper: Seq<usize>,
)
    requires
        addressable(node),
        finite_at(node, pos, m),
        branch(node, pos, m) is Some,
        deeper.len() > 0,
    ensures
        node_on(node, branch(node, pos, m)->0 + deeper) matches Some(hit) ==> !hit.bounds.covers(
            pos,
        ),
    decreases node, node.children.len() + 2,
{
    let p = branch(node, pos, m)->0;
    let n = node.children.len();
    if best_child(node, pos, m, n) is None {
        assert(p + deeper =~= deeper);
        if let Some(hit) = node_on(node, deeper) {
            if hit.bounds.covers(pos) {
                let k = deeper[0] as nat;
                finite_below(node, pos, m, k);
                nothing_is_missed(node.children[k as int], pos, m, deeper.drop_first());
                best_is_best(node, pos, m, k, n);
            }
        }
    } else {
        best_covers(node, pos, m, n);
        let k = p[0] as nat;
        assert((p + deeper).drop_first() =~= p.drop_first() + deeper);
        finite_below(node, pos, m, k);
        none_below_found(node.children[k as int], pos, m, deeper);
    }
}

/// One path comes before another in the order of the document: a node before those below it,
/// and what is below an earlier child before what is below a later one.
pub open spec fn precedes(a: Seq<usize>, b: Seq<usize>) -> bool
    decreases a.len(),
{
    if b.len() == 0 {
        false
    } else if a.len() == 0 {
        true
    } else {
        a[0] < b[0] || (a[0] == b[0] && precedes(a.drop_first(), b.drop_first()))
    }
}

proof fn precedes_is_transitive(a: Seq<usize>, b: Seq<usize>, c: Seq<usize>)
    requires
        precedes(a, b),
        precedes(b, c),
    ensures
        precedes(a, c),
    decreases a.len(),
{
    if a.len() > 0 && a[0] == b[0] && b[0] == c[0] {
        precedes_is_transitive(a.drop_first(), b.drop_first(), c.drop_first());
    }
}

/// The node on `a` is the one on `b`, or is to be found rather than that one: its area is
/// smaller; or the areas are the same and its path is longer; or the lengths are the same too
/// and it comes first in the document.
pub open spec fn preferred(
    node: NodeView,
    m: spec_fn(Rect) -> Coord,
    a: Seq<usize>,
    b: Seq<usize>,
) -> bool {
    let area = m(node_on(node, a)->0.bounds);
    let other = m(node_on(node, b)->0.bounds);
    a == b || area.lt(other) || (area.same(other) && (a.len() > b.len() || (a.len() == b.len()
        && precedes(a, b))))
}

proof fn preferred_is_transitive(
    node: NodeView,
    m: spec_fn(Rect) -> Coord,
    a: Seq<usize>,
    b: Seq<usize>,
    c: Seq<usize>,
)
    requires
        preferred(node, m, a, b),
        preferred(node, m, b, c),
    ensures
        preferred(node, m, a, c),
{
    if precedes(a, b) && precedes(b, c) {
        precedes_is_transitive(a, b, c);
    }
}

proof fn best_is_best(node: NodeView, pos: Pos, m: spec_fn(Rect) -> Coord, k: nat, n: nat)
    requires
        addressable(node),
        finite_at(node, pos, m),
        k < n <= node.children.len(),
        branch(node.children[k as int], pos, m) is Some,
    ensures
        best_child(node, pos, m, n) matches Some((p, _)) && preferred(
            node,
            m,
            p,
            seq![k as usize] + branch(node.children[k as int], pos, m)->0,
        ),
    decreases node, n,
{
    let q = seq![k as usize] + branch(node.children[k as int], pos, m)->0;
    let child = node.children[n - 1];
    let best = best_child(node, pos, m, (n - 1) as nat);
    best_covers(node, pos, m, (n - 1) as nat);
    best_covers(node, pos, m, n);
    if k < n - 1 {
        best_is_best(node, pos, m, k, (n - 1) as nat);
    }
    if branch(child, pos, m) is Some {
        let sub = branch(child, pos, m)->0;
        let found = seq![(n - 1) as usize] + sub;
        finite_below(node, pos, m, (n - 1) as nat);
        found_is_innermost(child, pos, m);
        innermost_below(node, pos, (n - 1) as nat, sub);
        if best is Some {
            let (p, _) = best->0;
            let first = p[0] as nat;
            finite_below(node, pos, m, first);
            found_is_innermost(node.children[first as int], pos, m);
            innermost_below(node, pos, first, p.drop_first());
            assert(p =~= seq![first as usize] + p.drop_first());
            if k < n - 1 && beats(m(node_on(child, sub)->0.bounds), found.len(), best) {
                preferred_is_transitive(node, m, found, p, q);
            }
        }
    }
}

/// Of all innermost nodes at the point, the one that is found has the smallest area; of those
/// with the same area it has the longest path; of those it comes first in the document.
pub proof fn found_is_preferred(
    node: NodeView,
    pos: Pos,
    m: spec_fn(Rect) -> Coord,
    path: Seq<usize>,
)
    requires
        addressable(node),
        finite_at(node, pos, m),
        innermost(node, pos, path),
    ensures
        branch(node, pos, m) matches Some(p) && preferred(node, m, p, path),
    decreases path.len(),
{
    let n = node.children.len();
    best_covers(node, pos, m, n);
    if path.len() == 0 {
        assert(path =~= Seq::<usize>::empty());
        if let Some((p, _)) = best_child(node, pos, m, n) {
            assert(path + p =~= p);
        }
        assert(node_on(node, path) == Some(node));
    } else {
        let k = path[0] as nat;
        let child = node.children[k as int];
        let rest = path.drop_first();
        assert forall|deeper: Seq<usize>| deeper.len() > 0 implies (#[trigger] node_on(
            child,
            rest + deeper,
        ) matches Some(hit) ==> !hit.bounds.covers(pos)) by {
            assert((path + deeper).drop_first() =~= rest + deeper);
            assert(node_on(node, path + deeper) == node_on(child, rest + deeper));
        }
        finite_below(node, pos, m, k);
        found_is_preferred(child, pos, m, rest);
        let sub = branch(child, pos, m)->0;
        let found = seq![k as usize] + sub;
        found_covers(child, pos, m);
        best_is_best(node, pos, m, k, n);
        assert(found.drop_first() =~= sub);
        assert(path =~= seq![k as usize] + rest);
        assert(preferred(node, m, found, path));
        preferred_is_transitive(node, m, branch(node, pos, m)->0, found, path);
    }
}

// ── Joining several roots ──

/// The rectangle around the first `n` nodes.
pub open spec fn joined_bounds(nodes: Seq<NodeView>, n: nat) -> Rect
    decreases n,
{
    if n <= 1 {
        nodes[0].bounds
    } else {
        joined_bounds(nodes, (n - 1) as nat).joined(nodes[n - 1].bounds)
    }
}

/// The attributes of a root that is made up to hold several nodes.
pub open spec fn frame_attrs() -> Seq<(Seq<char>, Seq<char>)> {
    seq![("class"@, "android.widget.FrameLayout"@)]
}

/// One tree of several: none of none, the one of one, and else a frame around them all.
pub open spec fn merged(nodes: Seq<NodeView>) -> Option<NodeView> {
    if nodes.len() == 0 {
        None
    } else if nodes.len() == 1 {
        Some(nodes[0])
    } else {
        Some(
            NodeView {
                bounds: joined_bounds(nodes, nodes.len()),
                attrs: frame_attrs(),
                children: nodes,
                label: label_of(frame_attrs()),
            },
        )
    }
}

/// What an optional node holds.
pub open spec fn tree_in(r: Option<UiNode>) -> Option<NodeView> {
    match r {
        Some(n) => Some(n@),
        None => None,
    }
}

/// Merges several nodes into one tree.
pub fn merge_nodes(nodes: Vec<UiNode>) -> (r: Option<UiNode>)
    ensures
        tree_in(r) == merged(forest(nodes@)),
{
    let mut nodes = nodes;
    let n: usize = nodes.len();
    if n == 0 {
        return None;
    }
    if n == 1 {
        return nodes.pop();
    }
    let ghost all = forest(nodes@);
    let mut bounds: Rect = nodes[0].bounds;
    for i in 1..n
        invariant
            n == nodes@.len(),
            n >= 2,
            all == forest(nodes@),
            bounds == joined_bounds(all, i as nat),
    {
        assert(all[i as int].bounds == nodes@[i as int].bounds);
        bounds = bounds.union(nodes[i].bounds);
    }
    let mut attrs: Vec<(String, String)> = Vec::new();
    attrs.push((copy_of("class"), copy_of("android.widget.FrameLayout")));
    assert(attrs.deep_view() =~= frame_attrs());
    let label = build_label(attrs.as_slice());
    let root = UiNode { bounds, attrs, children: nodes, label };
    proof {
        children_are_forest(root);
    }
    Some(root)
}

/// A merged tree covers what its parts cover.
pub proof fn merged_covers(nodes: Seq<NodeView>, i: int, p: Pos)
    requires
        0 <= i < nodes.len(),
        nodes[i].bounds.covers(p),
    ensures
        merged(nodes) matches Some(root) && root.bounds.covers(p),
{
    joined_bounds_cover(nodes, nodes.len(), i, p);
}

proof fn joined_bounds_cover(nodes: Seq<NodeView>, n: nat, i: int, p: Pos)
    requires
        0 <= i < n <= nodes.len(),
        nodes[i].bounds.covers(p),
    ensures
        joined_bounds(nodes, n).covers(p),
    decreases n,
{
    if n > 1 && i < n - 1 {
        joined_bounds_cover(nodes, (n - 1) as nat, i, p);
    }
}

// ── Laws ──

/// The value of an attribute is that of the first one of the name, and there is none only where
/// no attribute has the name.
pub proof fn first_attribute_counts(attrs: Seq<(Seq<char>, Seq<char>)>, key: Seq<char>)
    ensures
        match attr_value(attrs, key) {
            Some(v) => exists|i: int|
                {
                    &&& 0 <= i < attrs.len()
                    &&& #[trigger] attrs[i] == (key, v)
                    &&& forall|j: int| 0 <= j < i ==> (#[trigger] attrs[j]).0 != key
                },
            None => forall|j: int| 0 <= j < attrs.len() ==> (#[trigger] attrs[j]).0 != key,
        },
    decreases attrs.len(),
{
    if attrs.len() > 0 {
        if attrs[0].0 == key {
            assert(attrs[0] == (key, attrs[0].1));
        } else {
            let rest = attrs.drop_first();
            first_attribute_counts(rest, key);
            match attr_value(attrs, key) {
                Some(v) => {
                    let i = choose|i: int|
                        {
                            &&& 0 <= i < rest.len()
                            &&& #[trigger] rest[i] == (key, v)
                            &&& forall|j: int| 0 <= j < i ==> (#[trigger] rest[j]).0 != key
                        };
                    assert(attrs[i + 1] == (key, v));
                    assert forall|j: int| 0 <= j < i + 1 implies (#[trigger] attrs[j]).0 != key by {
                        if j > 0 {
                            assert(attrs[j] == rest[j - 1]);
                        }
                    }
                },
                None => {
                    assert forall|j: int| 0 <= j < attrs.len() implies (#[trigger] attrs[j]).0
                        != key by {
                        if j > 0 {
                            assert(attrs[j] == rest[j - 1]);
                        }
                    }
                },
            }
        }
    }
}

/// A value means something exactly where it is neither empty nor the word `null`; any other
/// value is taken as it stands.
pub proof fn placeholders_mean_nothing(attrs: Seq<(Seq<char>, Seq<char>)>, key: Seq<char>)
    ensures
        attr_value(attrs, key) is None ==> attr_meaning(attrs, key) is None,
        attr_value(attrs, key) matches Some(v) ==> attr_meaning(attrs, key) == (if v.len() == 0 || v
            == seq!['n', 'u', 'l', 'l'] {
            None
        } else {
            Some(v)
        }),
{
    reveal_strlit("null");
    assert("null"@ =~= seq!['n', 'u', 'l', 'l']);
}

/// The length of a text in bytes is that of its encoding in UTF-8.
pub proof fn bytes_are_counted_in_utf8(s: Seq<char>)
    ensures
        byte_len(s) == encode_utf8(s).len(),
    decreases s.len(),
{
    if s.len() > 0 {
        let rest = s.drop_first();
        bytes_are_counted_in_utf8(rest);
        byte_len_of_parts(seq![s[0]], rest);
        assert(seq![s[0]] + rest =~= s);
        let one = seq![s[0]];
        assert(one.drop_last() =~= Seq::<char>::empty());
        assert(byte_len(one) == byte_len(one.drop_last()) + char_bytes(s[0]));
        assert(byte_len(one.drop_last()) == 0);
        scalar_width(s[0]);
    }
}

proof fn scalar_width(c: char)
    ensures
        encode_scalar(c as u32).len() == char_bytes(c),
{
}

proof fn byte_len_of_parts(a: Seq<char>, b: Seq<char>)
    ensures
        byte_len(a + b) == byte_len(a) + byte_len(b),
    decreases b.len(),
{
    if b.len() == 0 {
        assert(a + b =~= a);
    } else {
        assert((a + b).drop_last() =~= a + b.drop_last());
        byte_len_of_parts(a, b.drop_last());
    }
}

/// A label tells the class without its package, or `?`, the text in quotes where it means
/// something, and the resource id without its package in brackets where that does: one after
/// the other, each whatever the others are. Beyond 100 bytes it is cut to the most characters
/// that fit in 97 bytes, and an ellipsis follows.
pub proof fn label_tells_class_text_and_id(
    attrs: Seq<(Seq<char>, Seq<char>)>,
    class: Seq<char>,
    text: Seq<char>,
    id: Seq<char>,
)
    requires
        match attr_value(attrs, "class"@) {
            Some(v) => class == after_last(v, '.'),
            None => class == seq!['?'],
        },
        match attr_meaning(attrs, "text"@) {
            Some(t) => text == seq![' ', '"'] + t + seq!['"'],
            None => text.len() == 0,
        },
        match attr_meaning(attrs, "resource-id"@) {
            Some(r) => id == seq![' ', '['] + after_last(r, '/') + seq![']'],
            None => id.len() == 0,
        },
    ensures
        encode_utf8(class + text + id).len() <= 100 ==> label_of(attrs) == class + text + id,
        encode_utf8(class + text + id).len() > 100 ==> exists|k: int|
            {
                &&& 0 <= k < (class + text + id).len()
                &&& label_of(attrs) == #[trigger] (class + text + id).take(k).push('\u{2026}')
                &&& encode_utf8((class + text + id).take(k)).len() <= 97
                &&& encode_utf8((class + text + id).take(k + 1)).len() > 97
            },
{
    reveal_strlit("?");
    reveal_strlit(" \"");
    reveal_strlit("\"");
    reveal_strlit(" [");
    reveal_strlit("]");
    assert("?"@ =~= seq!['?']);
    assert(" \""@ =~= seq![' ', '"']);
    assert("\""@ =~= seq!['"']);
    assert(" ["@ =~= seq![' ', '[']);
    assert("]"@ =~= seq![']']);
    let s = class + text + id;
    assert(attr_meaning(attrs, "text"@) is None ==> text =~= Seq::<char>::empty());
    assert(attr_meaning(attrs, "resource-id"@) is None ==> id =~= Seq::<char>::empty());
    assert(label_of(attrs) == shortened(s));
    bytes_are_counted_in_utf8(s);
    if byte_len(s) > 100 {
        let k = fitting(s, 97, s.len());
        fitting_bound(s, 97, s.len());
        fitting_is_most(s, 97, s.len());
        assert(s.take(s.len() as int) =~= s);
        bytes_are_counted_in_utf8(s.take(k as int));
        bytes_are_counted_in_utf8(s.take(k as int + 1));
        assert(label_of(attrs) == s.take(k as int).push('\u{2026}'));
    }
}

proof fn fitting_is_most(s: Seq<char>, limit: nat, n: nat)
    requires
        n <= s.len(),
    ensures
        fitting(s, limit, n) < n ==> byte_len(s.take(fitting(s, limit, n) as int + 1)) > limit,
    decreases n,
{
    if n > 0 && byte_len(s.take(n as int)) > limit {
        fitting_is_most(s, limit, (n - 1) as nat);
    }
}

/// A label that is not cut ends in the resource id in brackets where that means something,
/// whatever the text is, and holds the quoted text where that does, whatever the id is.
pub proof fn label_ends_in_the_id(attrs: Seq<(Seq<char>, Seq<char>)>)
    requires
        label_of(attrs).len() > 0 ==> label_of(attrs).last() != '\u{2026}',
    ensures
        attr_meaning(attrs, "resource-id"@) matches Some(r) ==> {
            let tail = seq![' ', '['] + after_last(r, '/') + seq![']'];
            tail.len() <= label_of(attrs).len() && label_of(attrs).skip(
                label_of(attrs).len() - tail.len(),
            ) == tail
        },
        attr_meaning(attrs, "text"@) matches Some(t) ==> exists|i: int|
            {
                &&& 0 <= i && i + t.len() + 3 <= label_of(attrs).len()
                &&& #[trigger] label_of(attrs).subrange(i, i + t.len() + 3) == seq![' ', '"'] + t
                    + seq!['"']
            },
{
    let class = match attr_value(attrs, "class"@) {
        Some(v) => after_last(v, '.'),
        None => seq!['?'],
    };
    let text = match attr_meaning(attrs, "text"@) {
        Some(t) => seq![' ', '"'] + t + seq!['"'],
        None => Seq::empty(),
    };
    let id = match attr_meaning(attrs, "resource-id"@) {
        Some(r) => seq![' ', '['] + after_last(r, '/') + seq![']'],
        None => Seq::empty(),
    };
    label_tells_class_text_and_id(attrs, class, text, id);
    let s = class + text + id;
    if encode_utf8(s).len() > 100 {
        let k = choose|k: int|
            0 <= k < s.len() && label_of(attrs) == #[trigger] s.take(k).push('\u{2026}');
        assert(label_of(attrs).last() == '\u{2026}');
    }
    if attr_meaning(attrs, "resource-id"@) is Some {
        assert(s.skip(s.len() - id.len()) =~= id);
    }
    if let Some(t) = attr_meaning(attrs, "text"@) {
        let i = class.len() as int;
        assert(label_of(attrs).subrange(i, i + t.len() + 3) =~= text);
    }
}

/// A path leads to the child with its first number, and on from there.
pub proof fn paths_number_the_children(node: NodeView, k: usize, rest: Seq<usize>)
    ensures
        node_on(node, Seq::empty()) == Some(node),
        node_on(node, seq![k] + rest) == (if k < node.children.len() {
            node_on(node.children[k as int], rest)
        } else {
            None
        }),
{
    assert((seq![k] + rest).drop_first() =~= rest);
}

/// What is found at a point holds it: the point is not left of its bounds, nor right of them,
/// nor above nor below.
pub proof fn found_bounds_hold_the_point(node: NodeView, pos: Pos, m: spec_fn(Rect) -> Coord)
    requires
        addressable(node),
        branch(node, pos, m) is Some,
    ensures
        node_on(node, branch(node, pos, m)->0) matches Some(hit) && {
            &&& hit.bounds.min.x matches Coord::At(left) && pos.x matches Coord::At(x) && (left <= x
                || (left == 0 && x == -1))
            &&& hit.bounds.max.x matches Coord::At(right) && pos.x matches Coord::At(x) && (x
                <= right || (x == 0 && right == -1))
            &&& hit.bounds.min.y matches Coord::At(top) && pos.y matches Coord::At(y) && (top <= y
                || (top == 0 && y == -1))
            &&& hit.bounds.max.y matches Coord::At(bottom) && pos.y matches Coord::At(y) && (y
                <= bottom || (y == 0 && bottom == -1))
        },
{
    found_covers(node, pos, m);
}

/// Where the point lies between the four sides of some node of the tree, one is found, as long
/// as the areas of the innermost nodes there are finite.
pub proof fn points_inside_find_something(
    node: NodeView,
    pos: Pos,
    m: spec_fn(Rect) -> Coord,
    path: Seq<usize>,
    x: i64,
    y: i64,
)
    requires
        addressable(node),
        finite_at(node, pos, m),
        pos == (Pos { x: Coord::At(x), y: Coord::At(y) }),
        node_on(node, path) matches Some(hit) && {
            &&& hit.bounds.min.x matches Coord::At(left) && left <= x
            &&& hit.bounds.max.x matches Coord::At(right) && x <= right
            &&& hit.bounds.min.y matches Coord::At(top) && top <= y
            &&& hit.bounds.max.y matches Coord::At(bottom) && y <= bottom
        },
    ensures
        branch(node, pos, m) is Some,
{
    nothing_is_missed(node, pos, m, path);
}

/// Of two nodes without children at a point, side by side in one node, the smaller one is found
/// whatever its place, and of two as large the first.
pub proof fn smaller_leaf_is_found(
    node: NodeView,
    pos: Pos,
    m: spec_fn(Rect) -> Coord,
    a: i64,
    b: i64,
)
    requires
        node.children.len() == 2,
        node.children[0].children.len() == 0 && node.children[0].bounds.covers(pos),
        node.children[1].children.len() == 0 && node.children[1].bounds.covers(pos),
        m(node.children[0].bounds) == Coord::At(a),
        m(node.children[1].bounds) == Coord::At(b),
        0 <= a <= LARGEST && 0 <= b <= LARGEST,
    ensures
        branch(node, pos, m) == Some(if a <= b {
            seq![0usize]
        } else {
            seq![1usize]
        }),
{
    let first = node.children[0];
    let second = node.children[1];
    assert(best_child(first, pos, m, 0) is None && best_child(second, pos, m, 0) is None);
    assert(branch(first, pos, m) == Some(Seq::<usize>::empty()));
    assert(branch(second, pos, m) == Some(Seq::<usize>::empty()));
    assert(seq![0usize] + Seq::<usize>::empty() =~= seq![0usize]);
    assert(seq![1usize] + Seq::<usize>::empty() =~= seq![1usize]);
    assert(node_on(first, Seq::empty()) == Some(first));
    assert(node_on(second, Seq::empty()) == Some(second));
    assert(best_child(node, pos, m, 0) is None);
    assert(best_child(node, pos, m, 1) == Some((seq![0usize], Coord::At(a))));
}

/// Several roots become the children of a frame, all of them and in their order; each side of
/// its bounds is that of one of them. A single root stays what it is.
pub proof fn several_roots_become_children(nodes: Seq<NodeView>)
    ensures
        nodes.len() == 0 <==> merged(nodes) is None,
        nodes.len() == 1 ==> merged(nodes) == Some(nodes[0]),
        nodes.len() > 1 ==> {
            let root = merged(nodes)->0;
            &&& root.children == nodes
            &&& root.attrs == seq![("class"@, "android.widget.FrameLayout"@)]
            &&& exists|i: int|
                0 <= i < nodes.len() && root.bounds.min.x == (#[trigger] nodes[i]).bounds.min.x
            &&& exists|i: int|
                0 <= i < nodes.len() && root.bounds.min.y == (#[trigger] nodes[i]).bounds.min.y
            &&& exists|i: int|
                0 <= i < nodes.len() && root.bounds.max.x == (#[trigger] nodes[i]).bounds.max.x
            &&& exists|i: int|
                0 <= i < nodes.len() && root.bounds.max.y == (#[trigger] nodes[i]).bounds.max.y
        },
{
    if nodes.len() > 1 {
        sides_come_from_nodes(nodes, nodes.len());
    }
}

proof fn sides_come_from_nodes(nodes: Seq<NodeView>, n: nat)
    requires
        1 <= n <= nodes.len(),
    ensures
        ({
            let b = joined_bounds(nodes, n);
            &&& exists|i: int| 0 <= i < n && b.min.x == (#[trigger] nodes[i]).bounds.min.x
            &&& exists|i: int| 0 <= i < n && b.min.y == (#[trigger] nodes[i]).bounds.min.y
            &&& exists|i: int| 0 <= i < n && b.max.x == (#[trigger] nodes[i]).bounds.max.x
            &&& exists|i: int| 0 <= i < n && b.max.y == (#[trigger] nodes[i]).bounds.max.y
        }),
    decreases n,
{
    if n == 1 {
        assert(joined_bounds(nodes, n) == nodes[0].bounds);
    } else {
        sides_come_from_nodes(nodes, (n - 1) as nat);
        let last = nodes[n - 1];
        assert(joined_bounds(nodes, n) == joined_bounds(nodes, (n - 1) as nat).joined(last.bounds));
    }
}

/// Whoever measures a rectangle twice alike, measures as some function of the rectangle.
pub proof fn steady_areas_have_a_measure<F: Fn(&Rect) -> Coord>(area: F)
    requires
        forall|r: &Rect, a: Coord, b: Coord|
            #![trigger call_ensures(area, (r,), a), call_ensures(area, (r,), b)]
            call_ensures(area, (r,), a) && call_ensures(area, (r,), b) ==> a == b,
    ensures
        exists|m: spec_fn(Rect) -> Coord| #[trigger] measures_as(area, m),
        (forall|r: &Rect| call_requires(area, (r,))) ==> measures_all(area),
{
    let m = |r: Rect| choose|c: Coord| #[trigger] call_ensures(area, (&r,), c);
    assert forall|r: &Rect, c: Coord| #[trigger] call_ensures(area, (r,), c) implies c == m(*r) by {
        let other = m(*r);
        assert(call_ensures(area, (r,), other));
    }
    assert(measures_as(area, m));
}

} // verus!
