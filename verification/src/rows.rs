//! The tree view: which nodes are unfolded, and the rows that it shows.

use crate::geometry::{Pos, Rect};
use crate::tree::{addressable, children_are_forest, forest, node_on, node_on_append, path_in,
    precedes, NodeView, UiNode};
use vstd::prelude::*;

verus! {

// ── Paths ──

/// Paths through a tree as sequences.
pub open spec fn paths(list: Seq<Vec<usize>>) -> Seq<Seq<usize>> {
    Seq::new(list.len(), |i: int| list[i]@)
}

/// Whether two paths are the same.
pub fn same_path(a: &[usize], b: &[usize]) -> (r: bool)
    ensures
        r == (a@ == b@),
{
    let n: usize = a.len();
    if n != b.len() {
        return false;
    }
    for i in 0..n
        invariant
            n == a@.len(),
            n == b@.len(),
            forall|j: int| 0 <= j < i ==> a@[j] == b@[j],
    {
        if a[i] != b[i] {
            return false;
        }
    }
    assert(a@ =~= b@);
    true
}

/// Whether two optional paths are the same.
pub fn same_place(a: &Option<Vec<usize>>, b: &Option<Vec<usize>>) -> (r: bool)
    ensures
        r == (path_in(*a) == path_in(*b)),
{
    match (a, b) {
        (Some(p), Some(q)) => same_path(p.as_slice(), q.as_slice()),
        (None, None) => true,
        _ => false,
    }
}

/// Copies a path.
pub fn copy_path(p: &[usize]) -> (r: Vec<usize>)
    ensures
        r@ == p@,
{
    vstd::slice::slice_to_vec(p)
}

/// Copies an optional path.
pub fn copy_place(p: &Option<Vec<usize>>) -> (r: Option<Vec<usize>>)
    ensures
        path_in(r) == path_in(*p),
{
    match p {
        Some(q) => Some(copy_path(q.as_slice())),
        None => None,
    }
}

/// A set of paths.
#[derive(Debug)]
pub struct PathSet {
    list: Vec<Vec<usize>>,
}

impl View for PathSet {
    type V = Set<Seq<usize>>;

    closed spec fn view(&self) -> Set<Seq<usize>> {
        paths(self.list@).to_set()
    }
}

impl PathSet {
    /// No path is listed twice.
    #[verifier::type_invariant]
    spec fn listed_once(self) -> bool {
        paths(self.list@).no_duplicates()
    }

    /// The empty set.
    pub fn new() -> (r: PathSet)
        ensures
            r@ == Set::<Seq<usize>>::empty(),
    {
        let r = PathSet { list: Vec::new() };
        assert(r@ =~= Set::<Seq<usize>>::empty());
        r
    }

    fn find(&self, p: &[usize]) -> (r: Option<usize>)
        ensures
            match r {
                Some(i) => i < self.list@.len() && self.list@[i as int]@ == p@ && self@.contains(p@),
                None => !self@.contains(p@),
            },
    {
        let n: usize = self.list.len();
        for i in 0..n
            invariant
                n == self.list@.len(),
                forall|j: int| 0 <= j < i ==> self.list@[j]@ != p@,
        {
            if same_path(self.list[i].as_slice(), p) {
                assert(paths(self.list@)[i as int] == p@);
                return Some(i);
            }
        }
        None
    }

    /// Whether a path is in the set.
    pub fn contains(&self, p: &[usize]) -> (r: bool)
        ensures
            r == self@.contains(p@),
    {
        self.find(p).is_some()
    }

    /// Adds a path.
    pub fn insert(&mut self, p: &[usize])
        ensures
            final(self)@ == old(self)@.insert(p@),
    {
        proof {
            use_type_invariant(&*self);
        }
        if self.find(p).is_some() {
            assert(self@.insert(p@) =~= self@);
            return;
        }
        let ghost before = paths(self.list@);
        let mut list: Vec<Vec<usize>> = Vec::new();
        std::mem::swap(&mut list, &mut self.list);
        list.push(copy_path(p));
        proof {
            let after = paths(list@);
            assert(after =~= before.push(p@));
            assert(!before.contains(p@));
            assert forall|i: int, j: int| 0 <= i < j < after.len() implies after[i] != after[j] by {
                assert(before.contains(before[i]));
            }
            assert forall|q: Seq<usize>| after.contains(q) <==> before.contains(q) || q == p@ by {
                if before.contains(q) {
                    let k = choose|k: int| 0 <= k < before.len() && before[k] == q;
                    assert(after[k] == q);
                }
                assert(after[before.len() as int] == p@);
            }
        }
        self.list = list;
        assert(self@ =~= old(self)@.insert(p@));
    }

    /// Takes a path out.
    pub fn remove(&mut self, p: &[usize])
        ensures
            final(self)@ == old(self)@.remove(p@),
    {
        proof {
            use_type_invariant(&*self);
        }
        match self.find(p) {
            None => {
                assert(self@.remove(p@) =~= self@);
            },
            Some(k) => {
                let ghost before = paths(self.list@);
                let mut list: Vec<Vec<usize>> = Vec::new();
                std::mem::swap(&mut list, &mut self.list);
                let gone = list.remove(k);
                proof {
                    let after = paths(list@);
                    assert(after =~= before.remove(k as int));
                    assert forall|i: int, j: int| 0 <= i < j < after.len() implies after[i]
                        != after[j] by {
                        let a = if i < k {
                            i
                        } else {
                            i + 1
                        };
                        let b = if j < k {
                            j
                        } else {
                            j + 1
                        };
                        assert(after[i] == before[a] && after[j] == before[b]);
                    }
                    assert forall|q: Seq<usize>|
                        after.contains(q) <==> before.contains(q) && q != p@ by {
                        if after.contains(q) {
                            let i = choose|i: int| 0 <= i < after.len() && after[i] == q;
                            let a = if i < k {
                                i
                            } else {
                                i + 1
                            };
                            assert(before[a] == q && a != k);
                            assert(before[k as int] == p@);
                        }
                        if before.contains(q) && q != p@ {
                            let i = choose|i: int| 0 <= i < before.len() && before[i] == q;
                            if i < k {
                                assert(after[i] == q);
                            } else {
                                assert(after[i - 1] == q);
                            }
                        }
                    }
                }
                self.list = list;
                assert(self@ =~= old(self)@.remove(p@));
            },
        }
    }

    /// Empties the set.
    pub fn clear(&mut self)
        ensures
            final(self)@ == Set::<Seq<usize>>::empty(),
    {
        let list: Vec<Vec<usize>> = Vec::new();
        self.list = list;
        assert(self@ =~= Set::<Seq<usize>>::empty());
    }

    /// Folds an unfolded path, or unfolds a folded one.
    pub fn toggle(&mut self, p: &[usize])
        ensures
            final(self)@ == (if old(self)@.contains(p@) {
                old(self)@.remove(p@)
            } else {
                old(self)@.insert(p@)
            }),
    {
        if self.contains(p) {
            self.remove(p);
        } else {
            self.insert(p);
        }
    }

    /// Adds every start of a path, from the root to the path itself.
    pub fn insert_prefixes(&mut self, p: &[usize])
        ensures
            final(self)@ == with_prefixes(old(self)@, p@),
    {
        let n: usize = p.len();
        let mut i: usize = 0;
        let ghost start = self@;
        proof {
            assert(with_shorter(start, p@, 0) =~= start);
        }
        while i <= n
            invariant
                n == p@.len(),
                i <= n + 1,
                start == old(self)@,
                self@ == with_shorter(start, p@, i as int),
            decreases n + 1 - i,
        {
            let prefix = vstd::slice::slice_subrange(p, 0, i);
            assert(prefix@ =~= p@.take(i as int));
            self.insert(prefix);
            proof {
                assert(self@ =~= with_shorter(start, p@, i + 1)) by {
                    assert forall|q: Seq<usize>|
                        with_shorter(start, p@, i as int).insert(p@.take(i as int)).contains(q)
                            <==> with_shorter(start, p@, i + 1).contains(q) by {
                        if with_shorter(start, p@, i + 1).contains(q) && !start.contains(q) {
                            let k = choose|k: int| 0 <= k < i + 1 && q == #[trigger] p@.take(k);
                            if k < i {
                                assert(q == p@.take(k));
                            }
                        }
                        assert(p@.take(i as int) == p@.take(i as int));
                    }
                }
            }
            if i == n {
                assert(with_prefixes(start, p@) =~= with_shorter(start, p@, n + 1));
                return;
            }
            i += 1;
        }
    }
}

/// A set with the starts of a path that are shorter than `n`.
pub open spec fn with_shorter(s: Set<Seq<usize>>, p: Seq<usize>, n: int) -> Set<Seq<usize>> {
    Set::new(
        |q: Seq<usize>| s.contains(q) || exists|k: int| 0 <= k < n && q == #[trigger] p.take(k),
    )
}

/// A set with every start of a path.
pub open spec fn with_prefixes(s: Set<Seq<usize>>, p: Seq<usize>) -> Set<Seq<usize>> {
    with_shorter(s, p, p.len() as int + 1)
}

// ── Rows ──

/// The mark before a row.
#[derive(Clone, Copy, Debug, PartialEq, Eq, Structural)]
pub enum Marker {
    /// The node has no children.
    Leaf,
    Folded,
    Unfolded,
}

/// How a row stands out.
#[derive(Clone, Copy, Debug, PartialEq, Eq, Structural)]
pub enum Tone {
    Plain,
    Selected,
    Hovered,
}

/// A row of the tree view. Its indentation is the length of its path.
#[derive(Debug)]
pub struct Row {
    pub path: Vec<usize>,
    pub marker: Marker,
    pub tone: Tone,
    pub label: String,
}

/// A row with its path and text as sequences.
#[verifier::ext_equal]
pub struct RowView {
    pub path: Seq<usize>,
    pub marker: Marker,
    pub tone: Tone,
    pub label: Seq<char>,
}

impl View for Row {
    type V = RowView;

    open spec fn view(&self) -> RowView {
        RowView { path: self.path@, marker: self.marker, tone: self.tone, label: self.label@ }
    }
}

/// Rows as views.
pub open spec fn rows(list: Seq<Row>) -> Seq<RowView> {
    Seq::new(list.len(), |i: int| list[i]@)
}

/// The mark of a node.
pub open spec fn marker_of(node: NodeView, unfolded: bool) -> Marker {
    if node.children.len() == 0 {
        Marker::Leaf
    } else if unfolded {
        Marker::Unfolded
    } else {
        Marker::Folded
    }
}

/// How the row of a path stands out. Being selected comes before being hovered.
pub open spec fn tone_of(
    path: Seq<usize>,
    selected: Option<Seq<usize>>,
    hovered: Option<Seq<usize>>,
) -> Tone {
    if selected == Some(path) {
        Tone::Selected
    } else if hovered == Some(path) {
        Tone::Hovered
    } else {
        Tone::Plain
    }
}

/// The row of a node.
pub open spec fn row_of(
    node: NodeView,
    path: Seq<usize>,
    expanded: Set<Seq<usize>>,
    selected: Option<Seq<usize>>,
    hovered: Option<Seq<usize>>,
) -> RowView {
    RowView {
        path,
        marker: marker_of(node, expanded.contains(path)),
        tone: tone_of(path, selected, hovered),
        label: node.label,
    }
}

/// The rows of a node: its own, and those of its children if it is unfolded.
pub open spec fn tree_rows(
    node: NodeView,
    path: Seq<usize>,
    expanded: Set<Seq<usize>>,
    selected: Option<Seq<usize>>,
    hovered: Option<Seq<usize>>,
) -> Seq<RowView>
    decreases node, node.children.len() + 1,
{
    seq![row_of(node, path, expanded, selected, hovered)] + (if expanded.contains(path) {
        child_rows(node, path, expanded, selected, hovered, node.children.len())
    } else {
        Seq::empty()
    })
}

/// The rows of the first `n` children of a node.
pub open spec fn child_rows(
    node: NodeView,
    path: Seq<usize>,
    expanded: Set<Seq<usize>>,
    selected: Option<Seq<usize>>,
    hovered: Option<Seq<usize>>,
    n: nat,
) -> Seq<RowView>
    decreases node, n,
{
    if n == 0 || n > node.children.len() {
        Seq::empty()
    } else {
        child_rows(node, path, expanded, selected, hovered, (n - 1) as nat) + tree_rows(
            node.children[n - 1],
            path.push((n - 1) as usize),
            expanded,
            selected,
            hovered,
        )
    }
}

/// Whether a path is the one in the option.
fn is_place(place: &Option<Vec<usize>>, path: &[usize]) -> (r: bool)
    ensures
        r == (path_in(*place) == Some(path@)),
{
    match place {
        Some(p) => same_path(p.as_slice(), path),
        None => false,
    }
}

/// Lists the rows of a node that stands at `path`.
pub fn render_tree(
    node: &UiNode,
    path: &[usize],
    expanded: &PathSet,
    selected: &Option<Vec<usize>>,
    hovered: &Option<Vec<usize>>,
) -> (r: Vec<Row>)
    ensures
        rows(r@) == tree_rows(node@, path@, expanded@, path_in(*selected), path_in(*hovered)),
    decreases node,
{
    let unfolded = expanded.contains(path);
    let n: usize = node.children.len();
    proof {
        children_are_forest(*node);
    }
    let marker = if n == 0 {
        Marker::Leaf
    } else if unfolded {
        Marker::Unfolded
    } else {
        Marker::Folded
    };
    let tone = if is_place(selected, path) {
        Tone::Selected
    } else if is_place(hovered, path) {
        Tone::Hovered
    } else {
        Tone::Plain
    };
    let row = Row { path: copy_path(path), marker, tone, label: node.label.clone() };
    let ghost own = row_of(node@, path@, expanded@, path_in(*selected), path_in(*hovered));
    assert(row@ =~= own);
    let mut list: Vec<Row> = Vec::new();
    list.push(row);
    assert(rows(list@) =~= seq![own]);
    if !unfolded {
        assert(rows(list@) =~= seq![own] + Seq::<RowView>::empty());
        return list;
    }
    assert(rows(list@) =~= seq![own] + child_rows(
        node@,
        path@,
        expanded@,
        path_in(*selected),
        path_in(*hovered),
        0,
    ));
    for i in 0..n
        invariant
            n == node.children@.len(),
            node@.children == forest(node.children@),
            rows(list@) == seq![own] + child_rows(
                node@,
                path@,
                expanded@,
                path_in(*selected),
                path_in(*hovered),
                i as nat,
            ),
    {
        let mut child_path = copy_path(path);
        child_path.push(i);
        assert(child_path@ =~= path@.push(i));
        let ghost before = rows(list@);
        let ghost upto = child_rows(
            node@,
            path@,
            expanded@,
            path_in(*selected),
            path_in(*hovered),
            i as nat,
        );
        let mut below = render_tree(
            &node.children[i],
            child_path.as_slice(),
            expanded,
            selected,
            hovered,
        );
        assert(node@.children[i as int] == node.children@[i as int]@);
        let ghost more = rows(below@);
        let ghost head = list@;
        let ghost tail = below@;
        list.append(&mut below);
        assert(list@ =~= head + tail);
        assert(rows(list@) =~= before + more);
        assert(seq![own] + upto + more =~= seq![own] + (upto + more));
    }
    list
}

/// The first of the rows at a point of the visible part of the view.
pub open spec fn row_hit(places: Seq<(Seq<usize>, Rect)>, pos: Pos, i: int) -> Option<Seq<usize>>
    decreases places.len() - i,
{
    if i >= places.len() {
        None
    } else if places[i].1.covers(pos) {
        Some(places[i].0)
    } else {
        row_hit(places, pos, i + 1)
    }
}

/// Paths and where their rows are, as views.
pub open spec fn row_places(list: Seq<(Vec<usize>, Rect)>) -> Seq<(Seq<usize>, Rect)> {
    Seq::new(list.len(), |i: int| (list[i].0@, list[i].1))
}

/// Finds the row at a point. Rows that are scrolled out of the visible part are not hit.
pub fn row_at(list: &Vec<(Vec<usize>, Rect)>, visible: Rect, pos: Pos) -> (r: Option<Vec<usize>>)
    ensures
        path_in(r) == (if visible.covers(pos) {
            row_hit(row_places(list@), pos, 0)
        } else {
            None
        }),
{
    if !visible.contains(pos) {
        return None;
    }
    let n: usize = list.len();
    let ghost places = row_places(list@);
    for i in 0..n
        invariant
            n == list@.len(),
            places == row_places(list@),
            visible.covers(pos),
            row_hit(places, pos, 0) == row_hit(places, pos, i as int),
    {
        assert(places[i as int] == (list@[i as int].0@, list@[i as int].1));
        if list[i].1.contains(pos) {
            return Some(copy_path(list[i].0.as_slice()));
        }
    }
    None
}

/// The number of the first row with the given path.
pub open spec fn row_number(places: Seq<(Seq<usize>, Rect)>, path: Seq<usize>, i: int) -> Option<int>
    decreases places.len() - i,
{
    if i >= places.len() {
        None
    } else if places[i].0 == path {
        Some(i)
    } else {
        row_number(places, path, i + 1)
    }
}

/// Finds the row with the given path.
pub fn row_of_path(list: &Vec<(Vec<usize>, Rect)>, path: &[usize]) -> (r: Option<usize>)
    ensures
        match r {
            Some(i) => row_number(row_places(list@), path@, 0) == Some(i as int) && i < list@.len(),
            None => row_number(row_places(list@), path@, 0) is None,
        },
{
    let n: usize = list.len();
    let ghost places = row_places(list@);
    for i in 0..n
        invariant
            n == list@.len(),
            places == row_places(list@),
            row_number(places, path@, 0) == row_number(places, path@, i as int),
    {
        assert(places[i as int] == (list@[i as int].0@, list@[i as int].1));
        if same_path(list[i].0.as_slice(), path) {
            return Some(i);
        }
    }
    None
}

// ── Laws ──

/// The path of a row leads to a node with the row's label, and every shorter start of it is
/// unfolded.
pub proof fn row_is_reachable(
    root: NodeView,
    node: NodeView,
    path: Seq<usize>,
    expanded: Set<Seq<usize>>,
    selected: Option<Seq<usize>>,
    hovered: Option<Seq<usize>>,
    i: int,
)
    requires
        addressable(node),
        node_on(root, path) == Some(node),
        forall|k: int| 0 <= k < path.len() ==> expanded.contains(#[trigger] path.take(k)),
        0 <= i < tree_rows(node, path, expanded, selected, hovered).len(),
    ensures
        ({
            let row = tree_rows(node, path, expanded, selected, hovered)[i];
            &&& node_on(root, row.path) matches Some(hit) && hit.label == row.label
            &&& forall|k: int|
                0 <= k < row.path.len() ==> expanded.contains(#[trigger] row.path.take(k))
        }),
    decreases node, node.children.len() + 1,
{
    if i > 0 {
        let below = child_rows(node, path, expanded, selected, hovered, node.children.len());
        assert(tree_rows(node, path, expanded, selected, hovered)[i] == below[i - 1]);
        child_row_is_reachable(
            root,
            node,
            path,
            expanded,
            selected,
            hovered,
            node.children.len(),
            i - 1,
        );
    }
}

proof fn child_row_is_reachable(
    root: NodeView,
    node: NodeView,
    path: Seq<usize>,
    expanded: Set<Seq<usize>>,
    selected: Option<Seq<usize>>,
    hovered: Option<Seq<usize>>,
    n: nat,
    i: int,
)
    requires
        addressable(node),
        node_on(root, path) == Some(node),
        expanded.contains(path),
        forall|k: int| 0 <= k < path.len() ==> expanded.contains(#[trigger] path.take(k)),
        n <= node.children.len(),
        0 <= i < child_rows(node, path, expanded, selected, hovered, n).len(),
    ensures
        ({
            let row = child_rows(node, path, expanded, selected, hovered, n)[i];
            &&& node_on(root, row.path) matches Some(hit) && hit.label == row.label
            &&& forall|k: int|
                0 <= k < row.path.len() ==> expanded.contains(#[trigger] row.path.take(k))
        }),
    decreases node, n,
{
    let before = child_rows(node, path, expanded, selected, hovered, (n - 1) as nat);
    if i < before.len() {
        assert(child_rows(node, path, expanded, selected, hovered, n)[i] == before[i]);
        child_row_is_reachable(
            root,
            node,
            path,
            expanded,
            selected,
            hovered,
            (n - 1) as nat,
            i,
        );
    } else {
        let child = node.children[n - 1];
        let deeper = path.push((n - 1) as usize);
        assert(addressable(child));
        node_on_append(root, path, seq![(n - 1) as usize]);
        assert(path + seq![(n - 1) as usize] =~= deeper);
        assert(seq![(n - 1) as usize].drop_first() =~= Seq::<usize>::empty());
        assert(node_on(node, seq![(n - 1) as usize]) == node_on(child, Seq::<usize>::empty()));
        assert(node_on(root, deeper) == Some(child));
        assert forall|k: int| 0 <= k < deeper.len() implies expanded.contains(
            #[trigger] deeper.take(k),
        ) by {
            if k < path.len() {
                assert(deeper.take(k) =~= path.take(k));
            } else {
                assert(deeper.take(k) =~= path);
            }
        }
        assert(child_rows(node, path, expanded, selected, hovered, n)[i] == tree_rows(
            child,
            deeper,
            expanded,
            selected,
            hovered,
        )[i - before.len()]);
        row_is_reachable(root, child, deeper, expanded, selected, hovered, i - before.len());
    }
}

/// Once every start of a node's path is unfolded, the node has a row.
pub proof fn unfolded_node_has_row(
    node: NodeView,
    base: Seq<usize>,
    path: Seq<usize>,
    expanded: Set<Seq<usize>>,
    selected: Option<Seq<usize>>,
    hovered: Option<Seq<usize>>,
)
    requires
        node_on(node, path) is Some,
        forall|k: int| 0 <= k < path.len() ==> expanded.contains(base + #[trigger] path.take(k)),
    ensures
        exists|i: int|
            0 <= i < tree_rows(node, base, expanded, selected, hovered).len() && (
            #[trigger] tree_rows(node, base, expanded, selected, hovered)[i]).path == base + path,
    decreases path.len(),
{
    let all = tree_rows(node, base, expanded, selected, hovered);
    if path.len() == 0 {
        assert(base + path =~= base);
        assert(all[0].path == base + path);
    } else {
        assert(base + path.take(0) =~= base);
        let c = path[0] as nat;
        let child = node.children[c as int];
        let deeper = base.push(path[0]);
        let rest = path.drop_first();
        assert forall|k: int| 0 <= k < rest.len() implies expanded.contains(
            deeper + #[trigger] rest.take(k),
        ) by {
            assert(deeper + rest.take(k) =~= base + path.take(k + 1));
        }
        unfolded_node_has_row(child, deeper, rest, expanded, selected, hovered);
        let found = tree_rows(child, deeper, expanded, selected, hovered);
        let i = choose|i: int| 0 <= i < found.len() && (#[trigger] found[i]).path == deeper + rest;
        assert(deeper + rest =~= base + path);
        let j = child_row_place(
            node,
            base,
            expanded,
            selected,
            hovered,
            c,
            node.children.len(),
            i,
        );
        assert(all[j + 1].path == base + path);
    }
}

proof fn child_row_place(
    node: NodeView,
    path: Seq<usize>,
    expanded: Set<Seq<usize>>,
    selected: Option<Seq<usize>>,
    hovered: Option<Seq<usize>>,
    c: nat,
    n: nat,
    i: int,
) -> (j: int)
    requires
        c < n <= node.children.len(),
        0 <= i < tree_rows(
            node.children[c as int],
            path.push(c as usize),
            expanded,
            selected,
            hovered,
        ).len(),
    ensures
        0 <= j < child_rows(node, path, expanded, selected, hovered, n).len(),
        child_rows(node, path, expanded, selected, hovered, n)[j] == tree_rows(
            node.children[c as int],
            path.push(c as usize),
            expanded,
            selected,
            hovered,
        )[i],
    decreases n,
{
    let before = child_rows(node, path, expanded, selected, hovered, (n - 1) as nat);
    if c == n - 1 {
        before.len() + i
    } else {
        let j = child_row_place(
            node,
            path,
            expanded,
            selected,
            hovered,
            c,
            (n - 1) as nat,
            i,
        );
        assert(child_rows(node, path, expanded, selected, hovered, n)[j] == before[j]);
        j
    }
}

/// A row shows its node: no mark where the node has no children, and else one that tells
/// whether it is unfolded. It stands out as selected where its path is the selected one, as
/// hovered where it is only the hovered one, and else not at all. Its text is the node's label.
pub proof fn row_tells_its_node(
    root: NodeView,
    node: NodeView,
    path: Seq<usize>,
    expanded: Set<Seq<usize>>,
    selected: Option<Seq<usize>>,
    hovered: Option<Seq<usize>>,
    i: int,
)
    requires
        addressable(node),
        node_on(root, path) == Some(node),
        0 <= i < tree_rows(node, path, expanded, selected, hovered).len(),
    ensures
        ({
            let row = tree_rows(node, path, expanded, selected, hovered)[i];
            &&& node_on(root, row.path) is Some
            &&& row.label == node_on(root, row.path)->0.label
            &&& row.marker == Marker::Leaf <==> node_on(root, row.path)->0.children.len() == 0
            &&& row.marker == Marker::Unfolded <==> node_on(root, row.path)->0.children.len() > 0
                && expanded.contains(row.path)
            &&& row.tone == Tone::Selected <==> selected == Some(row.path)
            &&& row.tone == Tone::Hovered <==> selected != Some(row.path) && hovered == Some(
                row.path,
            )
        }),
    decreases node, node.children.len() + 1,
{
    if i > 0 {
        let below = child_rows(node, path, expanded, selected, hovered, node.children.len());
        assert(tree_rows(node, path, expanded, selected, hovered)[i] == below[i - 1]);
        child_row_tells_its_node(
            root,
            node,
            path,
            expanded,
            selected,
            hovered,
            node.children.len(),
            i - 1,
        );
    }
}

proof fn child_row_tells_its_node(
    root: NodeView,
    node: NodeView,
    path: Seq<usize>,
    expanded: Set<Seq<usize>>,
    selected: Option<Seq<usize>>,
    hovered: Option<Seq<usize>>,
    n: nat,
    i: int,
)
    requires
        addressable(node),
        node_on(root, path) == Some(node),
        n <= node.children.len(),
        0 <= i < child_rows(node, path, expanded, selected, hovered, n).len(),
    ensures
        ({
            let row = child_rows(node, path, expanded, selected, hovered, n)[i];
            &&& node_on(root, row.path) is Some
            &&& row.label == node_on(root, row.path)->0.label
            &&& row.marker == Marker::Leaf <==> node_on(root, row.path)->0.children.len() == 0
            &&& row.marker == Marker::Unfolded <==> node_on(root, row.path)->0.children.len() > 0
                && expanded.contains(row.path)
            &&& row.tone == Tone::Selected <==> selected == Some(row.path)
            &&& row.tone == Tone::Hovered <==> selected != Some(row.path) && hovered == Some(
                row.path,
            )
        }),
    decreases node, n,
{
    let before = child_rows(node, path, expanded, selected, hovered, (n - 1) as nat);
    if i < before.len() {
        assert(child_rows(node, path, expanded, selected, hovered, n)[i] == before[i]);
        child_row_tells_its_node(
            root,
            node,
            path,
            expanded,
            selected,
            hovered,
            (n - 1) as nat,
            i,
        );
    } else {
        let child = node.children[n - 1];
        let k = (n - 1) as usize;
        let deeper = path.push(k);
        assert(addressable(child));
        node_on_append(root, path, seq![k]);
        assert(path + seq![k] =~= deeper);
        assert(seq![k].drop_first() =~= Seq::<usize>::empty());
        assert(node_on(node, seq![k]) == node_on(child, Seq::<usize>::empty()));
        assert(child_rows(node, path, expanded, selected, hovered, n)[i] == tree_rows(
            child,
            deeper,
            expanded,
            selected,
            hovered,
        )[i - before.len()]);
        row_tells_its_node(root, child, deeper, expanded, selected, hovered, i - before.len());
    }
}

proof fn base_precedes(base: Seq<usize>, a: Seq<usize>, b: Seq<usize>)
    requires
        precedes(a, b),
    ensures
        precedes(base + a, base + b),
    decreases base.len(),
{
    if base.len() == 0 {
        assert(base + a =~= a && base + b =~= b);
    } else {
        base_precedes(base.drop_first(), a, b);
        assert((base + a).drop_first() =~= base.drop_first() + a);
        assert((base + b).drop_first() =~= base.drop_first() + b);
    }
}

proof fn row_goes_on(
    node: NodeView,
    path: Seq<usize>,
    expanded: Set<Seq<usize>>,
    selected: Option<Seq<usize>>,
    hovered: Option<Seq<usize>>,
    i: int,
) -> (rest: Seq<usize>)
    requires
        addressable(node),
        0 <= i < tree_rows(node, path, expanded, selected, hovered).len(),
    ensures
        tree_rows(node, path, expanded, selected, hovered)[i].path == path + rest,
        i == 0 <==> rest.len() == 0,
    decreases node, node.children.len() + 1,
{
    if i == 0 {
        assert(path + Seq::<usize>::empty() =~= path);
        Seq::empty()
    } else {
        let below = child_rows(node, path, expanded, selected, hovered, node.children.len());
        assert(tree_rows(node, path, expanded, selected, hovered)[i] == below[i - 1]);
        child_row_goes_on(
            node,
            path,
            expanded,
            selected,
            hovered,
            node.children.len(),
            i - 1,
        )
    }
}

proof fn child_row_goes_on(
    node: NodeView,
    path: Seq<usize>,
    expanded: Set<Seq<usize>>,
    selected: Option<Seq<usize>>,
    hovered: Option<Seq<usize>>,
    n: nat,
    i: int,
) -> (rest: Seq<usize>)
    requires
        addressable(node),
        n <= node.children.len(),
        0 <= i < child_rows(node, path, expanded, selected, hovered, n).len(),
    ensures
        child_rows(node, path, expanded, selected, hovered, n)[i].path == path + rest,
        rest.len() > 0 && rest[0] < n,
    decreases node, n,
{
    let before = child_rows(node, path, expanded, selected, hovered, (n - 1) as nat);
    if i < before.len() {
        assert(child_rows(node, path, expanded, selected, hovered, n)[i] == before[i]);
        child_row_goes_on(node, path, expanded, selected, hovered, (n - 1) as nat, i)
    } else {
        let child = node.children[n - 1];
        let k = (n - 1) as usize;
        assert(addressable(child));
        assert(child_rows(node, path, expanded, selected, hovered, n)[i] == tree_rows(
            child,
            path.push(k),
            expanded,
            selected,
            hovered,
        )[i - before.len()]);
        let tail = row_goes_on(
            child,
            path.push(k),
            expanded,
            selected,
            hovered,
            i - before.len(),
        );
        assert(path.push(k) + tail =~= path + (seq![k] + tail));
        seq![k] + tail
    }
}

/// The rows stand in the order of the document: a node before what is below it, and what is
/// below an earlier child before what is below a later one. So no node has two rows.
pub proof fn rows_are_in_document_order(
    node: NodeView,
    path: Seq<usize>,
    expanded: Set<Seq<usize>>,
    selected: Option<Seq<usize>>,
    hovered: Option<Seq<usize>>,
    i: int,
    j: int,
)
    requires
        addressable(node),
        0 <= i < j < tree_rows(node, path, expanded, selected, hovered).len(),
    ensures
        precedes(
            tree_rows(node, path, expanded, selected, hovered)[i].path,
            tree_rows(node, path, expanded, selected, hovered)[j].path,
        ),
    decreases node, node.children.len() + 1,
{
    let all = tree_rows(node, path, expanded, selected, hovered);
    let below = child_rows(node, path, expanded, selected, hovered, node.children.len());
    assert(all[j] == below[j - 1]);
    if i == 0 {
        let rest = row_goes_on(node, path, expanded, selected, hovered, j);
        assert(path + Seq::<usize>::empty() =~= path);
        base_precedes(path, Seq::empty(), rest);
    } else {
        assert(all[i] == below[i - 1]);
        child_rows_in_order(
            node,
            path,
            expanded,
            selected,
            hovered,
            node.children.len(),
            i - 1,
            j - 1,
        );
    }
}

proof fn child_rows_in_order(
    node: NodeView,
    path: Seq<usize>,
    expanded: Set<Seq<usize>>,
    selected: Option<Seq<usize>>,
    hovered: Option<Seq<usize>>,
    n: nat,
    i: int,
    j: int,
)
    requires
        addressable(node),
        n <= node.children.len(),
        0 <= i < j < child_rows(node, path, expanded, selected, hovered, n).len(),
    ensures
        precedes(
            child_rows(node, path, expanded, selected, hovered, n)[i].path,
            child_rows(node, path, expanded, selected, hovered, n)[j].path,
        ),
    decreases node, n,
{
    let all = child_rows(node, path, expanded, selected, hovered, n);
    let before = child_rows(node, path, expanded, selected, hovered, (n - 1) as nat);
    let child = node.children[n - 1];
    let k = (n - 1) as usize;
    let last = tree_rows(child, path.push(k), expanded, selected, hovered);
    assert(addressable(child));
    if j < before.len() {
        assert(all[i] == before[i] && all[j] == before[j]);
        child_rows_in_order(
            node,
            path,
            expanded,
            selected,
            hovered,
            (n - 1) as nat,
            i,
            j,
        );
    } else if i >= before.len() {
        assert(all[i] == last[i - before.len()] && all[j] == last[j - before.len()]);
        rows_are_in_document_order(
            child,
            path.push(k),
            expanded,
            selected,
            hovered,
            i - before.len(),
            j - before.len(),
        );
    } else {
        assert(all[i] == before[i] && all[j] == last[j - before.len()]);
        let a = child_row_goes_on(
            node,
            path,
            expanded,
            selected,
            hovered,
            (n - 1) as nat,
            i,
        );
        let tail = row_goes_on(
            child,
            path.push(k),
            expanded,
            selected,
            hovered,
            j - before.len(),
        );
        let b = seq![k] + tail;
        assert(path.push(k) + tail =~= path + b);
        base_precedes(path, a, b);
    }
}

/// The row at a point is the first one that holds it, and no row only where none does.
pub proof fn first_row_is_hit(places: Seq<(Seq<usize>, Rect)>, pos: Pos, i: int)
    requires
        0 <= i,
    ensures
        match row_hit(places, pos, i) {
            Some(path) => exists|k: int|
                {
                    &&& i <= k < places.len()
                    &&& (#[trigger] places[k]).0 == path && places[k].1.covers(pos)
                    &&& forall|j: int| i <= j < k ==> !(#[trigger] places[j]).1.covers(pos)
                },
            None => forall|j: int|
                i <= j < places.len() ==> !(#[trigger] places[j]).1.covers(pos),
        },
    decreases places.len() - i,
{
    if i < places.len() {
        if places[i].1.covers(pos) {
            assert(places[i].0 == row_hit(places, pos, i)->0);
        } else {
            first_row_is_hit(places, pos, i + 1);
            if let Some(path) = row_hit(places, pos, i) {
                let k = choose|k: int|
                    {
                        &&& i + 1 <= k < places.len()
                        &&& (#[trigger] places[k]).0 == path && places[k].1.covers(pos)
                        &&& forall|j: int| i + 1 <= j < k ==> !(#[trigger] places[j]).1.covers(pos)
                    };
                assert(places[k].0 == path);
            }
        }
    }
}

/// The number of a path's row is that of the first row with the path.
pub proof fn first_row_of_a_path(places: Seq<(Seq<usize>, Rect)>, path: Seq<usize>, i: int)
    requires
        0 <= i,
    ensures
        match row_number(places, path, i) {
            Some(k) => i <= k < places.len() && places[k].0 == path && forall|j: int|
                i <= j < k ==> (#[trigger] places[j]).0 != path,
            None => forall|j: int| i <= j < places.len() ==> (#[trigger] places[j]).0 != path,
        },
    decreases places.len() - i,
{
    if i < places.len() && places[i].0 != path {
        first_row_of_a_path(places, path, i + 1);
    }
}

/// A set with the starts of a path holds what it held, every start of the path, the empty one
/// and the path itself included, and nothing else.
pub proof fn prefixes_are_the_starts(s: Set<Seq<usize>>, p: Seq<usize>, q: Seq<usize>)
    ensures
        with_prefixes(s, p).contains(q) <==> s.contains(q) || q.is_prefix_of(p),
{
    if q.is_prefix_of(p) {
        assert(q =~= p.take(q.len() as int));
    }
    if with_prefixes(s, p).contains(q) && !s.contains(q) {
        let k = choose|k: int| 0 <= k < p.len() + 1 && q == #[trigger] p.take(k);
        assert(p.take(k).is_prefix_of(p));
    }
}

} // verus!
