//! Pointing in the viewer: hovering, clicking and dragging on the screenshot, selecting in
//! the tree, and the XPath of what is pointed at.

use crate::capture::{CaptureMethod, ShotSource};
use crate::captures::capture_finished;
use crate::files::{display_synced, image_loaded, pair_loaded, tree_loaded};
use crate::geometry::{Coord, Pos, Rect};
use crate::rows::{copy_path, copy_place, prefixes_are_the_starts, render_tree, rows, same_path,
    same_place, tree_rows, with_prefixes, Row, RowView};
use crate::text::chars_in;
use crate::tree::{below, branch, measures_all, measures_as, node_on, path_in, NodeView, UiNode};
use crate::viewer::{App, AppView, APART, MOVED};
use crate::xml::ContentView;
use crate::xpath::{generate_xpath, generated};
use std::path::PathBuf;
use vstd::prelude::*;

verus! {

// ── Distances ──

/// `distance` gives for each two points what `d` says.
pub open spec fn spans_as<D: Fn(&Pos, &Pos) -> Coord>(
    distance: D,
    d: spec_fn(Pos, Pos) -> Coord,
) -> bool {
    forall|a: &Pos, b: &Pos, c: Coord| #[trigger]
        call_ensures(distance, (a, b), c) ==> c == d(*a, *b)
}

/// `distance` takes any two points.
pub open spec fn spans_all<D: Fn(&Pos, &Pos) -> Coord>(distance: D) -> bool {
    forall|a: &Pos, b: &Pos| call_requires(distance, (a, b))
}

/// The distance is at least the number with this sort key.
pub open spec fn at_least(c: Coord, key: i64) -> bool {
    Coord::At(key).le(c)
}

/// The distance is below the number with this sort key.
pub open spec fn is_below(c: Coord, key: i64) -> bool {
    c.lt(Coord::At(key))
}

// ── Hovering ──

/// The pointer has moved far enough to look again what it points at.
pub open spec fn has_moved(v: AppView, pos: Pos, d: spec_fn(Pos, Pos) -> Coord) -> bool {
    match v.last_hover_img_pos {
        Some(last) => at_least(d(pos, last), MOVED),
        None => true,
    }
}

/// The path to what is at a point of the screenshot.
pub open spec fn pointed_at(v: AppView, pos: Pos, m: spec_fn(Rect) -> Coord) -> Option<Seq<usize>> {
    match v.root {
        Some(root) => branch(root, pos, m),
        None => None,
    }
}

/// The state when the pointer is over the screenshot. While something is dragged nothing is
/// looked up.
pub open spec fn hovering(
    v: AppView,
    pos: Pos,
    dragged: bool,
    d: spec_fn(Pos, Pos) -> Coord,
    m: spec_fn(Rect) -> Coord,
) -> AppView {
    if dragged {
        v
    } else {
        AppView {
            hovered_path: if has_moved(v, pos, d) {
                pointed_at(v, pos, m)
            } else {
                v.hovered_path
            },
            last_hover_img_pos: Some(pos),
            ..v
        }
    }
}

// ── Clicking ──

/// A click is at the spot of the one before.
pub open spec fn is_same_spot(v: AppView, pos: Pos, d: spec_fn(Pos, Pos) -> Coord) -> bool {
    match v.click_pos {
        Some(last) => is_below(d(pos, last), APART),
        None => false,
    }
}

/// The state after a click on the screenshot. It selects what is pointed at; a click at the
/// same spot selects the parent of what is selected, up to the level below the root.
pub open spec fn clicked(
    v: AppView,
    pos: Pos,
    rgb: Option<(u8, u8, u8)>,
    d: spec_fn(Pos, Pos) -> Coord,
) -> AppView {
    let noted = AppView { click_pos: Some(pos), click_rgb: rgb, ..v };
    if is_same_spot(v, pos, d) {
        match v.selected_path {
            Some(cur) if cur.len() > 1 => AppView {
                selected_path: Some(cur.drop_last()),
                hovered_path: Some(cur.drop_last()),
                scroll_to_target: Some(cur.drop_last()),
                ..noted
            },
            _ => noted,
        }
    } else {
        AppView {
            selected_path: v.hovered_path,
            scroll_to_target: v.hovered_path,
            ..noted
        }
    }
}

// ── Dragging ──

/// The end of a drag that started at `start`.
pub open spec fn drag_end(v: AppView, start: Pos) -> Pos {
    match v.last_hover_img_pos {
        Some(p) => p,
        None => start,
    }
}

/// A drag is a swipe if it is long enough and there is a device to send it to.
pub open spec fn is_swipe(v: AppView, start: Pos, d: spec_fn(Pos, Pos) -> Coord) -> bool {
    at_least(d(drag_end(v, start), start), APART) && v.selected_device is Some
}

/// A swipe that is to be sent.
#[derive(Debug)]
pub struct Swipe {
    pub serial: String,
    pub display_id: u32,
    pub start: Pos,
    pub end: Pos,
}

/// A swipe that is to be sent, with its text as characters.
pub struct SwipeView {
    pub serial: Seq<char>,
    pub display_id: u32,
    pub start: Pos,
    pub end: Pos,
}

impl View for Swipe {
    type V = SwipeView;

    open spec fn view(&self) -> SwipeView {
        SwipeView {
            serial: self.serial@,
            display_id: self.display_id,
            start: self.start,
            end: self.end,
        }
    }
}

/// The swipe in an option.
pub open spec fn swipe_in(r: Option<Swipe>) -> Option<SwipeView> {
    match r {
        Some(s) => Some(s@),
        None => None,
    }
}

/// What the end of a drag leads to. A capture follows a swipe once the device settled; the
/// wait starts anew when the swipe was sent.
pub open spec fn drag_stopped(v: AppView, now: u64, d: spec_fn(Pos, Pos) -> Coord) -> (
    AppView,
    Option<SwipeView>,
) {
    match v.drag_start_img {
        None => (v, None),
        Some(start) => {
            let dropped = AppView { drag_start_img: None, ..v };
            if is_swipe(v, start, d) {
                (
                    AppView { tap_settle_start: Some(now), ..dropped }.says(
                        "Refreshing..."@,
                        false,
                    ),
                    Some(
                        SwipeView {
                            serial: v.selected_device->0,
                            display_id: v.display_id,
                            start,
                            end: drag_end(v, start),
                        },
                    ),
                )
            } else {
                (dropped, None)
            }
        },
    }
}

impl App {
    /// Takes in that the pointer is over the screenshot.
    pub fn hover<D: Fn(&Pos, &Pos) -> Coord, A: Fn(&Rect) -> Coord>(
        &mut self,
        pos: Pos,
        dragged: bool,
        distance: &D,
        area: &A,
    )
        requires
            spans_all(*distance),
            measures_all(*area),
        ensures
            forall|d: spec_fn(Pos, Pos) -> Coord, m: spec_fn(Rect) -> Coord| #[trigger]
                spans_as(*distance, d) && #[trigger] measures_as(*area, m) ==> final(self)@
                    == hovering(old(self)@, pos, dragged, d, m),
    {
        if dragged {
            return;
        }
        let moved = match &self.last_hover_img_pos {
            Some(last) => {
                let c = distance(&pos, last);
                Coord::At(MOVED).at_most(c)
            },
            None => true,
        };
        if moved {
            let found = match &self.root_node {
                Some(root) => {
                    let mut start: Vec<usize> = Vec::new();
                    let found = root.find_branch(pos, &mut start, area);
                    proof {
                        assert forall|m: spec_fn(Rect) -> Coord| #[trigger]
                            measures_as(*area, m) implies path_in(found) == branch(
                            root@,
                            pos,
                            m,
                        ) by {
                            if let Some(p) = branch(root@, pos, m) {
                                assert(Seq::<usize>::empty() + p =~= p);
                            }
                        }
                    }
                    found
                },
                None => None,
            };
            self.hovered_path = found;
        }
        self.last_hover_img_pos = Some(pos);
    }

    /// Takes in that the pointer has left the screenshot.
    pub fn leave(&mut self, dragged: bool)
        ensures
            final(self)@ == (if dragged {
                old(self)@
            } else {
                AppView { hovered_path: None, last_hover_img_pos: None, ..old(self)@ }
            }),
    {
        if !dragged {
            self.hovered_path = None;
            self.last_hover_img_pos = None;
        }
    }

    /// Takes in a click on the screenshot, and the color of the pixel there.
    pub fn click<D: Fn(&Pos, &Pos) -> Coord>(
        &mut self,
        pos: Pos,
        rgb: Option<(u8, u8, u8)>,
        distance: &D,
    )
        requires
            spans_all(*distance),
        ensures
            forall|d: spec_fn(Pos, Pos) -> Coord| #[trigger]
                spans_as(*distance, d) ==> final(self)@ == clicked(old(self)@, pos, rgb, d),
    {
        let same_spot = match &self.click_pos {
            Some(last) => {
                let c = distance(&pos, last);
                c.below(Coord::At(APART))
            },
            None => false,
        };
        if same_spot {
            let parent = match &self.selected_path {
                Some(cur) => {
                    let n: usize = cur.len();
                    if n > 1 {
                        let up = vstd::slice::slice_subrange(cur.as_slice(), 0, n - 1);
                        assert(up@ =~= cur@.drop_last());
                        Some(copy_path(up))
                    } else {
                        None
                    }
                },
                None => None,
            };
            if let Some(up) = parent {
                self.hovered_path = Some(copy_path(up.as_slice()));
                self.scroll_to_target = Some(copy_path(up.as_slice()));
                self.selected_path = Some(up);
            }
        } else {
            self.selected_path = copy_place(&self.hovered_path);
            self.scroll_to_target = copy_place(&self.hovered_path);
        }
        self.click_pos = Some(pos);
        self.click_rgb = rgb;
    }

    /// Takes in a double click on the screenshot: a tap to send, if there is a device.
    pub fn double_click(&mut self, pos: Pos)
        ensures
            final(self)@ == (if old(self)@.selected_device is Some {
                AppView { pending_tap: Some(pos), ..old(self)@ }
            } else {
                old(self)@
            }),
    {
        if self.selected_device.is_some() {
            self.pending_tap = Some(pos);
        }
    }

    /// Takes in the start of a drag.
    pub fn start_drag(&mut self, pos: Pos)
        ensures
            final(self)@ == (AppView { drag_start_img: Some(pos), ..old(self)@ }),
    {
        self.drag_start_img = Some(pos);
    }

    /// Takes in that a drag goes on.
    pub fn drag(&mut self, pos: Pos)
        ensures
            final(self)@ == (AppView { last_hover_img_pos: Some(pos), ..old(self)@ }),
    {
        self.last_hover_img_pos = Some(pos);
    }

    /// Takes in the end of a drag. The answer is the swipe to send, if it is one; that it was
    /// sent is told to `gesture_sent`.
    pub fn stop_drag<D: Fn(&Pos, &Pos) -> Coord>(&mut self, now: u64, distance: &D) -> (r: Option<
        Swipe,
    >)
        requires
            spans_all(*distance),
        ensures
            forall|d: spec_fn(Pos, Pos) -> Coord| #[trigger]
                spans_as(*distance, d) ==> (final(self)@, swipe_in(r)) == drag_stopped(
                    old(self)@,
                    now,
                    d,
                ),
    {
        let start = match self.drag_start_img.take() {
            Some(p) => p,
            None => {
                return None;
            },
        };
        let end = match self.last_hover_img_pos {
            Some(p) => p,
            None => start,
        };
        let length = distance(&end, &start);
        if !Coord::At(APART).at_most(length) {
            return None;
        }
        let serial = match &self.selected_device {
            Some(s) => s.clone(),
            None => {
                return None;
            },
        };
        self.tap_settle_start = Some(now);
        self.say("Refreshing...", false);
        Some(Swipe { serial, display_id: self.display_id, start, end })
    }
}

/// Clicking at the same spot walks from what is selected towards the root, one level at a
/// time, and stops below it.
pub proof fn clicks_climb(
    v: AppView,
    pos: Pos,
    rgb: Option<(u8, u8, u8)>,
    d: spec_fn(Pos, Pos) -> Coord,
)
    requires
        is_same_spot(v, pos, d),
        v.selected_path is Some,
    ensures
        ({
            let cur = v.selected_path->0;
            let w = clicked(v, pos, rgb, d);
            w.selected_path == Some(
                if cur.len() > 1 {
                    cur.drop_last()
                } else {
                    cur
                },
            )
        }),
{
}

/// A click elsewhere selects what is pointed at, and the tree view is to show it.
pub proof fn click_selects(
    v: AppView,
    pos: Pos,
    rgb: Option<(u8, u8, u8)>,
    d: spec_fn(Pos, Pos) -> Coord,
    m: spec_fn(Rect) -> Coord,
)
    requires
        has_moved(v, pos, d),
        !is_same_spot(v, pos, d),
    ensures
        ({
            let w = clicked(hovering(v, pos, false, d, m), pos, rgb, d);
            w.selected_path == pointed_at(v, pos, m) && w.scroll_to_target == w.selected_path
        }),
{
}

// ── The tree view ──

/// The state once what is newly selected is unfolded in the tree view.
pub open spec fn selection_synced(v: AppView) -> AppView {
    match v.selected_path {
        Some(path) => if v.selected_path != v.last_selected {
            AppView {
                last_selected: v.selected_path,
                expanded: with_prefixes(v.expanded, path),
                ..v
            }
        } else {
            v
        },
        None => v,
    }
}

impl App {
    /// Unfolds the tree view down to what is newly selected.
    pub fn sync_selection(&mut self)
        ensures
            final(self)@ == selection_synced(old(self)@),
    {
        let changed = !same_place(&self.selected_path, &self.last_selected);
        if !changed {
            return;
        }
        let place = copy_place(&self.selected_path);
        if let Some(path) = place {
            self.expanded.insert_prefixes(path.as_slice());
            self.last_selected = Some(path);
        }
    }

    /// Selects a row of the tree view. It is not unfolded by that.
    pub fn select_row(&mut self, path: Vec<usize>)
        ensures
            final(self)@ == (AppView {
                selected_path: Some(path@),
                last_selected: Some(path@),
                ..old(self)@
            }),
    {
        self.last_selected = Some(copy_path(path.as_slice()));
        self.selected_path = Some(path);
    }

    /// Folds or unfolds a row of the tree view.
    pub fn toggle_row(&mut self, path: &[usize])
        ensures
            final(self)@ == (AppView {
                expanded: if old(self)@.expanded.contains(path@) {
                    old(self)@.expanded.remove(path@)
                } else {
                    old(self)@.expanded.insert(path@)
                },
                ..old(self)@
            }),
    {
        self.expanded.toggle(path);
    }

    /// Lists the rows of the tree view.
    pub fn visible_rows(&self) -> (r: Vec<Row>)
        ensures
            rows(r@) == (match self@.root {
                Some(root) => tree_rows(
                    root,
                    Seq::empty(),
                    self@.expanded,
                    self@.selected_path,
                    self@.hovered_path,
                ),
                None => Seq::empty(),
            }),
    {
        match &self.root_node {
            Some(root) => {
                let top: Vec<usize> = Vec::new();
                assert(top@ =~= Seq::<usize>::empty());
                render_tree(
                    root,
                    top.as_slice(),
                    &self.expanded,
                    &self.selected_path,
                    &self.hovered_path,
                )
            },
            None => {
                let none: Vec<Row> = Vec::new();
                assert(rows(none@) =~= Seq::<RowView>::empty());
                none
            },
        }
    }

    /// Takes the path that the tree view is to scroll to.
    pub fn take_scroll_target(&mut self) -> (r: Option<Vec<usize>>)
        ensures
            path_in(r) == old(self)@.scroll_to_target,
            final(self)@ == (AppView { scroll_to_target: None, ..old(self)@ }),
    {
        self.scroll_to_target.take()
    }

    /// Whether what is selected is outlined on the screenshot: not if it is hovered as well.
    pub fn selection_outlined(&self) -> (r: bool)
        ensures
            r == (self@.selected_path is Some && self@.selected_path != self@.hovered_path),
    {
        self.selected_path.is_some() && !same_place(&self.selected_path, &self.hovered_path)
    }
}

/// Once the selection is taken over into the tree view, every start of the selected path is
/// unfolded, so that its row is shown.
pub proof fn selection_is_unfolded(v: AppView)
    requires
        v.selected_path != v.last_selected,
        v.selected_path is Some,
    ensures
        ({
            let path = v.selected_path->0;
            let w = selection_synced(v);
            &&& forall|k: int| 0 <= k <= path.len() ==> w.expanded.contains(#[trigger] path.take(k))
            &&& forall|q: Seq<usize>| v.expanded.contains(q) ==> w.expanded.contains(q)
            &&& w.selected_path == v.selected_path && w.last_selected == w.selected_path
        }),
{
}

// ── XPath ──

/// The path of what is displayed: what is hovered, or else what is selected.
pub open spec fn displayed_path(v: AppView) -> Option<Seq<usize>> {
    match v.hovered_path {
        Some(p) => Some(p),
        None => v.selected_path,
    }
}

/// The XPath of the node on a path, if there is a node and an XPath for it.
pub open spec fn xpath_at(root: Option<NodeView>, path: Seq<usize>) -> Option<Seq<char>> {
    match root {
        Some(r) => match node_on(r, path) {
            Some(n) => generated(n, r),
            None => None,
        },
        None => None,
    }
}

/// What the cache holds is true of the tree that it was found for, and it was found for no
/// later tree than the one that is shown.
pub open spec fn coherent(v: AppView) -> bool {
    v.xpath_cache matches Some((revision, path, xpath)) ==> revision <= v.tree_revision && (revision
        == v.tree_revision ==> xpath == xpath_at(v.root, path))
}

/// What the cache holds for a path of the tree that is shown.
pub open spec fn cached(v: AppView, path: Seq<usize>) -> Option<Option<Seq<char>>> {
    match v.xpath_cache {
        Some((revision, p, xpath)) => if revision == v.tree_revision && p == path {
            Some(xpath)
        } else {
            None
        },
        None => None,
    }
}

/// The XPath to show, and the state once it is found. What is in the cache is not looked for
/// again.
pub open spec fn xpath_shown(v: AppView) -> (AppView, Option<Seq<char>>) {
    match displayed_path(v) {
        None => (v, None),
        Some(path) => match cached(v, path) {
            Some(xpath) => (v, xpath),
            None => {
                let xpath = xpath_at(v.root, path);
                (AppView { xpath_cache: Some((v.tree_revision, path, xpath)), ..v }, xpath)
            },
        },
    }
}

impl App {
    /// The path of what is displayed.
    pub fn displayed(&self) -> (r: Option<Vec<usize>>)
        ensures
            path_in(r) == displayed_path(self@),
    {
        match &self.hovered_path {
            Some(p) => Some(copy_path(p.as_slice())),
            None => copy_place(&self.selected_path),
        }
    }

    /// The node that is displayed.
    pub fn displayed_node(&self) -> (r: Option<&UiNode>)
        ensures
            match (displayed_path(self@), self@.root) {
                (Some(path), Some(root)) => match node_on(root, path) {
                    Some(n) => r matches Some(found) && found@ == n,
                    None => r is None,
                },
                _ => r is None,
            },
    {
        match (self.displayed(), &self.root_node) {
            (Some(path), Some(root)) => root.node_at(path.as_slice()),
            _ => None,
        }
    }

    fn find_xpath(&self, path: &[usize]) -> (r: Option<String>)
        ensures
            chars_in(r) == xpath_at(self@.root, path@),
    {
        match &self.root_node {
            Some(root) => match root.node_at(path) {
                Some(node) => generate_xpath(node, root),
                None => None,
            },
            None => None,
        }
    }

    /// The XPath of what is displayed. It is the right one for the tree that is shown as long
    /// as the cache is.
    pub fn displayed_xpath(&mut self) -> (r: Option<String>)
        ensures
            (final(self)@, chars_in(r)) == xpath_shown(old(self)@),
            coherent(old(self)@) ==> coherent(final(self)@) && chars_in(r) == (
            match displayed_path(old(self)@) {
                Some(path) => xpath_at(old(self)@.root, path),
                None => None,
            }),
    {
        let path = match self.displayed() {
            Some(p) => p,
            None => {
                return None;
            },
        };
        if let Some((revision, known, xpath)) = &self.xpath_cache {
            if *revision == self.tree_revision && same_path(known.as_slice(), path.as_slice()) {
                return xpath.clone();
            }
        }
        let xpath = self.find_xpath(path.as_slice());
        let shown = xpath.clone();
        self.xpath_cache = Some((self.tree_revision, path, xpath));
        shown
    }

    /// Whether to invite the user to select what is hovered.
    pub fn invites_click(&self) -> (r: bool)
        ensures
            r == (self@.hovered_path is Some && self@.hovered_path != self@.selected_path),
    {
        self.hovered_path.is_some() && !same_place(&self.hovered_path, &self.selected_path)
    }
}

/// The cache stays right as long as each change of the tree counts up the revision.
pub proof fn cache_stays_coherent(v: AppView, w: AppView)
    requires
        coherent(v),
        w.xpath_cache == v.xpath_cache,
        w.tree_revision > v.tree_revision || (w.tree_revision == v.tree_revision && w.root
            == v.root),
    ensures
        coherent(w),
{
}

/// The cache is right when the program starts, and every way to show another tree keeps it
/// right: loading a pair, a screenshot or a hierarchy, and changing the display.
pub proof fn loading_keeps_cache(
    v: AppView,
    image_ok: bool,
    c: Option<ContentView>,
    png: PathBuf,
    xml: PathBuf,
    dir: Option<PathBuf>,
    g: spec_fn(Seq<char>) -> Option<Coord>,
)
    requires
        coherent(v),
        v.tree_revision < u64::MAX,
    ensures
        coherent(AppView::initial()),
        coherent(pair_loaded(v, image_ok, c, png, xml, dir).state),
        coherent(image_loaded(v, image_ok, png).state),
        coherent(tree_loaded(v, c, xml).state),
        coherent(display_synced(v, g)),
{
}

/// A capture that is shown keeps the cache right.
pub proof fn capturing_keeps_cache(
    v: AppView,
    image_ok: bool,
    c: Option<ContentView>,
    method: CaptureMethod,
    png: PathBuf,
    xml: PathBuf,
    dir: Option<PathBuf>,
    source: ShotSource,
    dump: Option<Seq<u8>>,
    now: u64,
)
    requires
        coherent(v),
        v.tree_revision < u64::MAX,
    ensures
        coherent(
            capture_finished(
                v,
                pair_loaded(v, image_ok, c, png, xml, dir),
                method,
                png,
                xml,
                source,
                dump,
                now,
            ).0,
        ),
{
}

// ── Laws of pointing ──

/// While nothing is dragged the pointer's place is noted each time. What it points at is looked
/// up again only when it has moved by five pixels or more, or for the first time. Nothing else
/// changes, and nothing at all while something is dragged.
pub proof fn hovering_follows_the_pointer(
    v: AppView,
    pos: Pos,
    dragged: bool,
    d: spec_fn(Pos, Pos) -> Coord,
    m: spec_fn(Rect) -> Coord,
)
    ensures
        ({
            let w = hovering(v, pos, dragged, d, m);
            let found = match v.root {
                Some(root) => branch(root, pos, m),
                None => None,
            };
            &&& dragged ==> w == v
            &&& !dragged ==> w.last_hover_img_pos == Some(pos)
            &&& w == (AppView {
                hovered_path: w.hovered_path,
                last_hover_img_pos: w.last_hover_img_pos,
                ..v
            })
            &&& !dragged && v.last_hover_img_pos is None ==> w.hovered_path == found
            &&& !dragged && (v.last_hover_img_pos matches Some(last) && (d(pos, last)
                matches Coord::At(k) && k >= 0x40a0_0000)) ==> w.hovered_path == found
            &&& !dragged && (v.last_hover_img_pos matches Some(last) && !(d(pos, last)
                matches Coord::At(k) && k >= 0x40a0_0000)) ==> w.hovered_path == v.hovered_path
        }),
{
}

/// A click closer than ten pixels to the one before selects the parent of what is selected, but
/// not the root; any other click selects what is hovered. The place and the color are noted, and
/// nothing else changes.
pub proof fn clicks_select_or_climb(
    v: AppView,
    pos: Pos,
    rgb: Option<(u8, u8, u8)>,
    d: spec_fn(Pos, Pos) -> Coord,
)
    ensures
        ({
            let w = clicked(v, pos, rgb, d);
            let close = v.click_pos matches Some(last) && (d(pos, last) matches Coord::At(k) && k
                < 0x4120_0000);
            &&& w.click_pos == Some(pos) && w.click_rgb == rgb
            &&& w == (AppView {
                selected_path: w.selected_path,
                hovered_path: w.hovered_path,
                scroll_to_target: w.scroll_to_target,
                click_pos: w.click_pos,
                click_rgb: w.click_rgb,
                ..v
            })
            &&& !close ==> w.selected_path == v.hovered_path && w.hovered_path == v.hovered_path
                && w.scroll_to_target == v.hovered_path
            &&& close && (v.selected_path matches Some(p) && p.len() > 1) ==> {
                let up = v.selected_path->0.take(v.selected_path->0.len() - 1);
                w.selected_path == Some(up) && w.hovered_path == Some(up) && w.scroll_to_target
                    == Some(up)
            }
            &&& close && !(v.selected_path matches Some(p) && p.len() > 1) ==> w.selected_path
                == v.selected_path && w.hovered_path == v.hovered_path && w.scroll_to_target
                == v.scroll_to_target
        }),
{
    if let Some(p) = v.selected_path {
        if p.len() > 1 {
            assert(p.drop_last() =~= p.take(p.len() - 1));
        }
    }
}

/// A drag of ten pixels or more is a swipe of the selected device, from where it started to
/// where the pointer was last, on the display to capture; a shorter one, or one without a
/// device, is none. Either way the drag is over.
pub proof fn long_drags_are_swipes(v: AppView, now: u64, d: spec_fn(Pos, Pos) -> Coord)
    ensures
        ({
            let (w, swipe) = drag_stopped(v, now, d);
            let start = v.drag_start_img->0;
            let end = match v.last_hover_img_pos {
                Some(p) => p,
                None => start,
            };
            let is_long = v.drag_start_img is Some && (d(end, start) matches Coord::At(k) && k
                >= 0x4120_0000);
            &&& swipe is Some <==> is_long && v.selected_device is Some
            &&& swipe matches Some(s) ==> s.serial == v.selected_device->0 && s.display_id
                == v.display_id && s.start == start && s.end == end
            &&& w.drag_start_img is None
            &&& swipe is Some ==> w.tap_settle_start == Some(now) && w.status_message == Some(
                "Refreshing..."@,
            ) && !w.status_is_error
            &&& swipe is None ==> w == (AppView { drag_start_img: None, ..v })
            &&& w == (AppView {
                drag_start_img: None,
                tap_settle_start: w.tap_settle_start,
                status_message: w.status_message,
                status_is_error: w.status_is_error,
                ..v
            })
        }),
{
}

/// What is displayed is what is hovered, and without that what is selected. Its XPath is that of
/// the node on its path in the whole page.
pub proof fn hovered_comes_before_selected(v: AppView, path: Seq<usize>)
    ensures
        v.hovered_path is Some ==> displayed_path(v) == v.hovered_path,
        v.hovered_path is None ==> displayed_path(v) == v.selected_path,
        v.root is None ==> xpath_at(v.root, path) is None,
        v.root matches Some(root) ==> xpath_at(v.root, path) == (match node_on(root, path) {
            Some(node) => generated(node, root),
            None => None,
        }),
{
}

/// What the cache holds is shown only for the very path and tree that it was found for, and what
/// was found is kept with them.
pub proof fn cache_is_for_one_path_and_tree(v: AppView)
    ensures
        ({
            let (w, xpath) = xpath_shown(v);
            &&& displayed_path(v) is None ==> w == v && xpath is None
            &&& displayed_path(v) matches Some(path) ==> {
                &&& v.xpath_cache != Some((v.tree_revision, path, xpath)) ==> xpath == xpath_at(
                    v.root,
                    path,
                )
                &&& w.xpath_cache == Some((v.tree_revision, path, xpath))
            }
            &&& w == (AppView { xpath_cache: w.xpath_cache, ..v })
        }),
{
}

/// A new selection is unfolded and remembered. Where the selection is the one before, or there
/// is none, nothing changes.
pub proof fn old_selection_changes_nothing(v: AppView)
    ensures
        ({
            let w = selection_synced(v);
            &&& v.selected_path is None || v.selected_path == v.last_selected ==> w == v
            &&& w == (AppView { last_selected: w.last_selected, expanded: w.expanded, ..v })
            &&& v.selected_path is Some && v.selected_path != v.last_selected ==> forall|
                q: Seq<usize>,
            |
                #![trigger w.expanded.contains(q)]
                w.expanded.contains(q) <==> v.expanded.contains(q) || q.is_prefix_of(
                    v.selected_path->0,
                )
        }),
{
    let w = selection_synced(v);
    if v.selected_path is Some && v.selected_path != v.last_selected {
        let p = v.selected_path->0;
        assert forall|q: Seq<usize>|
            #![trigger w.expanded.contains(q)]
            w.expanded.contains(q) <==> v.expanded.contains(q) || q.is_prefix_of(p) by {
            prefixes_are_the_starts(v.expanded, p, q);
        }
    }
}

/// Whoever measures the distance of two points twice alike, measures as some function of them.
pub proof fn steady_distances_have_a_measure<D: Fn(&Pos, &Pos) -> Coord>(distance: D)
    requires
        forall|a: &Pos, b: &Pos, c: Coord, e: Coord|
            #![trigger call_ensures(distance, (a, b), c), call_ensures(distance, (a, b), e)]
            call_ensures(distance, (a, b), c) && call_ensures(distance, (a, b), e) ==> c == e,
    ensures
        exists|d: spec_fn(Pos, Pos) -> Coord| #[trigger] spans_as(distance, d),
        (forall|a: &Pos, b: &Pos| call_requires(distance, (a, b))) ==> spans_all(distance),
{
    let d = |a: Pos, b: Pos| choose|c: Coord| #[trigger] call_ensures(distance, (&a, &b), c);
    assert forall|a: &Pos, b: &Pos, c: Coord| #[trigger]
        call_ensures(distance, (a, b), c) implies c == d(*a, *b) by {
        let other = d(*a, *b);
        assert(call_ensures(distance, (a, b), other));
    }
    assert(spans_as(distance, d));
}

} // verus!
