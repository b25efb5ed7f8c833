//! Files in the viewer: loading a screenshot and a hierarchy, saving them, and exporting an
//! icon.

use crate::geometry::{reads_all, reads_as, Coord, Pos, Rect};
use crate::icon::{export_icon_name, icon_name};
use crate::platform::xml_document;
use crate::text::{chars_of, copy_of, string_of, text_in, trim, trimmed};
use crate::tree::{node_on, tree_in, NodeView, UiNode};
use crate::viewer::{add_file, one_file, App, AppView};
use crate::xml::{content_of, content_with, parse_content, parse_windows_xml, text_tree,
    windows_tree, Content, ContentView, XmlNodeView};
use std::path::PathBuf;
use vstd::prelude::*;

verus! {

// ── The log ──

/// The size at which the log starts over, in bytes.
pub const LOG_MAX_BYTES: u64 = 10_485_760;

/// Whether a log of this size starts over before the next line, so that it never grows
/// without bound.
pub fn log_is_full(size: u64) -> (r: bool)
    ensures
        r == (size >= LOG_MAX_BYTES),
{
    size >= LOG_MAX_BYTES
}

// ── Companions ──

/// The extensions of a hierarchy that belongs to a screenshot, in the order in which they are
/// tried.
pub fn hierarchy_extensions() -> (r: Vec<&'static str>)
    ensures
        r.deep_view() == seq!["xml"@, "uix"@],
{
    let list: Vec<&'static str> = vec!["xml", "uix"];
    assert(list.deep_view() =~= seq!["xml"@, "uix"@]);
    list
}

/// The extensions of a screenshot that belongs to a hierarchy, in the order in which they are
/// tried.
pub fn image_extensions() -> (r: Vec<&'static str>)
    ensures
        r.deep_view() == seq!["png"@, "jpg"@, "jpeg"@],
{
    let list: Vec<&'static str> = vec!["png", "jpg", "jpeg"];
    assert(list.deep_view() =~= seq!["png"@, "jpg"@, "jpeg"@]);
    list
}

/// The first of the candidates that exists.
pub open spec fn first_existing(exists: Seq<bool>, i: int) -> Option<int>
    decreases exists.len() - i,
{
    if i >= exists.len() {
        None
    } else if exists[i] {
        Some(i)
    } else {
        first_existing(exists, i + 1)
    }
}

/// Picks the first of the candidates that exists.
pub fn pick_existing(exists: &Vec<bool>) -> (r: Option<usize>)
    ensures
        match r {
            Some(i) => first_existing(exists@, 0) == Some(i as int) && i < exists@.len(),
            None => first_existing(exists@, 0) is None,
        },
{
    let n: usize = exists.len();
    for i in 0..n
        invariant
            n == exists@.len(),
            first_existing(exists@, 0) == first_existing(exists@, i as int),
    {
        if exists[i] {
            return Some(i);
        }
    }
    None
}

// ── Loading ──

impl AppView {
    /// With the tree of a text, if it has one.
    pub open spec fn with_tree(self, c: ContentView, xml: PathBuf) -> AppView {
        AppView {
            file_displays: c.displays,
            file_xml_content: c.content,
            tree_display_id: c.tree_display_id,
            parsed_tree_display_id: c.parsed_tree_display_id,
            root: c.root,
            xml_path: Some(xml),
            temp_xml: None,
            tree_revision: (self.tree_revision + 1) as u64,
            ..self
        }
    }

    /// With a screenshot.
    pub open spec fn with_screenshot(self, png: PathBuf) -> AppView {
        AppView { screenshot_path: Some(png), temp_screenshot: None, ..self }
    }

    /// With the directory that files are looked for in.
    pub open spec fn in_dir(self, dir: Option<PathBuf>) -> AppView {
        AppView { screenshot_dir: dir, xml_dir: dir, ..self }
    }

    /// With a screenshot and the tree that belongs to it.
    pub open spec fn with_pair(
        self,
        c: ContentView,
        png: PathBuf,
        xml: PathBuf,
        dir: Option<PathBuf>,
    ) -> AppView {
        self.with_screenshot(png).with_tree(c, xml).in_dir(dir)
    }
}

/// What an attempt to load did: whether it succeeded, the files that are no longer needed,
/// and the state it led to.
pub struct LoadView {
    pub ok: bool,
    pub removed: Seq<PathBuf>,
    pub state: AppView,
}

impl LoadView {
    /// Nothing was loaded.
    pub open spec fn failed(v: AppView) -> LoadView {
        LoadView { ok: false, removed: Seq::empty(), state: v }
    }

    /// The same attempt with the directory noted, whether it succeeded or not.
    pub open spec fn in_dir(self, dir: Option<PathBuf>) -> LoadView {
        LoadView { state: self.state.in_dir(dir), ..self }
    }
}

/// Loading a pair: all of it or nothing.
pub open spec fn pair_loaded(
    v: AppView,
    image_ok: bool,
    c: Option<ContentView>,
    png: PathBuf,
    xml: PathBuf,
    dir: Option<PathBuf>,
) -> LoadView {
    match c {
        Some(content) => if image_ok && content.root is Some {
            LoadView {
                ok: true,
                removed: one_file(v.temp_screenshot) + one_file(v.temp_xml),
                state: v.with_pair(content, png, xml, dir),
            }
        } else {
            LoadView::failed(v)
        },
        None => LoadView::failed(v),
    }
}

/// Loading a screenshot alone.
pub open spec fn image_loaded(v: AppView, image_ok: bool, png: PathBuf) -> LoadView {
    if image_ok {
        LoadView {
            ok: true,
            removed: one_file(v.temp_screenshot),
            state: v.with_screenshot(png),
        }
    } else {
        LoadView::failed(v)
    }
}

/// Loading a hierarchy alone.
pub open spec fn tree_loaded(v: AppView, c: Option<ContentView>, xml: PathBuf) -> LoadView {
    match c {
        Some(content) => if content.root is Some {
            LoadView { ok: true, removed: one_file(v.temp_xml), state: v.with_tree(content, xml) }
        } else {
            LoadView::failed(v)
        },
        None => LoadView::failed(v),
    }
}

/// What a text comes to, if it could be read.
pub open spec fn content_in(
    text: Option<Seq<char>>,
    current: u32,
    g: spec_fn(Seq<char>) -> Option<Coord>,
) -> Option<ContentView> {
    match text {
        Some(t) => Some(content_of(xml_document(t), t, current, g)),
        None => None,
    }
}

/// What a text comes to, if it could be read, where `root` is its tree.
pub open spec fn content_shown(
    text: Option<Seq<char>>,
    current: u32,
    root: Option<NodeView>,
) -> Option<ContentView> {
    match text {
        Some(t) => Some(content_with(xml_document(t), t, current, root)),
        None => None,
    }
}

/// A text was read, and it is an XML document.
pub open spec fn is_document(text: Option<Seq<char>>) -> bool {
    text matches Some(t) && xml_document(t) is Some
}

/// The tree that is shown after an attempt to load one, none where it failed.
pub open spec fn loaded_root(ok: bool, v: AppView) -> Option<NodeView> {
    if ok {
        v.root
    } else {
        None
    }
}

/// What was made of a text.
pub open spec fn view_of(c: Option<Content>) -> Option<ContentView> {
    match c {
        Some(content) => Some(content@),
        None => None,
    }
}

impl App {
    /// Reads a dump for the display that is to be shown.
    pub fn parse_xml_content<F: Fn(&str) -> Option<Coord>>(
        content: &str,
        current_tree_display_id: u32,
        read: &F,
    ) -> (r: Content)
        requires
            reads_all(*read),
        ensures
            r@ == content_with(
                xml_document(content@),
                content@,
                current_tree_display_id,
                r@.root,
            ),
            xml_document(content@) is None ==> r@.root is None,
            forall|g: spec_fn(Seq<char>) -> Option<Coord>| #[trigger]
                reads_as(*read, g) ==> r@ == content_of(
                    xml_document(content@),
                    content@,
                    current_tree_display_id,
                    g,
                ),
    {
        parse_content(content, current_tree_display_id, read)
    }

    fn show_screenshot(&mut self, png: PathBuf) -> (r: Option<PathBuf>)
        ensures
            r == old(self)@.temp_screenshot,
            final(self)@ == old(self)@.with_screenshot(png),
    {
        let old_file = self.temp_screenshot.take();
        self.screenshot_path = Some(png);
        old_file
    }

    fn show_tree(&mut self, c: Content, xml: PathBuf) -> (r: Option<PathBuf>)
        requires
            old(self).tree_revision < u64::MAX,
        ensures
            r == old(self)@.temp_xml,
            final(self)@ == old(self)@.with_tree(c@, xml),
    {
        let old_file = self.temp_xml.take();
        self.file_displays = c.displays;
        self.file_xml_content = c.content;
        self.tree_display_id = c.tree_display_id;
        self.parsed_tree_display_id = c.parsed_tree_display_id;
        self.root_node = c.root;
        self.xml_path = Some(xml);
        self.tree_revision = self.tree_revision + 1;
        old_file
    }

    fn note_dir(&mut self, dir: Option<PathBuf>)
        ensures
            final(self)@ == old(self)@.in_dir(dir),
    {
        self.screenshot_dir = match &dir {
            Some(d) => Some(d.clone()),
            None => None,
        };
        self.xml_dir = dir;
    }

    /// Shows a pair whose parts were read: whether the image could be decoded, and what was
    /// made of the text, if it could be read. Nothing changes unless both are good.
    pub fn commit_pair(
        &mut self,
        image_ok: bool,
        content: Option<Content>,
        png: PathBuf,
        xml: PathBuf,
        dir: Option<PathBuf>,
    ) -> (r: (bool, Vec<PathBuf>))
        requires
            old(self).tree_revision < u64::MAX,
        ensures
            (LoadView { ok: r.0, removed: r.1@, state: final(self)@ }) == pair_loaded(
                old(self)@,
                image_ok,
                view_of(content),
                png,
                xml,
                dir,
            ),
    {
        let mut removed: Vec<PathBuf> = Vec::new();
        let c = match content {
            Some(c) => c,
            None => {
                return (false, removed);
            },
        };
        if !image_ok || c.root.is_none() {
            return (false, removed);
        }
        let shot = self.show_screenshot(png);
        add_file(&mut removed, shot);
        assert(removed@ =~= one_file(old(self)@.temp_screenshot));
        let dump = self.show_tree(c, xml);
        add_file(&mut removed, dump);
        self.note_dir(dir);
        (true, removed)
    }

    /// Loads a screenshot and a hierarchy as a pair: `image_ok` tells whether the image could
    /// be decoded, `content` is the text of the hierarchy if it could be read. Where either
    /// is no good nothing changes, so that what is shown always belongs together. The second
    /// part of the answer lists files that are no longer needed.
    pub fn load_captured_pair<F: Fn(&str) -> Option<Coord>>(
        &mut self,
        image_ok: bool,
        content: Option<&str>,
        png: PathBuf,
        xml: PathBuf,
        dir: Option<PathBuf>,
        read: &F,
    ) -> (r: (bool, Vec<PathBuf>))
        requires
            reads_all(*read),
            old(self).tree_revision < u64::MAX,
        ensures
            (LoadView { ok: r.0, removed: r.1@, state: final(self)@ }) == pair_loaded(
                old(self)@,
                image_ok,
                content_shown(
                    text_in(content),
                    old(self)@.tree_display_id,
                    loaded_root(r.0, final(self)@),
                ),
                png,
                xml,
                dir,
            ),
            r.0 ==> is_document(text_in(content)),
            forall|g: spec_fn(Seq<char>) -> Option<Coord>| #[trigger]
                reads_as(*read, g) ==> (LoadView { ok: r.0, removed: r.1@, state: final(self)@ })
                    == pair_loaded(
                    old(self)@,
                    image_ok,
                    content_in(text_in(content), old(self)@.tree_display_id, g),
                    png,
                    xml,
                    dir,
                ),
    {
        let parsed = match content {
            Some(text) => Some(App::parse_xml_content(text, self.tree_display_id, read)),
            None => None,
        };
        self.commit_pair(image_ok, parsed, png, xml, dir)
    }

    /// Loads a screenshot, with the hierarchy that lies beside it if there is one: its path,
    /// and its text if it could be read.
    pub fn load_screenshot<F: Fn(&str) -> Option<Coord>>(
        &mut self,
        path: PathBuf,
        dir: Option<PathBuf>,
        image_ok: bool,
        companion: Option<(PathBuf, Option<&str>)>,
        read: &F,
    ) -> (r: (bool, Vec<PathBuf>))
        requires
            reads_all(*read),
            old(self).tree_revision < u64::MAX,
        ensures
            (LoadView { ok: r.0, removed: r.1@, state: final(self)@ }) == (match companion {
                Some((xml, text)) => pair_loaded(
                    old(self)@,
                    image_ok,
                    content_shown(
                        text_in(text),
                        old(self)@.tree_display_id,
                        loaded_root(r.0, final(self)@),
                    ),
                    path,
                    xml,
                    dir,
                ),
                None => image_loaded(old(self)@, image_ok, path),
            }).in_dir(dir),
            companion matches Some((_, text)) ==> (r.0 ==> is_document(text_in(text))),
            forall|g: spec_fn(Seq<char>) -> Option<Coord>| #[trigger]
                reads_as(*read, g) ==> (LoadView { ok: r.0, removed: r.1@, state: final(self)@ })
                    == (match companion {
                    Some((xml, text)) => pair_loaded(
                        old(self)@,
                        image_ok,
                        content_in(text_in(text), old(self)@.tree_display_id, g),
                        path,
                        xml,
                        dir,
                    ),
                    None => image_loaded(old(self)@, image_ok, path),
                }).in_dir(dir),
    {
        let noted = match &dir {
            Some(d) => Some(d.clone()),
            None => None,
        };
        let r = match companion {
            Some((xml, text)) => self.load_captured_pair(image_ok, text, path, xml, dir, read),
            None => {
                let mut removed: Vec<PathBuf> = Vec::new();
                if image_ok {
                    let shot = self.show_screenshot(path);
                    add_file(&mut removed, shot);
                    assert(removed@ =~= one_file(old(self)@.temp_screenshot));
                }
                (image_ok, removed)
            },
        };
        self.note_dir(noted);
        r
    }

    /// Loads a hierarchy, with the screenshot that lies beside it if there is one: its path,
    /// and whether it could be decoded. `content` is the text if it could be read.
    pub fn load_xml<F: Fn(&str) -> Option<Coord>>(
        &mut self,
        path: PathBuf,
        dir: Option<PathBuf>,
        content: Option<&str>,
        companion: Option<(PathBuf, bool)>,
        read: &F,
    ) -> (r: (bool, Vec<PathBuf>))
        requires
            reads_all(*read),
            old(self).tree_revision < u64::MAX,
        ensures
            (LoadView { ok: r.0, removed: r.1@, state: final(self)@ }) == (match companion {
                Some((png, image_ok)) => pair_loaded(
                    old(self)@,
                    image_ok,
                    content_shown(
                        text_in(content),
                        old(self)@.tree_display_id,
                        loaded_root(r.0, final(self)@),
                    ),
                    png,
                    path,
                    dir,
                ),
                None => tree_loaded(
                    old(self)@,
                    content_shown(
                        text_in(content),
                        old(self)@.tree_display_id,
                        loaded_root(r.0, final(self)@),
                    ),
                    path,
                ),
            }).in_dir(dir),
            r.0 ==> is_document(text_in(content)),
            forall|g: spec_fn(Seq<char>) -> Option<Coord>| #[trigger]
                reads_as(*read, g) ==> (LoadView { ok: r.0, removed: r.1@, state: final(self)@ })
                    == (match companion {
                    Some((png, image_ok)) => pair_loaded(
                        old(self)@,
                        image_ok,
                        content_in(text_in(content), old(self)@.tree_display_id, g),
                        png,
                        path,
                        dir,
                    ),
                    None => tree_loaded(
                        old(self)@,
                        content_in(text_in(content), old(self)@.tree_display_id, g),
                        path,
                    ),
                }).in_dir(dir),
    {
        let noted = match &dir {
            Some(d) => Some(d.clone()),
            None => None,
        };
        let r = match companion {
            Some((png, image_ok)) => self.load_captured_pair(
                image_ok,
                content,
                png,
                path,
                dir,
                read,
            ),
            None => {
                let mut removed: Vec<PathBuf> = Vec::new();
                let mut ok = false;
                if let Some(text) = content {
                    let c = App::parse_xml_content(text, self.tree_display_id, read);
                    if c.root.is_some() {
                        let dump = self.show_tree(c, path);
                        add_file(&mut removed, dump);
                        assert(removed@ =~= one_file(old(self)@.temp_xml));
                        ok = true;
                    }
                }
                (ok, removed)
            },
        };
        self.note_dir(noted);
        r
    }

    /// Tells the user if the screenshot that they chose could not be loaded.
    pub fn report_screenshot(&mut self, ok: bool)
        ensures
            final(self)@ == if ok {
                old(self)@
            } else {
                old(self)@.says("Failed to load screenshot (or its paired XML)"@, true)
            },
    {
        if !ok {
            self.say("Failed to load screenshot (or its paired XML)", true);
        }
    }

    /// Tells the user if the hierarchy that they chose could not be loaded.
    pub fn report_xml(&mut self, ok: bool)
        ensures
            final(self)@ == if ok {
                old(self)@
            } else {
                old(self)@.says("Failed to load XML (or its paired screenshot)"@, true)
            },
    {
        if !ok {
            self.say("Failed to load XML (or its paired screenshot)", true);
        }
    }

    /// Whether another display of a dump that has several was chosen and is not shown yet.
    pub fn display_is_stale(&self) -> (r: bool)
        ensures
            r == is_stale(self@),
    {
        self.file_displays.len() > 1 && self.tree_display_id != self.parsed_tree_display_id
    }

    /// Shows the tree of the chosen display, if the dump has one for it. What was selected and
    /// unfolded is forgotten.
    pub fn show_display(&mut self, tree: Option<UiNode>)
        requires
            old(self).tree_revision < u64::MAX,
        ensures
            final(self)@ == display_shown(old(self)@, tree_in(tree)),
    {
        self.parsed_tree_display_id = self.tree_display_id;
        self.root_node = tree;
        self.tree_revision = self.tree_revision + 1;
        self.selected_path = None;
        self.expanded.clear();
    }

    /// Shows another display of a dump that has several, once it is chosen.
    pub fn sync_display<F: Fn(&str) -> Option<Coord>>(&mut self, read: &F)
        requires
            reads_all(*read),
            old(self).tree_revision < u64::MAX,
        ensures
            final(self)@ == (if !is_stale(old(self)@) {
                old(self)@
            } else if old(self)@.file_xml_content is Some {
                display_shown(old(self)@, final(self)@.root)
            } else {
                AppView { parsed_tree_display_id: old(self)@.tree_display_id, ..old(self)@ }
            }),
            forall|g: spec_fn(Seq<char>) -> Option<Coord>| #[trigger]
                reads_as(*read, g) ==> final(self)@ == display_synced(old(self)@, g),
    {
        if self.display_is_stale() {
            let root = match &self.file_xml_content {
                Some(content) => Some(
                    parse_windows_xml(content.as_str(), self.tree_display_id, read),
                ),
                None => None,
            };
            match root {
                Some(tree) => self.show_display(tree),
                None => {
                    self.parsed_tree_display_id = self.tree_display_id;
                },
            }
        }
    }
}

/// Another display of a dump that has several was chosen and is not shown yet.
pub open spec fn is_stale(v: AppView) -> bool {
    v.file_displays.len() > 1 && v.tree_display_id != v.parsed_tree_display_id
}

/// The state once the tree of the chosen display is shown.
pub open spec fn display_shown(v: AppView, tree: Option<NodeView>) -> AppView {
    AppView {
        parsed_tree_display_id: v.tree_display_id,
        root: tree,
        tree_revision: (v.tree_revision + 1) as u64,
        selected_path: None,
        expanded: Set::empty(),
        ..v
    }
}

/// The state once the chosen display is shown, if it was not.
pub open spec fn display_synced(v: AppView, g: spec_fn(Seq<char>) -> Option<Coord>) -> AppView {
    if is_stale(v) {
        match v.file_xml_content {
            Some(text) => display_shown(
                v,
                text_tree(
                    xml_document(text),
                    |d: Seq<XmlNodeView>| windows_tree(d, v.tree_display_id, g),
                ),
            ),
            None => AppView { parsed_tree_display_id: v.tree_display_id, ..v },
        }
    } else {
        v
    }
}

/// An attempt to load a pair that fails leaves everything as it was, and one that succeeds
/// shows the screenshot and a tree together.
pub proof fn pair_is_atomic(
    v: AppView,
    image_ok: bool,
    c: Option<ContentView>,
    png: PathBuf,
    xml: PathBuf,
    dir: Option<PathBuf>,
)
    ensures
        ({
            let load = pair_loaded(v, image_ok, c, png, xml, dir);
            if load.ok {
                &&& load.state.screenshot_path == Some(png)
                &&& load.state.xml_path == Some(xml)
                &&& c matches Some(content) && load.state.root == content.root
                    && load.state.root is Some
            } else {
                load.state == v && load.removed.len() == 0
            }
        }),
{
}

// ── Saving ──

impl App {
    /// Starts to save the screenshot and the hierarchy: the files that are to be saved, or a
    /// message that one is missing.
    pub fn save_files(&mut self) -> (r: Option<(PathBuf, PathBuf)>)
        ensures
            match (old(self)@.screenshot_path, old(self)@.xml_path) {
                (None, _) => r is None && final(self)@ == old(self)@.says(
                    "No screenshot loaded"@,
                    true,
                ),
                (_, None) => r is None && final(self)@ == old(self)@.says("No XML loaded"@, true),
                (Some(png), Some(xml)) => r == Some((png, xml)) && final(self)@ == old(self)@,
            },
    {
        let png = match &self.screenshot_path {
            Some(p) => p.clone(),
            None => {
                self.say("No screenshot loaded", true);
                return None;
            },
        };
        let xml = match &self.xml_path {
            Some(p) => p.clone(),
            None => {
                self.say("No XML loaded", true);
                return None;
            },
        };
        Some((png, xml))
    }

    /// Tells how saving went.
    pub fn files_saved(&mut self, ok_png: bool, ok_xml: bool, name: &str)
        ensures
            final(self)@ == (if ok_png && ok_xml {
                old(self)@.says("Saved as "@ + name@ + ".png / "@ + name@ + ".xml"@, false)
            } else {
                old(self)@.says("Failed to save files"@, true)
            }),
    {
        if ok_png && ok_xml {
            let mut m = copy_of("Saved as ");
            m.append(name);
            m.append(".png / ");
            m.append(name);
            m.append(".xml");
            self.say(m.as_str(), false);
        } else {
            self.say("Failed to save files", true);
        }
    }
}

// ── Exporting ──

/// The rectangle of two corners, in whatever order they are given.
pub open spec fn corners(x1: Coord, y1: Coord, x2: Coord, y2: Coord) -> Rect {
    Rect {
        min: Pos { x: x1.min(x2), y: y1.min(y2) },
        max: Pos { x: x1.max(x2), y: y1.max(y2) },
    }
}

/// The rectangle that was entered, if all four fields hold a number.
pub open spec fn entered_rect(v: AppView, g: spec_fn(Seq<char>) -> Option<Coord>) -> Option<Rect> {
    match (g(trimmed(v.crop_x1)), g(trimmed(v.crop_y1)), g(trimmed(v.crop_x2)), g(
        trimmed(v.crop_y2),
    )) {
        (Some(x1), Some(y1), Some(x2), Some(y2)) => Some(corners(x1, y1, x2, y2)),
        _ => None,
    }
}

fn read_field<F: Fn(&str) -> Option<Coord>>(field: &str, read: &F) -> (r: Option<Coord>)
    requires
        reads_all(*read),
    ensures
        forall|g: spec_fn(Seq<char>) -> Option<Coord>| #[trigger]
            reads_as(*read, g) ==> r == g(trimmed(field@)),
{
    let all = chars_of(field);
    let inner = string_of(trim(all.as_slice()));
    read(inner.as_str())
}

/// What is to be exported as an icon.
#[derive(Debug)]
pub struct Export {
    pub screenshot: PathBuf,
    pub bounds: Rect,
    /// The file name to suggest.
    pub name: String,
    /// Whether the rectangle was entered.
    pub via_coords: bool,
}

/// What is to be exported, with its name as characters.
pub struct ExportView {
    pub screenshot: PathBuf,
    pub bounds: Rect,
    pub name: Seq<char>,
    pub via_coords: bool,
}

impl View for Export {
    type V = ExportView;

    open spec fn view(&self) -> ExportView {
        ExportView {
            screenshot: self.screenshot,
            bounds: self.bounds,
            name: self.name@,
            via_coords: self.via_coords,
        }
    }
}

/// What is to be exported, if anything.
pub open spec fn export_in(r: Option<Export>) -> Option<ExportView> {
    match r {
        Some(e) => Some(e@),
        None => None,
    }
}

/// The node that is selected.
pub open spec fn selected_node(v: AppView) -> Option<NodeView> {
    match (v.selected_path, v.root) {
        (Some(path), Some(root)) => node_on(root, path),
        _ => None,
    }
}

/// What is exported, and what the viewer says if it is nothing. A rectangle that was entered
/// comes before the selected element.
pub open spec fn export_of(v: AppView, g: spec_fn(Seq<char>) -> Option<Coord>) -> (
    Option<ExportView>,
    AppView,
) {
    match v.screenshot_path {
        None => (None, v.says("No screenshot loaded"@, true)),
        Some(screenshot) => match entered_rect(v, g) {
            Some(bounds) => (
                Some(ExportView { screenshot, bounds, name: "icon.png"@, via_coords: true }),
                v,
            ),
            None => match selected_node(v) {
                Some(node) => (
                    Some(
                        ExportView {
                            screenshot,
                            bounds: node.bounds,
                            name: icon_name(node.attrs),
                            via_coords: false,
                        },
                    ),
                    v,
                ),
                None => (
                    None,
                    v.says(
                        "No element selected — enter TL/BR coordinates or select an element"@,
                        true,
                    ),
                ),
            },
        },
    }
}

impl App {
    /// Reads the rectangle that was entered. None if a field is empty or no number.
    pub fn crop_coord_rect<F: Fn(&str) -> Option<Coord>>(&self, read: &F) -> (r: Option<Rect>)
        requires
            reads_all(*read),
        ensures
            forall|g: spec_fn(Seq<char>) -> Option<Coord>| #[trigger]
                reads_as(*read, g) ==> r == entered_rect(self@, g),
    {
        let x1 = match read_field(self.crop_x1.as_str(), read) {
            Some(c) => c,
            None => {
                return None;
            },
        };
        let y1 = match read_field(self.crop_y1.as_str(), read) {
            Some(c) => c,
            None => {
                return None;
            },
        };
        let x2 = match read_field(self.crop_x2.as_str(), read) {
            Some(c) => c,
            None => {
                return None;
            },
        };
        let y2 = match read_field(self.crop_y2.as_str(), read) {
            Some(c) => c,
            None => {
                return None;
            },
        };
        Some(
            Rect {
                min: Pos { x: x1.lower(x2), y: y1.lower(y2) },
                max: Pos { x: x1.upper(x2), y: y1.upper(y2) },
            },
        )
    }

    /// Empties the fields of the rectangle.
    pub fn clear_crop_coords(&mut self)
        ensures
            final(self)@ == (AppView {
                crop_x1: Seq::empty(),
                crop_y1: Seq::empty(),
                crop_x2: Seq::empty(),
                crop_y2: Seq::empty(),
                ..old(self)@
            }),
    {
        self.crop_x1 = String::new();
        self.crop_y1 = String::new();
        self.crop_x2 = String::new();
        self.crop_y2 = String::new();
    }

    /// The node that is selected.
    pub fn find_selected(&self) -> (r: Option<&UiNode>)
        ensures
            match r {
                Some(n) => selected_node(self@) == Some(n@),
                None => selected_node(self@) is None,
            },
    {
        match (&self.selected_path, &self.root_node) {
            (Some(path), Some(root)) => root.node_at(path.as_slice()),
            _ => None,
        }
    }

    /// Starts to export an icon: what is to be exported, or a message that there is nothing.
    pub fn export_icon<F: Fn(&str) -> Option<Coord>>(&mut self, read: &F) -> (r: Option<Export>)
        requires
            reads_all(*read),
        ensures
            forall|g: spec_fn(Seq<char>) -> Option<Coord>| #[trigger]
                reads_as(*read, g) ==> (export_in(r), final(self)@) == export_of(old(self)@, g),
    {
        let screenshot = match &self.screenshot_path {
            Some(p) => p.clone(),
            None => {
                self.say("No screenshot loaded", true);
                return None;
            },
        };
        if let Some(bounds) = self.crop_coord_rect(read) {
            return Some(
                Export { screenshot, bounds, name: copy_of("icon.png"), via_coords: true },
            );
        }
        let found = match self.find_selected() {
            Some(node) => Some((node.bounds, export_icon_name(node))),
            None => None,
        };
        match found {
            Some((bounds, name)) => Some(Export { screenshot, bounds, name, via_coords: false }),
            None => {
                self.say(
                    "No element selected — enter TL/BR coordinates or select an element",
                    true,
                );
                None
            },
        }
    }

    /// Tells how the export went: the name of the file, or why it failed. A rectangle that was
    /// used is cleared, so that it is not used again by mistake.
    pub fn icon_exported(&mut self, result: Result<String, String>, via_coords: bool)
        ensures
            final(self)@ == export_reported(
                old(self)@,
                match result {
                    Ok(name) => Ok(name@),
                    Err(e) => Err(e@),
                },
                via_coords,
            ),
    {
        match result {
            Ok(name) => {
                if via_coords {
                    self.clear_crop_coords();
                }
                let mut m = copy_of("Icon saved as ");
                m.append(name.as_str());
                self.say(m.as_str(), false);
            },
            Err(e) => {
                let mut m = copy_of("Export failed: ");
                m.append(e.as_str());
                self.say(m.as_str(), true);
            },
        }
    }
}

/// The state once an export is over.
pub open spec fn export_reported(
    v: AppView,
    result: Result<Seq<char>, Seq<char>>,
    via_coords: bool,
) -> AppView {
    match result {
        Ok(name) => (if via_coords {
            AppView {
                crop_x1: Seq::empty(),
                crop_y1: Seq::empty(),
                crop_x2: Seq::empty(),
                crop_y2: Seq::empty(),
                ..v
            }
        } else {
            v
        }).says("Icon saved as "@ + name, false),
        Err(e) => v.says("Export failed: "@ + e, true),
    }
}

/// The corners of a rectangle that was entered are in order, and it is the same whichever of
/// two opposite corners is entered first.
pub proof fn corners_are_normalized(x1: i64, y1: i64, x2: i64, y2: i64)
    ensures
        ({
            let r = corners(Coord::At(x1), Coord::At(y1), Coord::At(x2), Coord::At(y2));
            &&& r.min.x.le(r.max.x)
            &&& r.min.y.le(r.max.y)
            &&& r == corners(Coord::At(x2), Coord::At(y2), Coord::At(x1), Coord::At(y1))
        }),
{
}

/// Once a rectangle was used, it is not used again: an empty field is no number.
pub proof fn used_rect_is_forgotten(
    v: AppView,
    name: Seq<char>,
    g: spec_fn(Seq<char>) -> Option<Coord>,
)
    requires
        g(Seq::empty()) is None,
    ensures
        entered_rect(export_reported(v, Ok(name), true), g) is None,
{
    assert(trimmed(Seq::<char>::empty()) =~= Seq::<char>::empty());
}

// ── Laws ──

/// The first of the candidates that exists is picked, and none only where none does.
pub proof fn first_existing_is_picked(exists: Seq<bool>, i: int)
    requires
        0 <= i,
    ensures
        match first_existing(exists, i) {
            Some(k) => i <= k < exists.len() && exists[k] && forall|j: int|
                i <= j < k ==> !#[trigger] exists[j],
            None => forall|j: int| i <= j < exists.len() ==> !#[trigger] exists[j],
        },
    decreases exists.len() - i,
{
    if i < exists.len() && !exists[i] {
        first_existing_is_picked(exists, i + 1);
    }
}

/// A pair is loaded exactly where its image is good and its text has a tree. What is shown is
/// then the new screenshot and the new tree with all that was read with it, under a new
/// revision; the files of a capture that they replace are to be removed.
pub proof fn good_pairs_are_loaded(
    v: AppView,
    image_ok: bool,
    c: Option<ContentView>,
    png: PathBuf,
    xml: PathBuf,
    dir: Option<PathBuf>,
)
    requires
        v.tree_revision < u64::MAX,
    ensures
        ({
            let load = pair_loaded(v, image_ok, c, png, xml, dir);
            let good = image_ok && (c matches Some(content) && content.root is Some);
            &&& load.ok <==> good
            &&& good ==> {
                let w = load.state;
                &&& w.screenshot_path == Some(png) && w.xml_path == Some(xml)
                &&& w.root == c->0.root && w.file_displays == c->0.displays && w.file_xml_content
                    == c->0.content
                &&& w.tree_display_id == c->0.tree_display_id && w.parsed_tree_display_id
                    == c->0.parsed_tree_display_id
                &&& w.tree_revision == v.tree_revision + 1
                &&& w.temp_screenshot is None && w.temp_xml is None
                &&& w.screenshot_dir == dir && w.xml_dir == dir
                &&& v.temp_screenshot matches Some(p) ==> load.removed.contains(p)
                &&& v.temp_xml matches Some(p) ==> load.removed.contains(p)
                &&& w == (AppView {
                    screenshot_path: w.screenshot_path,
                    xml_path: w.xml_path,
                    root: w.root,
                    file_displays: w.file_displays,
                    file_xml_content: w.file_xml_content,
                    tree_display_id: w.tree_display_id,
                    parsed_tree_display_id: w.parsed_tree_display_id,
                    tree_revision: w.tree_revision,
                    temp_screenshot: None,
                    temp_xml: None,
                    screenshot_dir: w.screenshot_dir,
                    xml_dir: w.xml_dir,
                    ..v
                })
            }
            &&& !good ==> load.state == v && load.removed.len() == 0
        }),
{
    let load = pair_loaded(v, image_ok, c, png, xml, dir);
    if load.ok {
        if let Some(p) = v.temp_screenshot {
            assert(load.removed[0] == p);
        }
        if let Some(p) = v.temp_xml {
            assert(load.removed[one_file(v.temp_screenshot).len() as int] == p);
        }
    }
}

/// A screenshot that is loaded alone replaces the one before and nothing else; a hierarchy that
/// is loaded alone replaces the tree and what was read with it and nothing else. What is no good
/// replaces nothing.
pub proof fn single_files_replace_their_part(
    v: AppView,
    image_ok: bool,
    c: Option<ContentView>,
    file: PathBuf,
)
    requires
        v.tree_revision < u64::MAX,
    ensures
        image_loaded(v, image_ok, file).ok <==> image_ok,
        image_ok ==> image_loaded(v, image_ok, file).state == (AppView {
            screenshot_path: Some(file),
            temp_screenshot: None,
            ..v
        }) && (v.temp_screenshot matches Some(p) ==> image_loaded(v, image_ok, file).removed
            == seq![p]),
        !image_ok ==> image_loaded(v, image_ok, file).state == v,
        ({
            let load = tree_loaded(v, c, file);
            let w = load.state;
            let good = c matches Some(content) && content.root is Some;
            &&& load.ok <==> good
            &&& good ==> w.root == c->0.root && w.xml_path == Some(file) && w.tree_revision
                == v.tree_revision + 1 && w.screenshot_path == v.screenshot_path
                && w.file_displays == c->0.displays && w.tree_display_id == c->0.tree_display_id
                && w.parsed_tree_display_id == c->0.parsed_tree_display_id && w.file_xml_content
                == c->0.content && w.temp_xml is None && w.temp_screenshot == v.temp_screenshot
            &&& good ==> (v.temp_xml matches Some(p) ==> load.removed == seq![p])
            &&& !good ==> w == v && load.removed.len() == 0
        }),
{
}

/// Another display is shown only of a text that has several, and only where another one was
/// chosen than the one that is shown. What was selected and unfolded is forgotten then.
pub proof fn chosen_display_is_shown(v: AppView, g: spec_fn(Seq<char>) -> Option<Coord>)
    requires
        v.tree_revision < u64::MAX,
    ensures
        ({
            let w = display_synced(v, g);
            let other = v.file_displays.len() > 1 && v.tree_display_id != v.parsed_tree_display_id;
            &&& !other ==> w == v
            &&& other ==> w.parsed_tree_display_id == v.tree_display_id
            &&& other && (v.file_xml_content matches Some(text) && xml_document(text) is Some) ==> {
                &&& w.root == windows_tree(
                    xml_document(v.file_xml_content->0)->0,
                    v.tree_display_id,
                    g,
                )
                &&& w.tree_revision == v.tree_revision + 1
                &&& w.selected_path is None && forall|q: Seq<usize>| !w.expanded.contains(q)
            }
            &&& w.tree_display_id == v.tree_display_id && w.screenshot_path == v.screenshot_path
                && w.xml_path == v.xml_path && w.file_xml_content == v.file_xml_content
        }),
{
}

/// The rectangle that was entered reaches from the smaller to the larger of the two numbers on
/// each axis. If one of the four fields holds no number, there is none.
pub proof fn entered_numbers_make_the_rectangle(
    v: AppView,
    g: spec_fn(Seq<char>) -> Option<Coord>,
    x1: i64,
    y1: i64,
    x2: i64,
    y2: i64,
)
    ensures
        g(trimmed(v.crop_x1)) is None || g(trimmed(v.crop_y1)) is None || g(trimmed(v.crop_x2))
            is None || g(trimmed(v.crop_y2)) is None ==> entered_rect(v, g) is None,
        g(trimmed(v.crop_x1)) == Some(Coord::At(x1)) && g(trimmed(v.crop_y1)) == Some(Coord::At(y1))
            && g(trimmed(v.crop_x2)) == Some(Coord::At(x2)) && g(trimmed(v.crop_y2)) == Some(
            Coord::At(y2),
        ) ==> (entered_rect(v, g) matches Some(r) && {
            &&& r.min.x == Coord::At(if x1 <= x2 {
                x1
            } else {
                x2
            })
            &&& r.max.x == Coord::At(if x1 <= x2 {
                x2
            } else {
                x1
            })
            &&& r.min.y == Coord::At(if y1 <= y2 {
                y1
            } else {
                y2
            })
            &&& r.max.y == Coord::At(if y1 <= y2 {
                y2
            } else {
                y1
            })
        }),
{
}

/// An icon is cut from the screenshot that is loaded: the rectangle that was entered, or else the
/// bounds of the selected element, which also names it. Without a screenshot, or without both of
/// the others, nothing is exported and the user is told.
pub proof fn entered_rectangle_comes_first(v: AppView, g: spec_fn(Seq<char>) -> Option<Coord>)
    ensures
        ({
            let (e, w) = export_of(v, g);
            let node = match (v.selected_path, v.root) {
                (Some(path), Some(root)) => node_on(root, path),
                _ => None,
            };
            &&& e is Some <==> v.screenshot_path is Some && (entered_rect(v, g) is Some || node
                is Some)
            &&& e is Some ==> w == v && Some(e->0.screenshot) == v.screenshot_path
            &&& e is Some && entered_rect(v, g) is Some ==> Some(e->0.bounds) == entered_rect(v, g)
                && e->0.via_coords && e->0.name == "icon.png"@
            &&& e is Some && entered_rect(v, g) is None ==> e->0.bounds == node->0.bounds
                && !e->0.via_coords && e->0.name == icon_name(node->0.attrs)
            &&& e is None ==> w.status_is_error && w == (AppView {
                status_message: w.status_message,
                status_is_error: true,
                ..v
            })
        }),
{
}

/// After an export the fields of the rectangle are emptied only where they were used and it
/// succeeded. The user is told how it went.
pub proof fn export_empties_used_fields(
    v: AppView,
    result: Result<Seq<char>, Seq<char>>,
    via_coords: bool,
)
    ensures
        ({
            let w = export_reported(v, result, via_coords);
            &&& result is Ok && via_coords ==> w.crop_x1.len() == 0 && w.crop_y1.len() == 0
                && w.crop_x2.len() == 0 && w.crop_y2.len() == 0
            &&& result is Err || !via_coords ==> w.crop_x1 == v.crop_x1 && w.crop_y1 == v.crop_y1
                && w.crop_x2 == v.crop_x2 && w.crop_y2 == v.crop_y2
            &&& w.status_is_error <==> result is Err
            &&& result matches Ok(name) ==> w.status_message == Some("Icon saved as "@ + name)
            &&& result matches Err(e) ==> w.status_message == Some("Export failed: "@ + e)
            &&& w == (AppView {
                crop_x1: w.crop_x1,
                crop_y1: w.crop_y1,
                crop_x2: w.crop_x2,
                crop_y2: w.crop_y2,
                status_message: w.status_message,
                status_is_error: w.status_is_error,
                ..v
            })
        }),
{
}

/// Only a text that was read and is an XML document can have a tree; what was read is taken as
/// what it comes to, with the display that is shown.
pub proof fn only_documents_have_a_tree(
    text: Option<Seq<char>>,
    current: u32,
    g: spec_fn(Seq<char>) -> Option<Coord>,
)
    ensures
        is_document(text) <==> text is Some && xml_document(text->0) is Some,
        text is None ==> content_in(text, current, g) is None,
        text matches Some(t) ==> content_in(text, current, g) == Some(
            content_of(xml_document(t), t, current, g),
        ),
        content_in(text, current, g) matches Some(c) && c.root is Some ==> is_document(text),
{
}

} // verus!
