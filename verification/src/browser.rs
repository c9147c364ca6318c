//! The interaction state machine: the browser's state, what each input
//! event does to it, and what it asks of its caller.
//!
//! The state machine does no input or output. Where an event calls for
//! some, [`App::handle_event`] returns an [`Effect`]; the caller carries it
//! out and hands the result to the method that the effect names.

use crate::input::{
    describe_mouse, mouse_description, InputEvent, KeyCode, KeyEventKind, MouseButton, MouseEvent,
    MouseEventKind,
};
use crate::opener::{outcome_view, OpenError, OpenErrorView};
use crate::text::append;
use crate::tree::{
    find_node, flatten, forest_rows, forest_view, forest_well_formed, indexable,
    lemma_each_node_has_a_row, lemma_node_at_well_formed, lemma_replace_keeps_well_formed,
    lemma_replace_same, lemma_rows_after_collapse, lemma_rows_after_expand, lemma_rows_show_nodes,
    lemma_toggle_keeps_well_formed, lemma_views_are_indexable, node_at, replace_at, rows_view,
    visible_rows, with_node_mut, FileNode, FlatItem, NodeView, RowView,
};
use vstd::prelude::*;

verus! {

/// Two clicks on one row count as a double click when at most this many
/// milliseconds lie between them.
pub const DOUBLE_CLICK_MILLIS: u64 = 350;

/// What the status line says at the start.
pub const READY: &'static str = "Ready. Click or scroll. Press q or Esc to quit.";

/// The menu from which an opener is chosen. Its first item stands for the
/// platform's default.
#[derive(Debug, Clone, PartialEq, Eq)]
pub struct OpenMenu {
    pub items: Vec<String>,
    pub selected: usize,
}

/// The mathematical value of an [`OpenMenu`].
pub struct MenuView {
    pub items: Seq<Seq<char>>,
    pub selected: usize,
}

impl View for OpenMenu {
    type V = MenuView;

    open spec fn view(&self) -> MenuView {
        MenuView { items: self.items.deep_view(), selected: self.selected }
    }
}

impl MenuView {
    /// The menu with the highlight one item up, going round from the first
    /// item to the last.
    pub open spec fn up(self) -> MenuView {
        if self.items.len() == 0 {
            self
        } else if self.selected == 0 {
            MenuView { selected: (self.items.len() - 1) as usize, ..self }
        } else {
            MenuView { selected: (self.selected - 1) as usize, ..self }
        }
    }

    /// The menu with the highlight one item down, going round from the last
    /// item to the first.
    pub open spec fn down(self) -> MenuView {
        if self.items.len() == 0 {
            self
        } else if self.selected + 1 < self.items.len() {
            MenuView { selected: (self.selected + 1) as usize, ..self }
        } else {
            MenuView { selected: 0, ..self }
        }
    }
}

/// The state of the browser.
#[derive(Debug)]
pub struct App {
    /// The message of the status line.
    pub status: String,
    /// The roots of the tree.
    pub entries: Vec<FileNode>,
    /// The selected row, counted in the visible rows.
    pub selected: Option<usize>,
    /// The row and the time in milliseconds of the last click that was not
    /// the second of a double click.
    pub last_click: Option<(usize, u64)>,
    /// The menu of openers while it is shown.
    pub open_menu: Option<OpenMenu>,
}

/// The mathematical value of an [`App`].
pub struct AppView {
    pub status: Seq<char>,
    pub entries: Seq<NodeView>,
    pub selected: Option<usize>,
    pub last_click: Option<(usize, u64)>,
    pub open_menu: Option<MenuView>,
}

impl View for App {
    type V = AppView;

    open spec fn view(&self) -> AppView {
        AppView {
            status: self.status@,
            entries: forest_view(self.entries@),
            selected: self.selected,
            last_click: self.last_click,
            open_menu: match self.open_menu {
                Some(menu) => Some(menu@),
                None => None,
            },
        }
    }
}

/// How the outcome of an opening is told on the status line.
#[derive(Debug, Clone, PartialEq, Eq)]
pub enum Report {
    /// By the path that was opened.
    Opened { path: String },
    /// By the name of the entry for which an opener was launched.
    Launched { name: String },
}

/// The mathematical value of a [`Report`].
pub enum ReportView {
    Opened { path: Seq<char> },
    Launched { name: Seq<char> },
}

impl View for Report {
    type V = ReportView;

    open spec fn view(&self) -> ReportView {
        match self {
            Report::Opened { path } => ReportView::Opened { path: path@ },
            Report::Launched { name } => ReportView::Launched { name: name@ },
        }
    }
}

/// What the state machine asks of its caller after an event.
#[derive(Debug, Clone, PartialEq, Eq)]
pub enum Effect {
    /// Nothing.
    Idle,
    /// End the program.
    Quit,
    /// List the directory at `path` and hand the listing, with `idx_path`,
    /// to [`App::directory_listed`].
    ListDirectory { idx_path: Vec<usize>, path: String },
    /// Build the menu of openers for `path` and hand it to
    /// [`App::show_open_menu`].
    ChooseOpener { path: String },
    /// Open `path`, with the opener `spec` or, where there is none, by
    /// default, and hand the outcome, with `report`, to
    /// [`App::report_outcome`].
    Open { spec: Option<String>, path: String, report: Report },
}

/// The mathematical value of an [`Effect`].
pub enum EffectView {
    Idle,
    Quit,
    ListDirectory { idx_path: Seq<usize>, path: Seq<char> },
    ChooseOpener { path: Seq<char> },
    Open { spec: Option<Seq<char>>, path: Seq<char>, report: ReportView },
}

impl View for Effect {
    type V = EffectView;

    open spec fn view(&self) -> EffectView {
        match self {
            Effect::Idle => EffectView::Idle,
            Effect::Quit => EffectView::Quit,
            Effect::ListDirectory { idx_path, path } => EffectView::ListDirectory {
                idx_path: idx_path@,
                path: path@,
            },
            Effect::ChooseOpener { path } => EffectView::ChooseOpener { path: path@ },
            Effect::Open { spec, path, report } => EffectView::Open {
                spec: spec.deep_view(),
                path: path@,
                report: report@,
            },
        }
    }
}

/// The selection that stays in range: none where nothing is visible, the
/// last row where the selection lies beyond it, else the selection itself.
pub open spec fn clamped(selected: Option<usize>, count: nat) -> Option<usize> {
    if count == 0 {
        None
    } else {
        match selected {
            Some(i) => if i >= count {
                Some((count - 1) as usize)
            } else {
                selected
            },
            None => None,
        }
    }
}

/// Whether a click on `row` at the time `now` is the second of a double
/// click: the last click was on the same row, and no more than
/// [`DOUBLE_CLICK_MILLIS`] before.
pub open spec fn double_click(last_click: Option<(usize, u64)>, row: usize, now: u64) -> bool {
    match last_click {
        Some((last_row, at)) => last_row == row && now - at <= DOUBLE_CLICK_MILLIS,
        None => false,
    }
}

/// The row of the list that lies under the terminal row `row`: the list
/// stands inside a border, above the status line. `None` where the terminal
/// is too low to show a row, or the click is on the border or beyond.
pub open spec fn clicked_row(row: u16, terminal_height: u16) -> Option<usize> {
    if terminal_height >= 3 && 1 <= row < terminal_height - 2 {
        Some((row - 1) as usize)
    } else {
        None
    }
}

/// What the status line says of the outcome of an opening.
pub open spec fn report_text(report: ReportView, outcome: Result<(), OpenErrorView>) -> Seq<char> {
    match report {
        ReportView::Opened { path } => match outcome {
            Ok(_) => "Opening "@ + path,
            Err(e) => "Failed to open "@ + path + ": "@ + e.message(),
        },
        ReportView::Launched { name } => match outcome {
            Ok(_) => "Launched opener for "@ + name,
            Err(e) => "Open failed: "@ + e.message(),
        },
    }
}

impl AppView {
    /// The rows that are visible.
    pub open spec fn rows(self) -> Seq<RowView> {
        visible_rows(self.entries)
    }

    /// The state that the state machine keeps: the selection is a visible
    /// row, and the highlight of the menu is one of its items.
    pub open spec fn well_formed(self) -> bool {
        &&& self.selected matches Some(i) ==> i < self.rows().len()
        &&& self.open_menu matches Some(menu) ==> menu.selected < menu.items.len()
    }

    /// The selected row, if there is a selection and it is in range.
    pub open spec fn selected_row(self) -> Option<RowView> {
        match self.selected {
            Some(i) => if i < self.rows().len() {
                Some(self.rows()[i as int])
            } else {
                None
            },
            None => None,
        }
    }

    /// This state with the selection brought into range.
    pub open spec fn clamp(self) -> AppView {
        AppView { selected: clamped(self.selected, self.rows().len()), ..self }
    }

    /// This state with another status line.
    pub open spec fn say(self, status: Seq<char>) -> AppView {
        AppView { status, ..self }
    }

    /// Asks for the listing of the node that `row` shows, if that node is
    /// collapsed, and says so on the status line.
    pub open spec fn request_expansion(self, row: RowView, label: Seq<char>) -> (
        AppView,
        EffectView,
    ) {
        match node_at(self.entries, row.idx_path) {
            Some(node) => if !node.is_expanded {
                (
                    self.say(label + node.name),
                    EffectView::ListDirectory { idx_path: row.idx_path, path: node.path },
                )
            } else {
                (self, EffectView::Idle)
            },
            None => (self, EffectView::Idle),
        }
    }

    /// Collapses the node that `row` shows, if that node is expanded, and
    /// says so on the status line.
    pub open spec fn collapse(self, row: RowView, label: Seq<char>) -> AppView {
        match node_at(self.entries, row.idx_path) {
            Some(node) => if node.is_expanded {
                AppView {
                    entries: replace_at(self.entries, row.idx_path, node.collapsed()),
                    status: label + node.name,
                    ..self
                }
            } else {
                self
            },
            None => self,
        }
    }

    /// Acts on `row`: a directory is collapsed if it is expanded and asked
    /// to be listed if it is not; a file is asked to be opened by default.
    pub open spec fn activate(self, row: RowView, collapsed: Seq<char>, expanded: Seq<char>) -> (
        AppView,
        EffectView,
    ) {
        if row.is_dir {
            match node_at(self.entries, row.idx_path) {
                Some(node) => if node.is_expanded {
                    (self.collapse(row, collapsed), EffectView::Idle)
                } else {
                    self.request_expansion(row, expanded)
                },
                None => (self, EffectView::Idle),
            }
        } else {
            (
                self,
                EffectView::Open {
                    spec: None,
                    path: row.path,
                    report: ReportView::Opened { path: row.path },
                },
            )
        }
    }

    /// The selection one row down, or on the first row where there was
    /// none; unchanged on the last row and where nothing is visible.
    pub open spec fn move_down(self) -> AppView {
        if self.rows().len() == 0 {
            self
        } else {
            match self.selected {
                Some(i) => if i + 1 < self.rows().len() {
                    AppView { selected: Some((i + 1) as usize), ..self }
                } else {
                    self
                },
                None => AppView { selected: Some(0), ..self },
            }
        }
    }

    /// The selection one row up; unchanged on the first row, where there
    /// is no selection and where nothing is visible.
    pub open spec fn move_up(self) -> AppView {
        if self.rows().len() == 0 {
            self
        } else {
            match self.selected {
                Some(i) => if i > 0 {
                    AppView { selected: Some((i - 1) as usize), ..self }
                } else {
                    self
                },
                None => self,
            }
        }
    }

    /// This state with the row `i` selected and named on the status line.
    pub open spec fn select(self, i: int) -> AppView {
        AppView {
            selected: Some(i as usize),
            status: "Selected "@ + self.rows()[i].name,
            ..self
        }
    }

    /// The state after the wheel was turned up: as [`Self::move_up`], but
    /// the first row is selected where there was no selection, and the new
    /// selection is named on the status line.
    pub open spec fn scroll_up(self) -> AppView {
        if self.rows().len() == 0 {
            self
        } else {
            match self.selected {
                Some(i) => if i > 0 {
                    self.select(i - 1)
                } else {
                    self
                },
                None => self.select(0),
            }
        }
    }

    /// The state after the wheel was turned down: as [`Self::move_down`],
    /// with the new selection named on the status line.
    pub open spec fn scroll_down(self) -> AppView {
        if self.rows().len() == 0 {
            self
        } else {
            match self.selected {
                Some(i) => if i + 1 < self.rows().len() {
                    self.select(i + 1)
                } else {
                    self
                },
                None => self.select(0),
            }
        }
    }

    /// The state and the effect after a click on the visible row `i` at
    /// the time `now`. The row is selected. The second click of a double
    /// click acts on it and forgets the click; any other click is
    /// remembered.
    pub open spec fn click(self, i: int, now: u64) -> (AppView, EffectView) {
        if double_click(self.last_click, i as usize, now) {
            let (next, effect) = self.select(i).activate(
                self.rows()[i],
                "Collapsed "@,
                "Expanded "@,
            );
            (AppView { last_click: None, ..next.clamp() }, effect)
        } else {
            (AppView { last_click: Some((i as usize, now)), ..self.select(i) }, EffectView::Idle)
        }
    }

    /// The state and the effect after a key was pressed while no menu is
    /// shown.
    pub open spec fn browse_key(self, code: KeyCode) -> (AppView, EffectView) {
        match code {
            KeyCode::Char(c) => if c == 'q' {
                (self, EffectView::Quit)
            } else if c == 'o' {
                match self.selected_row() {
                    Some(row) => (self, EffectView::ChooseOpener { path: row.path }),
                    None => (self, EffectView::Idle),
                }
            } else {
                (self, EffectView::Idle)
            },
            KeyCode::Esc => (self, EffectView::Quit),
            KeyCode::Down => (self.move_down(), EffectView::Idle),
            KeyCode::Up => (self.move_up(), EffectView::Idle),
            KeyCode::Right => match self.selected_row() {
                Some(row) => if row.is_dir {
                    let (next, effect) = self.request_expansion(row, "Expanded "@);
                    (next.clamp(), effect)
                } else {
                    (self.clamp(), EffectView::Idle)
                },
                None => (self.clamp(), EffectView::Idle),
            },
            KeyCode::Left => match self.selected_row() {
                Some(row) => if row.is_dir {
                    (self.collapse(row, "Collapsed "@).clamp(), EffectView::Idle)
                } else {
                    (self.clamp(), EffectView::Idle)
                },
                None => (self.clamp(), EffectView::Idle),
            },
            KeyCode::Enter => match self.selected_row() {
                Some(row) => {
                    let (next, effect) = self.activate(
                        row,
                        "Collapsed folder: "@,
                        "Expanded folder: "@,
                    );
                    (next.clamp(), effect)
                },
                None => (self.clamp(), EffectView::Idle),
            },
            KeyCode::Other => (self, EffectView::Idle),
        }
    }

    /// The state and the effect after a mouse event while no menu is shown.
    pub open spec fn browse_mouse(self, m: MouseEvent, terminal_height: u16, now: u64) -> (
        AppView,
        EffectView,
    ) {
        match m.kind {
            MouseEventKind::Down(MouseButton::Left) => match clicked_row(m.row, terminal_height) {
                Some(i) => if i < self.rows().len() {
                    self.click(i as int, now)
                } else {
                    (self, EffectView::Idle)
                },
                None => (self, EffectView::Idle),
            },
            MouseEventKind::ScrollUp => (self.scroll_up(), EffectView::Idle),
            MouseEventKind::ScrollDown => (self.scroll_down(), EffectView::Idle),
            _ => (self.say(mouse_description(m)), EffectView::Idle),
        }
    }

    /// The state and the effect after a key was pressed or repeated while
    /// the menu `menu` is shown.
    pub open spec fn menu_key(self, menu: MenuView, code: KeyCode) -> (AppView, EffectView) {
        match code {
            KeyCode::Esc => (
                AppView { open_menu: None, status: "Open with canceled"@, ..self },
                EffectView::Idle,
            ),
            KeyCode::Up => (AppView { open_menu: Some(menu.up()), ..self }, EffectView::Idle),
            KeyCode::Down => (AppView { open_menu: Some(menu.down()), ..self }, EffectView::Idle),
            KeyCode::Enter => (
                AppView { open_menu: None, ..self },
                match self.selected_row() {
                    Some(row) => EffectView::Open {
                        spec: if menu.selected == 0 {
                            None
                        } else {
                            Some(menu.items[menu.selected as int])
                        },
                        path: row.path,
                        report: ReportView::Launched { name: row.name },
                    },
                    None => EffectView::Idle,
                },
            ),
            _ => (self, EffectView::Idle),
        }
    }

    /// The state after the listing of the node at `path` has come: the
    /// node is expanded with it, and the selection is brought into range.
    pub open spec fn with_listing(self, path: Seq<usize>, listing: Seq<NodeView>) -> AppView {
        match node_at(self.entries, path) {
            Some(node) => AppView {
                entries: replace_at(self.entries, path, node.expanded(listing)),
                ..self
            }.clamp(),
            None => self.clamp(),
        }
    }

    /// The state after the menu of openers was built: it is shown, with
    /// its first item highlighted, if it has an item and a row is selected.
    pub open spec fn with_menu(self, items: Seq<Seq<char>>) -> AppView {
        match self.selected_row() {
            Some(row) => if items.len() > 0 {
                AppView {
                    open_menu: Some(MenuView { items, selected: 0 }),
                    status: "Open with: "@ + row.name,
                    ..self
                }
            } else {
                self
            },
            None => self,
        }
    }

    /// The state and the effect after an input event.
    ///
    /// While the menu is shown, only keys that are pressed or repeated
    /// count. Otherwise keys that are pressed and mouse events count.
    pub open spec fn step(self, event: InputEvent) -> (AppView, EffectView) {
        match self.open_menu {
            Some(menu) => match event {
                InputEvent::Key { code, kind } => if kind != KeyEventKind::Release {
                    self.menu_key(menu, code)
                } else {
                    (self, EffectView::Idle)
                },
                _ => (self, EffectView::Idle),
            },
            None => match event {
                InputEvent::Key { code, kind } => if kind == KeyEventKind::Press {
                    self.browse_key(code)
                } else {
                    (self, EffectView::Idle)
                },
                InputEvent::Mouse { event, terminal_height, at_millis } => self.browse_mouse(
                    event,
                    terminal_height,
                    at_millis,
                ),
                _ => (self, EffectView::Idle),
            },
        }
    }
}

/// Brings the selection into range after the tree has changed: none where
/// nothing is visible, the last row where the selection lies beyond it.
pub fn clamp_selected(app: &mut App)
    ensures
        final(app)@ == old(app)@.clamp(),
        final(app)@.selected matches Some(i) ==> i < final(app)@.rows().len(),
{
    let len = flatten(app.entries.as_slice()).len();
    if len == 0 {
        app.selected = None;
    } else {
        match app.selected {
            Some(i) => {
                if i >= len {
                    app.selected = Some(len - 1);
                }
            },
            None => {},
        }
    }
}

/// Whether a click on `row` at the time `now` is the second of a double
/// click, given the last click that was remembered.
pub fn is_double_click(last_click: Option<(usize, u64)>, row: usize, now: u64) -> (double: bool)
    ensures
        double == double_click(last_click, row, now),
{
    match last_click {
        Some((last_row, at)) => last_row == row && (now <= at || now - at <= DOUBLE_CLICK_MILLIS),
        None => false,
    }
}

/// The text `prefix` followed by `text`.
fn labelled(prefix: &str, text: &str) -> (status: String)
    ensures
        status@ == prefix@ + text@,
{
    let mut status: String = prefix.to_owned();
    append(&mut status, text);
    status
}

impl App {
    /// The state at the start: the given roots, of which the first is
    /// selected if there is one, and no menu.
    pub fn new(entries: Vec<FileNode>) -> (app: App)
        ensures
            app@ == (AppView {
                status: READY@,
                entries: forest_view(entries@),
                selected: if entries@.len() > 0 {
                    Some(0usize)
                } else {
                    None
                },
                last_click: None,
                open_menu: None,
            }),
            app@.well_formed(),
    {
        let selected = if entries.len() > 0 {
            Some(0)
        } else {
            None
        };
        proof {
            lemma_each_node_has_a_row(forest_view(entries@), Seq::empty(), entries@.len());
        }
        App { status: READY.to_owned(), entries, selected, last_click: None, open_menu: None }
    }

    /// Whether the state is well formed: the selection is a visible row,
    /// and the highlight of the menu is one of its items.
    pub fn is_well_formed(&self) -> (ok: bool)
        ensures
            ok == self@.well_formed(),
    {
        let selection_ok = match self.selected {
            Some(i) => i < flatten(self.entries.as_slice()).len(),
            None => true,
        };
        let menu_ok = match &self.open_menu {
            Some(menu) => menu.selected < menu.items.len(),
            None => true,
        };
        selection_ok && menu_ok
    }

    /// Asks for the listing of the node that `row` shows, if that node is
    /// collapsed.
    fn request_expansion(&mut self, row: &FlatItem, label: &str) -> (effect: Effect)
        ensures
            (final(self)@, effect@) == old(self)@.request_expansion(row@, label@),
    {
        match find_node(self.entries.as_slice(), row.idx_path.as_slice()) {
            Some(node) => {
                if !node.is_expanded {
                    let path = node.path.clone();
                    self.status = labelled(label, node.name.as_str());
                    Effect::ListDirectory { idx_path: row.idx_path.clone(), path }
                } else {
                    Effect::Idle
                }
            },
            None => Effect::Idle,
        }
    }

    /// Collapses the node that `row` shows, if that node is expanded.
    fn collapse_row(&mut self, row: &FlatItem, label: &str)
        ensures
            final(self)@ == old(self)@.collapse(row@, label@),
    {
        proof {
            lemma_replace_same(self@.entries, row@.idx_path);
        }
        let mut status: Option<String> = None;
        match with_node_mut(self.entries.as_mut_slice(), row.idx_path.as_slice()) {
            Some(node) => {
                if node.is_expanded {
                    status = Some(labelled(label, node.name.as_str()));
                    node.collapse();
                }
            },
            None => {},
        }
        match status {
            Some(text) => {
                self.status = text;
            },
            None => {},
        }
    }

    /// Acts on `row`: toggles a directory, asks for a file to be opened.
    fn activate_row(&mut self, row: &FlatItem, collapsed: &str, expanded: &str) -> (effect: Effect)
        ensures
            (final(self)@, effect@) == old(self)@.activate(row@, collapsed@, expanded@),
    {
        if row.is_dir {
            let is_expanded = match find_node(self.entries.as_slice(), row.idx_path.as_slice()) {
                Some(node) => node.is_expanded,
                None => {
                    return Effect::Idle;
                },
            };
            if is_expanded {
                self.collapse_row(row, collapsed);
                Effect::Idle
            } else {
                self.request_expansion(row, expanded)
            }
        } else {
            Effect::Open {
                spec: None,
                path: row.path.clone(),
                report: Report::Opened { path: row.path.clone() },
            }
        }
    }

    /// Selects the visible row `i` and names it on the status line.
    fn select_row(&mut self, rows: &Vec<FlatItem>, i: usize)
        requires
            rows_view(rows@) == old(self)@.rows(),
            i < rows@.len(),
        ensures
            final(self)@ == old(self)@.select(i as int),
    {
        self.selected = Some(i);
        self.status = labelled("Selected ", rows[i].name.as_str());
    }

    /// Handles a key that was pressed while no menu is shown.
    fn on_browse_key(&mut self, code: KeyCode) -> (effect: Effect)
        ensures
            (final(self)@, effect@) == old(self)@.browse_key(code),
    {
        let rows = flatten(self.entries.as_slice());
        let at: Option<usize> = match self.selected {
            Some(i) => if i < rows.len() {
                Some(i)
            } else {
                None
            },
            None => None,
        };
        match code {
            KeyCode::Char(c) => {
                if c == 'q' {
                    Effect::Quit
                } else if c == 'o' {
                    match at {
                        Some(i) => Effect::ChooseOpener { path: rows[i].path.clone() },
                        None => Effect::Idle,
                    }
                } else {
                    Effect::Idle
                }
            },
            KeyCode::Esc => Effect::Quit,
            KeyCode::Down => {
                if rows.len() > 0 {
                    match self.selected {
                        Some(i) => {
                            if i < rows.len() - 1 {
                                self.selected = Some(i + 1);
                            }
                        },
                        None => {
                            self.selected = Some(0);
                        },
                    }
                }
                Effect::Idle
            },
            KeyCode::Up => {
                if rows.len() > 0 {
                    match self.selected {
                        Some(i) => {
                            if i > 0 {
                                self.selected = Some(i - 1);
                            }
                        },
                        None => {},
                    }
                }
                Effect::Idle
            },
            KeyCode::Right => {
                let effect = match at {
                    Some(i) => if rows[i].is_dir {
                        self.request_expansion(&rows[i], "Expanded ")
                    } else {
                        Effect::Idle
                    },
                    None => Effect::Idle,
                };
                clamp_selected(self);
                effect
            },
            KeyCode::Left => {
                match at {
                    Some(i) => {
                        if rows[i].is_dir {
                            self.collapse_row(&rows[i], "Collapsed ");
                        }
                    },
                    None => {},
                }
                clamp_selected(self);
                Effect::Idle
            },
            KeyCode::Enter => {
                let effect = match at {
                    Some(i) => self.activate_row(&rows[i], "Collapsed folder: ", "Expanded folder: "),
                    None => Effect::Idle,
                };
                clamp_selected(self);
                effect
            },
            KeyCode::Other => Effect::Idle,
        }
    }

    /// Handles a mouse event while no menu is shown.
    fn on_browse_mouse(&mut self, m: MouseEvent, terminal_height: u16, now: u64) -> (effect: Effect)
        requires
            old(self)@.well_formed(),
        ensures
            (final(self)@, effect@) == old(self)@.browse_mouse(m, terminal_height, now),
    {
        match m.kind {
            MouseEventKind::Down(MouseButton::Left) => {
                if terminal_height >= 3 && m.row >= 1 && m.row < terminal_height - 2 {
                    let i: usize = (m.row - 1) as usize;
                    let rows = flatten(self.entries.as_slice());
                    if i < rows.len() {
                        let double = is_double_click(self.last_click, i, now);
                        self.select_row(&rows, i);
                        if double {
                            let effect = self.activate_row(&rows[i], "Collapsed ", "Expanded ");
                            clamp_selected(self);
                            self.last_click = None;
                            effect
                        } else {
                            self.last_click = Some((i, now));
                            Effect::Idle
                        }
                    } else {
                        Effect::Idle
                    }
                } else {
                    Effect::Idle
                }
            },
            MouseEventKind::ScrollUp => {
                let rows = flatten(self.entries.as_slice());
                if rows.len() > 0 {
                    match self.selected {
                        Some(i) => {
                            if i > 0 {
                                self.select_row(&rows, i - 1);
                            }
                        },
                        None => {
                            self.select_row(&rows, 0);
                        },
                    }
                }
                Effect::Idle
            },
            MouseEventKind::ScrollDown => {
                let rows = flatten(self.entries.as_slice());
                if rows.len() > 0 {
                    match self.selected {
                        Some(i) => {
                            if i < rows.len() - 1 {
                                self.select_row(&rows, i + 1);
                            }
                        },
                        None => {
                            self.select_row(&rows, 0);
                        },
                    }
                }
                Effect::Idle
            },
            _ => {
                self.status = describe_mouse(m);
                Effect::Idle
            },
        }
    }

    /// Handles a key that was pressed or repeated while the menu is shown.
    fn on_menu_key(&mut self, code: KeyCode) -> (effect: Effect)
        requires
            old(self)@.well_formed(),
            old(self).open_menu is Some,
        ensures
            (final(self)@, effect@) == old(self)@.menu_key(old(self)@.open_menu->0, code),
    {
        let mut menu = match self.open_menu.take() {
            Some(menu) => menu,
            None => {
                return Effect::Idle;
            },
        };
        match code {
            KeyCode::Esc => {
                self.status = "Open with canceled".to_owned();
                Effect::Idle
            },
            KeyCode::Up => {
                if menu.selected == 0 {
                    menu.selected = menu.items.len() - 1;
                } else {
                    menu.selected = menu.selected - 1;
                }
                self.open_menu = Some(menu);
                Effect::Idle
            },
            KeyCode::Down => {
                if menu.selected < menu.items.len() - 1 {
                    menu.selected = menu.selected + 1;
                } else {
                    menu.selected = 0;
                }
                self.open_menu = Some(menu);
                Effect::Idle
            },
            KeyCode::Enter => {
                let rows = flatten(self.entries.as_slice());
                match self.selected {
                    Some(i) => {
                        let spec = if menu.selected == 0 {
                            None
                        } else {
                            Some(menu.items[menu.selected].clone())
                        };
                        Effect::Open {
                            spec,
                            path: rows[i].path.clone(),
                            report: Report::Launched { name: rows[i].name.clone() },
                        }
                    },
                    None => Effect::Idle,
                }
            },
            _ => {
                self.open_menu = Some(menu);
                Effect::Idle
            },
        }
    }

    /// Takes one input event: changes the state as the event asks, and
    /// returns what the caller is to do for it.
    pub fn handle_event(&mut self, event: InputEvent) -> (effect: Effect)
        requires
            old(self)@.well_formed(),
        ensures
            (final(self)@, effect@) == old(self)@.step(event),
            final(self)@.well_formed(),
    {
        proof {
            lemma_step_keeps_well_formed(self@, event);
        }
        if self.open_menu.is_some() {
            match event {
                InputEvent::Key { code, kind } => match kind {
                    KeyEventKind::Release => Effect::Idle,
                    _ => self.on_menu_key(code),
                },
                _ => Effect::Idle,
            }
        } else {
            match event {
                InputEvent::Key { code, kind } => match kind {
                    KeyEventKind::Press => self.on_browse_key(code),
                    _ => Effect::Idle,
                },
                InputEvent::Mouse { event, terminal_height, at_millis } => self.on_browse_mouse(
                    event,
                    terminal_height,
                    at_millis,
                ),
                _ => Effect::Idle,
            }
        }
    }

    /// Takes the listing that [`Effect::ListDirectory`] asked for: the
    /// node at `idx_path` is expanded with it, and the selection is brought
    /// into range.
    pub fn directory_listed(&mut self, idx_path: &[usize], listing: Vec<FileNode>)
        ensures
            final(self)@ == old(self)@.with_listing(idx_path@, forest_view(listing@)),
            old(self)@.well_formed() ==> final(self)@.well_formed(),
    {
        match with_node_mut(self.entries.as_mut_slice(), idx_path) {
            Some(node) => {
                node.expand(listing);
            },
            None => {},
        }
        clamp_selected(self);
    }

    /// Takes the menu that [`Effect::ChooseOpener`] asked for, and shows
    /// it if it has an item and a row is selected.
    pub fn show_open_menu(&mut self, items: Vec<String>)
        ensures
            final(self)@ == old(self)@.with_menu(items.deep_view()),
            old(self)@.well_formed() ==> final(self)@.well_formed(),
    {
        if items.len() == 0 {
            return;
        }
        match self.selected {
            Some(i) => {
                let rows = flatten(self.entries.as_slice());
                if i < rows.len() {
                    self.status = labelled("Open with: ", rows[i].name.as_str());
                    self.open_menu = Some(OpenMenu { items, selected: 0 });
                }
            },
            None => {},
        }
    }

    /// Takes the outcome that [`Effect::Open`] asked for, and tells it on
    /// the status line.
    pub fn report_outcome(&mut self, report: &Report, outcome: &Result<(), OpenError>)
        ensures
            final(self)@ == old(self)@.say(report_text(report@, outcome_view(*outcome))),
    {
        let status = match report {
            Report::Opened { path } => match outcome {
                Ok(_) => labelled("Opening ", path.as_str()),
                Err(e) => {
                    let mut text = labelled("Failed to open ", path.as_str());
                    append(&mut text, ": ");
                    append(&mut text, e.message().as_str());
                    text
                },
            },
            Report::Launched { name } => match outcome {
                Ok(_) => labelled("Launched opener for ", name.as_str()),
                Err(e) => labelled("Open failed: ", e.message().as_str()),
            },
        };
        self.status = status;
    }
}

/// A selection that was brought into range is a visible row.
pub proof fn lemma_clamped_in_range(selected: Option<usize>, count: nat)
    ensures
        clamped(selected, count) matches Some(i) ==> i < count,
        count == 0 ==> clamped(selected, count) is None,
{
}

/// Where the last of `before` rows was selected and fewer rows are left,
/// the selection moves to the last row that is left, or goes where none is
/// left.
pub proof fn lemma_clamp_after_shrink(before: nat, after: nat)
    requires
        after < before <= usize::MAX,
    ensures
        after == 0 ==> clamped(Some((before - 1) as usize), after) is None,
        after > 0 ==> clamped(Some((before - 1) as usize), after) == Some((after - 1) as usize),
{
}

/// Of two clicks on one row, the second makes a double click exactly where
/// it comes no more than [`DOUBLE_CLICK_MILLIS`] after the first. Then the
/// click is forgotten; otherwise the second click is remembered in place
/// of the first, and nothing else is done.
pub proof fn lemma_second_click(state: AppView, i: int, first: u64, second: u64)
    requires
        0 <= i < state.rows().len(),
        i <= usize::MAX,
        !double_click(state.last_click, i as usize, first),
        first <= second,
    ensures
        ({
            let clicked = state.click(i, first).0;
            &&& clicked.last_click == Some((i as usize, first))
            &&& double_click(clicked.last_click, i as usize, second) <==> second - first
                <= DOUBLE_CLICK_MILLIS
            &&& second - first <= DOUBLE_CLICK_MILLIS ==> clicked.click(i, second).0.last_click
                is None
            &&& second - first > DOUBLE_CLICK_MILLIS ==> clicked.click(i, second) == (
                AppView { last_click: Some((i as usize, second)), ..clicked },
                EffectView::Idle,
            )
        }),
{
    let clicked = state.click(i, first).0;
    assert(clicked.rows() == state.rows());
    if second - first > DOUBLE_CLICK_MILLIS {
        assert(clicked.select(i) == clicked);
    }
}

/// The tree of every state that the machine holds is indexable, so what is
/// proved of indexable forests holds of it.
pub proof fn lemma_state_is_indexable(app: App)
    ensures
        indexable(app@.entries),
{
    assert(app.entries@.len() == app.entries.len());
    lemma_views_are_indexable(app.entries@);
}

/// The right arrow on a collapsed directory asks for its listing, by the
/// index path and the path of the selected row, and says on the status
/// line that the directory was expanded. Nothing else changes.
pub proof fn lemma_right_asks_for_listing(state: AppView)
    requires
        state.well_formed(),
        indexable(state.entries),
        state.open_menu is None,
        state.selected_row() matches Some(row) && row.is_dir && !row.is_expanded,
    ensures
        ({
            let row = state.selected_row()->0;
            state.step(InputEvent::Key { code: KeyCode::Right, kind: KeyEventKind::Press }) == (
                state.say("Expanded "@ + row.name),
                EffectView::ListDirectory { idx_path: row.idx_path, path: row.path },
            )
        }),
{
    lemma_rows_show_nodes(state.entries, state.selected->0 as int);
}

/// Enter on a file asks for the file to be opened by default, by the path
/// of the selected row. The state does not change.
pub proof fn lemma_enter_opens_file(state: AppView)
    requires
        state.well_formed(),
        state.open_menu is None,
        state.selected_row() matches Some(row) && !row.is_dir,
    ensures
        ({
            let row = state.selected_row()->0;
            state.step(InputEvent::Key { code: KeyCode::Enter, kind: KeyEventKind::Press }) == (
                state,
                EffectView::Open {
                    spec: None,
                    path: row.path,
                    report: ReportView::Opened { path: row.path },
                },
            )
        }),
{
}

/// When the listing of the collapsed directory on the visible row `k` has
/// come, the directory is expanded and the rows of the listing stand right
/// behind its row. The other rows are as before, and so is the selection.
pub proof fn lemma_listing_shows_behind_row(state: AppView, k: int, listing: Seq<NodeView>)
    requires
        state.well_formed(),
        indexable(state.entries),
        0 <= k < state.rows().len(),
        state.rows()[k].is_dir,
        !state.rows()[k].is_expanded,
    ensures
        ({
            let row = state.rows()[k];
            let next = state.with_listing(row.idx_path, listing);
            &&& next.rows() == state.rows().take(k) + seq![RowView { is_expanded: true, ..row }]
                + forest_rows(listing, row.idx_path, listing.len()) + state.rows().skip(k + 1)
            &&& next.selected == state.selected
        }),
{
    lemma_rows_show_nodes(state.entries, k);
    lemma_rows_after_expand(state.entries, k, listing);
}

/// Collapsing the expanded directory on the visible row `k` takes away
/// the rows of what it held, and leaves the selection on a visible row, or
/// nowhere if no row is left.
pub proof fn lemma_collapse_hides_rows(state: AppView, k: int, label: Seq<char>)
    requires
        indexable(state.entries),
        0 <= k < state.rows().len(),
        state.rows()[k].is_dir,
        state.rows()[k].is_expanded,
    ensures
        ({
            let row = state.rows()[k];
            let held = forest_rows(
                node_at(state.entries, row.idx_path)->0.children,
                row.idx_path,
                node_at(state.entries, row.idx_path)->0.children.len(),
            );
            let next = state.collapse(row, label).clamp();
            &&& next.rows() == state.rows().take(k) + seq![RowView { is_expanded: false, ..row }]
                + state.rows().skip(k + 1 + held.len())
            &&& next.rows().len() == state.rows().len() - held.len()
            &&& next.selected == clamped(state.selected, next.rows().len())
            &&& next.selected matches Some(i) ==> i < next.rows().len()
        }),
{
    lemma_rows_show_nodes(state.entries, k);
    lemma_rows_after_collapse(state.entries, k);
}

/// Collapsing a row keeps the tree well formed.
pub proof fn lemma_collapse_keeps_tree_well_formed(state: AppView, row: RowView, label: Seq<char>)
    requires
        forest_well_formed(state.entries),
    ensures
        forest_well_formed(state.collapse(row, label).entries),
{
    lemma_node_at_well_formed(state.entries, row.idx_path);
    match node_at(state.entries, row.idx_path) {
        Some(node) => {
            lemma_toggle_keeps_well_formed(node, Seq::empty());
            lemma_replace_keeps_well_formed(state.entries, row.idx_path, node.collapsed());
        },
        None => {},
    }
}

/// No input event breaks the invariant of the tree: after it, as before,
/// only directories are expanded and only expanded nodes have children.
pub proof fn lemma_step_keeps_tree_well_formed(state: AppView, event: InputEvent)
    requires
        forest_well_formed(state.entries),
    ensures
        forest_well_formed(state.step(event).0.entries),
{
    if state.open_menu is None {
        match event {
            InputEvent::Key { code, kind } => {
                match state.selected_row() {
                    Some(row) => {
                        lemma_collapse_keeps_tree_well_formed(state, row, "Collapsed "@);
                        lemma_collapse_keeps_tree_well_formed(state, row, "Collapsed folder: "@);
                    },
                    None => {},
                }
            },
            InputEvent::Mouse { event, terminal_height, at_millis } => {
                match clicked_row(event.row, terminal_height) {
                    Some(i) => {
                        if i < state.rows().len() {
                            lemma_collapse_keeps_tree_well_formed(
                                state.select(i as int),
                                state.rows()[i as int],
                                "Collapsed "@,
                            );
                        }
                    },
                    None => {},
                }
            },
            _ => {},
        }
    }
}

/// A listing of well-formed nodes keeps the tree well formed.
pub proof fn lemma_listing_keeps_tree_well_formed(
    state: AppView,
    path: Seq<usize>,
    listing: Seq<NodeView>,
)
    requires
        forest_well_formed(state.entries),
        forest_well_formed(listing),
    ensures
        forest_well_formed(state.with_listing(path, listing).entries),
{
    lemma_node_at_well_formed(state.entries, path);
    match node_at(state.entries, path) {
        Some(node) => {
            lemma_toggle_keeps_well_formed(node, listing);
            lemma_replace_keeps_well_formed(state.entries, path, node.expanded(listing));
        },
        None => {},
    }
}

/// Every input event leaves the state well formed.
pub proof fn lemma_step_keeps_well_formed(state: AppView, event: InputEvent)
    requires
        state.well_formed(),
    ensures
        state.step(event).0.well_formed(),
{
}

} // verus!
