//! A window with tabs: each holds an editor, the settings, or a launcher to open a
//! folder with.

use crate::nvim;
use crate::nvim::prefixed;
use crate::paths;
use crate::paths::FilePath;
use crate::recents;
use crate::recents::MAX_RECENTS;
use crate::text;
use vstd::prelude::*;
use vstd::string::*;

verus! {

/// The colours of a window, `0xRRGGBB`.
#[derive(Clone, Copy, Debug, PartialEq, Eq)]
pub struct Theme {
    pub panel: u32,
    pub raised: u32,
    pub border: u32,
    pub text: u32,
    pub muted: u32,
    pub accent: u32,
    pub error: u32,
}

/// The colours of a dark window.
pub open spec fn dark_theme() -> Theme {
    Theme {
        panel: 0x222529,
        raised: 0x2d3035,
        border: 0x3a3d42,
        text: 0xe7e4de,
        muted: 0x92908b,
        accent: 0x6ea8fe,
        error: 0xd58a7b,
    }
}

/// The colours of a light window.
pub open spec fn light_theme() -> Theme {
    Theme {
        panel: 0xf8f7f5,
        raised: 0xffffff,
        border: 0xdedbd6,
        text: 0x343330,
        muted: 0x77746f,
        accent: 0x1769c2,
        error: 0xa94c40,
    }
}

impl Theme {
    /// The colours of a dark or a light window.
    pub fn for_dark(dark: bool) -> (theme: Theme)
        ensures
            theme == if dark {
                dark_theme()
            } else {
                light_theme()
            },
    {
        if dark {
            Theme {
                panel: 0x222529,
                raised: 0x2d3035,
                border: 0x3a3d42,
                text: 0xe7e4de,
                muted: 0x92908b,
                accent: 0x6ea8fe,
                error: 0xd58a7b,
            }
        } else {
            Theme {
                panel: 0xf8f7f5,
                raised: 0xffffff,
                border: 0xdedbd6,
                text: 0x343330,
                muted: 0x77746f,
                accent: 0x1769c2,
                error: 0xa94c40,
            }
        }
    }

    /// The colours that an editor starts with: for text, background, and
    /// underlines.
    pub fn default_colors(&self) -> (colors: (u32, u32, u32))
        ensures
            colors == (self.text, self.panel, self.text),
    {
        (self.text, self.panel, self.text)
    }
}

/// The action of bringing the tab at an index to the front.
#[derive(Clone, Debug, PartialEq)]
pub struct SelectWorkspace {
    pub index: usize,
}

/// What a key of the application does.
#[derive(Clone, Debug, PartialEq)]
pub enum Command {
    Quit,
    NewWorkspace,
    CloseWorkspace,
    OpenFolder,
    OpenSettings,
    Select(SelectWorkspace),
}

/// The keys of the application and what they do. The digits select tabs, the first with
/// one.
pub fn key_bindings() -> (bindings: Vec<(&'static str, Command)>)
    ensures
        bindings@ == seq![
            ("cmd-q", Command::Quit),
            ("cmd-t", Command::NewWorkspace),
            ("cmd-w", Command::CloseWorkspace),
            ("cmd-o", Command::OpenFolder),
            ("cmd-,", Command::OpenSettings),
            ("cmd-1", Command::Select(SelectWorkspace { index: 0 })),
            ("cmd-2", Command::Select(SelectWorkspace { index: 1 })),
            ("cmd-3", Command::Select(SelectWorkspace { index: 2 })),
            ("cmd-4", Command::Select(SelectWorkspace { index: 3 })),
            ("cmd-5", Command::Select(SelectWorkspace { index: 4 })),
            ("cmd-6", Command::Select(SelectWorkspace { index: 5 })),
            ("cmd-7", Command::Select(SelectWorkspace { index: 6 })),
            ("cmd-8", Command::Select(SelectWorkspace { index: 7 })),
            ("cmd-9", Command::Select(SelectWorkspace { index: 8 })),
        ],
{
    vec![
        ("cmd-q", Command::Quit),
        ("cmd-t", Command::NewWorkspace),
        ("cmd-w", Command::CloseWorkspace),
        ("cmd-o", Command::OpenFolder),
        ("cmd-,", Command::OpenSettings),
        ("cmd-1", Command::Select(SelectWorkspace { index: 0 })),
        ("cmd-2", Command::Select(SelectWorkspace { index: 1 })),
        ("cmd-3", Command::Select(SelectWorkspace { index: 2 })),
        ("cmd-4", Command::Select(SelectWorkspace { index: 3 })),
        ("cmd-5", Command::Select(SelectWorkspace { index: 4 })),
        ("cmd-6", Command::Select(SelectWorkspace { index: 5 })),
        ("cmd-7", Command::Select(SelectWorkspace { index: 6 })),
        ("cmd-8", Command::Select(SelectWorkspace { index: 7 })),
        ("cmd-9", Command::Select(SelectWorkspace { index: 8 })),
    ]
}

/// The commands and their keys, for people to read.
pub fn shortcuts() -> (listed: Vec<(&'static str, &'static str)>)
    ensures
        listed@ == seq![
            ("New Workspace", "⌘T"),
            ("Open Folder", "⌘O"),
            ("Close Tab", "⌘W"),
            ("Open Settings", "⌘,"),
            ("Select Tab 1–9", "⌘1–9"),
            ("Quit Nuvi", "⌘Q"),
        ],
{
    vec![
        ("New Workspace", "⌘T"),
        ("Open Folder", "⌘O"),
        ("Close Tab", "⌘W"),
        ("Open Settings", "⌘,"),
        ("Select Tab 1–9", "⌘1–9"),
        ("Quit Nuvi", "⌘Q"),
    ]
}

/// What a tab holds.
#[derive(Clone, Copy, Debug, PartialEq, Eq, Structural)]
pub enum TabContent {
    Launcher,
    Settings,
    /// The editor that goes by the number of the tab.
    Editor,
}

/// A tab of a window.
#[derive(Debug, PartialEq, Eq)]
pub struct WorkspaceTab {
    pub id: usize,
    pub title: String,
    /// The title that Neovim set, shown on the window while the tab is in front. The
    /// label of the tab stays the name of the workspace.
    pub window_title: Option<String>,
    pub content: TabContent,
}

/// What a tab has.
#[verifier::ext_equal]
pub struct TabView {
    pub id: usize,
    pub title: Seq<char>,
    pub window_title: Option<Seq<char>>,
    pub content: TabContent,
}

impl View for WorkspaceTab {
    type V = TabView;

    open spec fn view(&self) -> TabView {
        TabView {
            id: self.id,
            title: self.title@,
            window_title: nvim::text_view(self.window_title),
            content: self.content,
        }
    }
}

impl TabView {
    /// The title of the window while the tab is in front.
    pub open spec fn shown_title(self) -> Seq<char> {
        match self.window_title {
            Some(title) => title,
            None => self.title,
        }
    }
}

/// What a list of tabs holds.
pub open spec fn tabs_view(tabs: Seq<WorkspaceTab>) -> Seq<TabView> {
    Seq::new(tabs.len(), |i: int| tabs[i]@)
}

/// Something that is to be done outside the window's own state.
#[derive(Debug)]
pub enum Effect {
    /// Draw anew.
    Notify,
    SetTitle(String),
    /// Keys go to the window itself.
    FocusWindow,
    /// The editor of a tab comes to the front and gets the keys.
    ActivateEditor(usize),
    /// The editor of a tab is no longer in front.
    DeactivateEditor(usize),
    /// Start the editor of a tab.
    OpenEditor { id: usize, arguments: Vec<Vec<u8>>, directory: Option<FilePath> },
    /// Ask the Neovim of a tab to quit, which the user may refuse.
    ConfirmQuit(usize),
    /// Write down the folders that were opened last.
    SaveRecents { report: bool },
    /// Let the user pick a folder.
    PromptFolder,
    /// Ask the user whether to quit.
    PromptQuit,
    RemoveWindow,
}

/// What an effect holds.
#[verifier::ext_equal]
pub enum EffectView {
    Notify,
    SetTitle(Seq<char>),
    FocusWindow,
    ActivateEditor(usize),
    DeactivateEditor(usize),
    OpenEditor { id: usize, arguments: Seq<Seq<u8>>, directory: Option<Seq<u8>> },
    ConfirmQuit(usize),
    SaveRecents { report: bool },
    PromptFolder,
    PromptQuit,
    RemoveWindow,
}

impl View for Effect {
    type V = EffectView;

    open spec fn view(&self) -> EffectView {
        match *self {
            Effect::Notify => EffectView::Notify,
            Effect::SetTitle(title) => EffectView::SetTitle(title@),
            Effect::FocusWindow => EffectView::FocusWindow,
            Effect::ActivateEditor(id) => EffectView::ActivateEditor(id),
            Effect::DeactivateEditor(id) => EffectView::DeactivateEditor(id),
            Effect::OpenEditor { id, arguments, directory } => EffectView::OpenEditor {
                id,
                arguments: text::lists_view(arguments@),
                directory: paths::path_view(directory),
            },
            Effect::ConfirmQuit(id) => EffectView::ConfirmQuit(id),
            Effect::SaveRecents { report } => EffectView::SaveRecents { report },
            Effect::PromptFolder => EffectView::PromptFolder,
            Effect::PromptQuit => EffectView::PromptQuit,
            Effect::RemoveWindow => EffectView::RemoveWindow,
        }
    }
}

/// What a list of effects holds.
pub open spec fn effects_view(effects: Seq<Effect>) -> Seq<EffectView> {
    Seq::new(effects.len(), |i: int| effects[i]@)
}

/// A window with tabs.
#[derive(Debug)]
pub struct WorkspaceWindow {
    pub tabs: Vec<WorkspaceTab>,
    /// The index of the tab in front.
    pub active: usize,
    pub next_id: usize,
    /// The folders that were opened last, the newest first.
    pub recents: Vec<FilePath>,
    /// A message to show.
    pub status: Option<String>,
    /// The editors are being closed one after the other, and then the window.
    pub closing_window: bool,
    /// The user is being asked whether to quit.
    pub confirming_window_close: bool,
    pub allow_window_close: bool,
    /// What is to be done, in order.
    pub effects: Vec<Effect>,
}

/// What a window holds.
#[verifier::ext_equal]
pub struct WindowView {
    pub tabs: Seq<TabView>,
    pub active: usize,
    pub next_id: usize,
    pub recents: Seq<Seq<u8>>,
    pub status: Option<Seq<char>>,
    pub closing_window: bool,
    pub confirming_window_close: bool,
    pub allow_window_close: bool,
    pub effects: Seq<EffectView>,
}

impl View for WorkspaceWindow {
    type V = WindowView;

    open spec fn view(&self) -> WindowView {
        WindowView {
            tabs: tabs_view(self.tabs@),
            active: self.active,
            next_id: self.next_id,
            recents: paths::paths_view(self.recents@),
            status: nvim::text_view(self.status),
            closing_window: self.closing_window,
            confirming_window_close: self.confirming_window_close,
            allow_window_close: self.allow_window_close,
            effects: effects_view(self.effects@),
        }
    }
}

/// What is drawn for a tab in the bar at the top of the window.
#[derive(Debug, PartialEq, Eq)]
pub struct TabLabel {
    pub id: usize,
    pub title: String,
    pub active: bool,
    pub separator_after: bool,
}

impl TabLabel {
    /// Whether this is what is drawn for the tab at an index.
    pub open spec fn labels(self, window: WindowView, index: int) -> bool {
        &&& self.id == window.tabs[index].id
        &&& self.title@ == window.tabs[index].title
        &&& self.active == (index == window.active)
        &&& self.separator_after == has_separator(
            window.tabs.len() as int,
            window.active as int,
            index,
        )
    }
}

/// What the launcher shows for a folder that was opened before.
#[derive(Debug)]
pub struct RecentRow {
    pub path: FilePath,
    pub name: String,
    pub parent: String,
    /// There is a line below it, to part it from the next.
    pub divider: bool,
}

impl RecentRow {
    /// Whether this is what is shown for the folder at an index.
    pub open spec fn lists(self, listed: Seq<Seq<u8>>, home: Option<Seq<u8>>, index: int) -> bool {
        &&& self.path@ == listed[index]
        &&& self.name@ == recents::name_of(listed[index])
        &&& self.parent@ == recents::shown_parent(listed[index], home)
        &&& self.divider == (index + 1 < listed.len())
    }
}

/// What a tab is looked for by.
#[derive(Clone, Copy, Debug, PartialEq, Eq)]
pub enum Wanted {
    Id(usize),
    Content(TabContent),
}

impl Wanted {
    /// Whether a tab is one that is looked for.
    pub open spec fn fits(self, tab: TabView) -> bool {
        match self {
            Wanted::Id(id) => tab.id == id,
            Wanted::Content(content) => tab.content == content,
        }
    }
}

/// The first tab from an index on that is looked for.
pub open spec fn first_from(tabs: Seq<TabView>, wanted: Wanted, at: int) -> Option<int>
    decreases tabs.len() - at,
{
    if at < 0 || at >= tabs.len() {
        None
    } else if wanted.fits(tabs[at]) {
        Some(at)
    } else {
        first_from(tabs, wanted, at + 1)
    }
}

/// The first tab that is looked for.
pub open spec fn first_of(tabs: Seq<TabView>, wanted: Wanted) -> Option<int> {
    first_from(tabs, wanted, 0)
}

/// Whether a tab is drawn with a line after it: neither it nor the next one is in
/// front, and there is a next one.
pub open spec fn has_separator(count: int, active: int, index: int) -> bool {
    index != active && index + 1 < count && index + 1 != active
}

/// Whether tabs go by different numbers that were handed out, and there is one tab with
/// the settings at most.
#[verifier::opaque]
pub open spec fn tabs_wf(tabs: Seq<TabView>, next_id: usize) -> bool {
    &&& forall|i: int| 0 <= i < tabs.len() ==> (#[trigger] tabs[i]).id < next_id
    &&& forall|i: int, j: int|
        0 <= i < j < tabs.len() ==> (#[trigger] tabs[i]).id != (#[trigger] tabs[j]).id
    &&& forall|i: int, j: int|
        0 <= i < j < tabs.len() ==> !((#[trigger] tabs[i]).content == TabContent::Settings && (
        #[trigger] tabs[j]).content == TabContent::Settings)
}

proof fn lemma_no_tabs_wf(next_id: usize)
    ensures
        tabs_wf(Seq::empty(), next_id),
{
    reveal(tabs_wf);
}

/// Tabs stay well formed when one is added under the next number.
proof fn lemma_tabs_wf_push(tabs: Seq<TabView>, next_id: usize, tab: TabView)
    requires
        tabs_wf(tabs, next_id),
        next_id < usize::MAX,
        tab.id == next_id,
        tab.content == TabContent::Settings ==> forall|i: int|
            0 <= i < tabs.len() ==> (#[trigger] tabs[i]).content != TabContent::Settings,
    ensures
        tabs_wf(tabs.push(tab), (next_id + 1) as usize),
{
    reveal(tabs_wf);
}

/// Tabs stay well formed when one is taken out.
proof fn lemma_tabs_wf_remove(tabs: Seq<TabView>, next_id: usize, index: int)
    requires
        tabs_wf(tabs, next_id),
        0 <= index < tabs.len(),
    ensures
        tabs_wf(tabs.remove(index), next_id),
{
    reveal(tabs_wf);
    let left = tabs.remove(index);
    assert forall|i: int| 0 <= i < left.len() implies #[trigger] left[i] == if i < index {
        tabs[i]
    } else {
        tabs[i + 1]
    } by {}
}

/// Tabs stay well formed when one is replaced by an editor under the next number.
proof fn lemma_tabs_wf_replace(tabs: Seq<TabView>, next_id: usize, index: int, tab: TabView)
    requires
        tabs_wf(tabs, next_id),
        next_id < usize::MAX,
        0 <= index < tabs.len(),
        tab.id == next_id,
        tab.content != TabContent::Settings,
    ensures
        tabs_wf(tabs.update(index, tab), (next_id + 1) as usize),
{
    reveal(tabs_wf);
}

/// Tabs stay well formed when one gets another title.
proof fn lemma_tabs_wf_rename(tabs: Seq<TabView>, next_id: usize, index: int, tab: TabView)
    requires
        tabs_wf(tabs, next_id),
        0 <= index < tabs.len(),
        tab.id == tabs[index].id,
        tab.content == tabs[index].content,
    ensures
        tabs_wf(tabs.update(index, tab), next_id),
{
    reveal(tabs_wf);
}

impl WindowView {
    /// Whether the tab in front is one of the tabs, tabs go by different numbers that
    /// were handed out, there is one tab with the settings at most, and no more
    /// folders are remembered than there should be.
    pub open spec fn wf(self) -> bool {
        &&& self.tabs.len() > 0 ==> self.active < self.tabs.len()
        &&& self.tabs.len() == 0 ==> self.active == 0
        &&& tabs_wf(self.tabs, self.next_id)
        &&& self.recents.len() <= MAX_RECENTS
    }

    /// With one thing more to be done.
    pub open spec fn emit(self, effect: EffectView) -> WindowView {
        WindowView { effects: self.effects.push(effect), ..self }
    }

    /// After the tab in front is told that it no longer is.
    pub open spec fn deactivated(self) -> WindowView {
        if self.active < self.tabs.len() && self.tabs[self.active as int].content
            == TabContent::Editor {
            self.emit(EffectView::DeactivateEditor(self.tabs[self.active as int].id))
        } else {
            self
        }
    }

    /// After a tab came to the front, if there is one at the index.
    pub open spec fn activated(self, index: int) -> WindowView {
        if 0 <= index < self.tabs.len() {
            let tab = self.tabs[index];
            let focus = match tab.content {
                TabContent::Editor => EffectView::ActivateEditor(tab.id),
                _ => EffectView::FocusWindow,
            };
            WindowView { active: index as usize, ..self.deactivated() }.emit(
                EffectView::SetTitle(tab.shown_title()),
            ).emit(focus).emit(EffectView::Notify)
        } else {
            self
        }
    }

    /// With the next number handed out.
    pub open spec fn with_next_id(self) -> WindowView {
        WindowView { next_id: (self.next_id + 1) as usize, ..self }
    }

    /// With one tab more, behind the others.
    pub open spec fn with_tab(self, title: Seq<char>, content: TabContent) -> WindowView {
        WindowView {
            tabs: self.tabs.push(
                TabView { id: self.next_id, title, window_title: None, content },
            ),
            ..self.with_next_id()
        }
    }

    /// With a launcher more.
    pub open spec fn with_launcher(self) -> WindowView {
        self.with_tab("New Workspace"@, TabContent::Launcher)
    }

    /// After a launcher was opened and came to the front.
    pub open spec fn with_new_workspace(self) -> WindowView {
        let opened = WindowView { closing_window: false, ..self }.deactivated().with_launcher();
        WindowView { active: (opened.tabs.len() - 1) as usize, ..opened }.emit(
            EffectView::FocusWindow,
        ).emit(EffectView::SetTitle("Nuvi"@)).emit(EffectView::Notify)
    }

    /// After the settings came to the front, in their tab or in a new one.
    pub open spec fn with_settings(self) -> WindowView {
        let open = WindowView { closing_window: false, ..self };
        match first_of(open.tabs, Wanted::Content(TabContent::Settings)) {
            Some(index) => open.activated(index),
            None => open.with_tab("Settings"@, TabContent::Settings).activated(
                open.tabs.len() as int,
            ),
        }
    }

    /// After a tab was taken out. A window that is not closing keeps at least a
    /// launcher.
    pub open spec fn removed(self, index: int) -> WindowView {
        let fewer = WindowView { tabs: self.tabs.remove(index), ..self };
        let filled = if fewer.tabs.len() == 0 && !self.closing_window {
            fewer.with_launcher()
        } else {
            fewer
        };
        let last: int = if filled.tabs.len() == 0 {
            0
        } else {
            filled.tabs.len() - 1
        };
        let active: int = if filled.active < last {
            filled.active as int
        } else {
            last
        };
        WindowView { active: active as usize, ..filled }.activated(active).emit(EffectView::Notify)
    }

    /// After an editor was opened, in the tab in front or in a new one, which comes to
    /// the front.
    pub open spec fn with_editor(
        self,
        arguments: Seq<Seq<u8>>,
        directory: Option<Seq<u8>>,
        path: Option<Seq<u8>>,
        replace_active: bool,
    ) -> WindowView {
        let id = self.next_id;
        let title = match path {
            Some(path) => recents::name_of(path),
            None => "Workspace"@,
        };
        let tab = TabView { id, title, window_title: None, content: TabContent::Editor };
        let started = self.with_next_id().emit(
            EffectView::OpenEditor { id, arguments, directory },
        );
        if replace_active {
            WindowView {
                tabs: started.tabs.update(started.active as int, tab),
                ..started
            }.activated(started.active as int)
        } else {
            WindowView {
                tabs: started.tabs.push(tab),
                active: started.tabs.len() as usize,
                ..started
            }.activated(started.tabs.len() as int)
        }
    }

    /// With a folder put at the front of those that were opened last.
    pub open spec fn with_recent(self, path: Seq<u8>, report: bool) -> WindowView {
        WindowView {
            recents: recents::promoted(self.recents, path, MAX_RECENTS as int),
            ..self
        }.emit(EffectView::SaveRecents { report })
    }

    /// Whether the tab in front is a launcher.
    pub open spec fn on_launcher(self) -> bool {
        self.active < self.tabs.len() && self.tabs[self.active as int].content
            == TabContent::Launcher
    }

    /// After a folder was opened, in place of a launcher or in a new tab. One that is
    /// no longer there is forgotten.
    pub open spec fn with_folder(self, path: Seq<u8>, is_folder: bool) -> WindowView {
        let open = WindowView { closing_window: false, ..self };
        if !is_folder {
            WindowView {
                status: Some("That folder is no longer available."@),
                recents: recents::others(open.recents, path),
                ..open
            }.emit(EffectView::SaveRecents { report: true }).emit(EffectView::Notify)
        } else {
            WindowView {
                status: None,
                ..open.deactivated().with_editor(
                    seq![path],
                    Some(path),
                    Some(path),
                    open.on_launcher(),
                ).with_recent(path, false)
            }
        }
    }

    /// After the user asked to close the tab in front. The last launcher stays. An
    /// editor is closed if it can be at once, and is otherwise asked to quit.
    pub open spec fn with_close_request(self, at_once: bool) -> WindowView {
        if self.active >= self.tabs.len() {
            self
        } else {
            match self.tabs[self.active as int].content {
                TabContent::Launcher => if self.tabs.len() > 1 {
                    self.removed(self.active as int)
                } else {
                    self
                },
                TabContent::Settings => self.removed(self.active as int),
                TabContent::Editor => if at_once {
                    self.removed(self.active as int)
                } else {
                    self.emit(EffectView::ConfirmQuit(self.tabs[self.active as int].id))
                },
            }
        }
    }

    /// After the editors were closed that can be, one after the other, while the
    /// window is closing. The first that cannot is asked to quit. The result says
    /// whether none is left.
    pub open spec fn editors_closed(self, at_once: Seq<usize>) -> (WindowView, bool)
        decreases self.tabs.len(),
    {
        match first_of(self.tabs, Wanted::Content(TabContent::Editor)) {
            None => (WindowView { allow_window_close: true, ..self }, true),
            Some(index) => {
                let id = self.tabs[index].id;
                let shown = self.activated(index);
                if !at_once.contains(id) || !self.closing_window || !(0 <= index
                    < self.tabs.len()) {
                    (shown.emit(EffectView::ConfirmQuit(id)), false)
                } else {
                    shown.removed(index).editors_closed(at_once)
                }
            },
        }
    }

    /// After the editors were closed that can be; with the last one the window goes.
    pub open spec fn closed_further(self, at_once: Seq<usize>) -> WindowView {
        let (window, done) = self.editors_closed(at_once);
        if done {
            window.emit(EffectView::RemoveWindow)
        } else {
            window
        }
    }

    /// After the editor of a tab is gone.
    pub open spec fn with_editor_closed(self, id: usize, at_once: Seq<usize>) -> WindowView {
        match first_of(self.tabs, Wanted::Id(id)) {
            Some(index) => {
                let fewer = self.removed(index);
                if fewer.closing_window {
                    fewer.closed_further(at_once)
                } else {
                    fewer
                }
            },
            None => self,
        }
    }

    /// After the user asked to close the tab with a number.
    pub open spec fn with_tab_close_request(self, id: usize, at_once: bool) -> WindowView {
        match first_of(self.tabs, Wanted::Id(id)) {
            Some(index) => self.activated(index).with_close_request(at_once),
            None => self,
        }
    }

    /// After the user asked to close the window.
    pub open spec fn with_window_close_request(self) -> WindowView {
        if self.allow_window_close || self.confirming_window_close || self.closing_window {
            self
        } else {
            WindowView { confirming_window_close: true, ..self }.emit(EffectView::PromptQuit)
        }
    }

    /// After the user answered whether to quit.
    pub open spec fn with_quit_answer(self, confirmed: bool, at_once: Seq<usize>) -> WindowView {
        let answered = WindowView { confirming_window_close: false, ..self };
        if confirmed {
            WindowView { closing_window: true, ..answered }.closed_further(at_once)
        } else {
            answered
        }
    }

    /// After the editor of a tab set a title.
    pub open spec fn with_title(self, id: usize, title: Seq<char>) -> WindowView {
        match first_of(self.tabs, Wanted::Id(id)) {
            Some(index) => {
                let renamed = WindowView {
                    tabs: self.tabs.update(
                        index,
                        TabView { window_title: Some(title), ..self.tabs[index] },
                    ),
                    ..self
                };
                if index == self.active {
                    renamed.emit(EffectView::SetTitle(title))
                } else {
                    renamed
                }
            },
            None => self,
        }
    }
}

/// A tab that is found is one that was looked for, and no tab before it is.
proof fn lemma_first_from(tabs: Seq<TabView>, wanted: Wanted, at: int)
    requires
        0 <= at,
    ensures
        match first_from(tabs, wanted, at) {
            Some(index) => {
                &&& at <= index < tabs.len()
                &&& wanted.fits(tabs[index])
                &&& forall|i: int| at <= i < index ==> !wanted.fits(#[trigger] tabs[i])
            },
            None => forall|i: int| at <= i < tabs.len() ==> !wanted.fits(#[trigger] tabs[i]),
        },
    decreases tabs.len() - at,
{
    if at < tabs.len() && !wanted.fits(tabs[at]) {
        lemma_first_from(tabs, wanted, at + 1);
    }
}

/// Finds the last of some arguments that is a folder, given which are: the folder to
/// work in.
pub fn last_folder(is_folder: &[bool]) -> (at: Option<usize>)
    ensures
        match at {
            Some(found) => {
                &&& found < is_folder@.len()
                &&& is_folder@[found as int]
                &&& forall|i: int| found < i < is_folder@.len() ==> !(#[trigger] is_folder@[i])
            },
            None => forall|i: int| 0 <= i < is_folder@.len() ==> !(#[trigger] is_folder@[i]),
        },
{
    let mut end: usize = is_folder.len();
    while end > 0
        invariant
            end <= is_folder@.len(),
            forall|i: int| end <= i < is_folder@.len() ==> !(#[trigger] is_folder@[i]),
        decreases end,
    {
        end -= 1;
        if is_folder[end] {
            return Some(end);
        }
    }
    None
}

impl WorkspaceWindow {
    fn emit(&mut self, effect: Effect)
        ensures
            final(self)@ == old(self)@.emit(effect@),
    {
        let ghost before = self@;
        self.effects.push(effect);
        assert(self@.effects =~= before.effects.push(effect@));
    }

    /// Hands out what is to be done so far, in order.
    pub fn take_effects(&mut self) -> (effects: Vec<Effect>)
        ensures
            effects_view(effects@) == old(self)@.effects,
            final(self)@ == (WindowView { effects: Seq::empty(), ..old(self)@ }),
    {
        let mut effects: Vec<Effect> = Vec::new();
        std::mem::swap(&mut effects, &mut self.effects);
        assert(self@.effects =~= Seq::empty());
        effects
    }

    /// Finds the first tab that is looked for.
    pub fn position(&self, wanted: Wanted) -> (index: Option<usize>)
        ensures
            match index {
                Some(found) => first_of(self@.tabs, wanted) == Some(found as int) && found
                    < self.tabs@.len(),
                None => first_of(self@.tabs, wanted) is None,
            },
    {
        let mut at: usize = 0;
        while at < self.tabs.len()
            invariant
                at <= self.tabs@.len(),
                first_of(self@.tabs, wanted) == first_from(self@.tabs, wanted, at as int),
            decreases self.tabs@.len() - at,
        {
            let tab = &self.tabs[at];
            assert(self@.tabs[at as int] == tab@);
            let found = match wanted {
                Wanted::Id(id) => tab.id == id,
                Wanted::Content(content) => tab.content == content,
            };
            if found {
                return Some(at);
            }
            at += 1;
        }
        None
    }

    /// Tells the tab in front that it no longer is.
    fn deactivate_current(&mut self)
        ensures
            final(self)@ == old(self)@.deactivated(),
    {
        if self.active < self.tabs.len() {
            let tab = &self.tabs[self.active];
            assert(self@.tabs[self.active as int] == tab@);
            if tab.content == TabContent::Editor {
                let id: usize = tab.id;
                self.emit(Effect::DeactivateEditor(id));
            }
        }
    }

    /// Brings a tab to the front, if there is one at the index.
    pub fn activate(&mut self, index: usize)
        ensures
            final(self)@ == old(self)@.activated(index as int),
            old(self)@.wf() ==> final(self)@.wf(),
    {
        if index >= self.tabs.len() {
            return ;
        }
        self.deactivate_current();
        self.active = index;
        let tab = &self.tabs[index];
        assert(self@.tabs[index as int] == tab@);
        let title = match &tab.window_title {
            Some(title) => title.clone(),
            None => tab.title.clone(),
        };
        let focus = match tab.content {
            TabContent::Editor => Effect::ActivateEditor(tab.id),
            _ => Effect::FocusWindow,
        };
        self.emit(Effect::SetTitle(title));
        self.emit(focus);
        self.emit(Effect::Notify);
    }

    fn take_id(&mut self) -> (id: usize)
        requires
            old(self).next_id < usize::MAX,
        ensures
            id == old(self).next_id,
            final(self)@ == old(self)@.with_next_id(),
    {
        let id: usize = self.next_id;
        self.next_id += 1;
        id
    }

    fn push_tab(&mut self, title: &str, content: TabContent)
        requires
            old(self).next_id < usize::MAX,
        ensures
            final(self)@ == old(self)@.with_tab(title@, content),
    {
        let ghost before = self@;
        let id: usize = self.take_id();
        let tab = WorkspaceTab { id, title: title.to_owned(), window_title: None, content };
        self.tabs.push(tab);
        assert(self@.tabs =~= before.tabs.push(tab@));
    }

    fn push_launcher(&mut self)
        requires
            old(self).next_id < usize::MAX,
        ensures
            final(self)@ == old(self)@.with_launcher(),
    {
        self.push_tab("New Workspace", TabContent::Launcher);
    }

    /// Opens a launcher in a new tab.
    pub fn new_workspace(&mut self)
        requires
            old(self)@.wf(),
            old(self).next_id < usize::MAX,
        ensures
            final(self)@.wf(),
            final(self)@ == old(self)@.with_new_workspace(),
    {
        let ghost before = self@;
        self.closing_window = false;
        self.deactivate_current();
        self.push_launcher();
        proof {
            lemma_tabs_wf_push(before.tabs, before.next_id, self@.tabs.last());
        }
        self.active = self.tabs.len() - 1;
        self.emit(Effect::FocusWindow);
        self.emit(Effect::SetTitle("Nuvi".to_owned()));
        self.emit(Effect::Notify);
    }

    /// Lets the user pick a folder to open.
    pub fn choose_folder(&mut self)
        requires
            old(self)@.wf(),
        ensures
            final(self)@.wf(),
            final(self)@ == (WindowView { closing_window: false, ..old(self)@ }).emit(
                EffectView::PromptFolder,
            ),
    {
        self.closing_window = false;
        self.emit(Effect::PromptFolder);
    }

    /// Brings the settings to the front, in their tab or in a new one.
    pub fn open_settings(&mut self)
        requires
            old(self)@.wf(),
            old(self).next_id < usize::MAX,
        ensures
            final(self)@.wf(),
            final(self)@ == old(self)@.with_settings(),
    {
        self.closing_window = false;
        proof {
            lemma_first_from(self@.tabs, Wanted::Content(TabContent::Settings), 0);
        }
        match self.position(Wanted::Content(TabContent::Settings)) {
            Some(index) => self.activate(index),
            None => {
                let ghost before = self@;
                let index: usize = self.tabs.len();
                self.push_tab("Settings", TabContent::Settings);
                proof {
                    assert forall|i: int| 0 <= i < before.tabs.len() implies (
                    #[trigger] before.tabs[i]).content != TabContent::Settings by {
                        assert(!Wanted::Content(TabContent::Settings).fits(before.tabs[i]));
                    }
                    lemma_tabs_wf_push(before.tabs, before.next_id, self@.tabs.last());
                }
                self.activate(index);
            },
        }
    }

    /// Takes a tab out. A window that is not closing keeps at least a launcher.
    fn remove_tab(&mut self, index: usize)
        requires
            old(self)@.wf(),
            old(self).next_id < usize::MAX || old(self).closing_window,
            index < old(self).tabs@.len(),
        ensures
            final(self)@.wf(),
            final(self)@ == old(self)@.removed(index as int),
    {
        let ghost before = self@;
        let _ = self.tabs.remove(index);
        assert(self@.tabs =~= before.tabs.remove(index as int));
        proof {
            lemma_tabs_wf_remove(before.tabs, before.next_id, index as int);
        }
        let ghost fewer = self@;
        if self.tabs.len() == 0 && !self.closing_window {
            self.push_launcher();
            proof {
                lemma_tabs_wf_push(fewer.tabs, fewer.next_id, self@.tabs.last());
            }
        }
        let last: usize = if self.tabs.len() == 0 { 0 } else { self.tabs.len() - 1 };
        if self.active > last {
            self.active = last;
        }
        let active: usize = self.active;
        self.activate(active);
        self.emit(Effect::Notify);
    }

    /// Opens an editor, in the tab in front or in a new one.
    fn push_editor(
        &mut self,
        arguments: Vec<Vec<u8>>,
        directory: Option<FilePath>,
        path: Option<&FilePath>,
        replace_active: bool,
    )
        requires
            old(self)@.wf(),
            old(self).next_id < usize::MAX,
            replace_active ==> old(self).active < old(self).tabs@.len(),
        ensures
            final(self)@.wf(),
            final(self)@ == old(self)@.with_editor(
                text::lists_view(arguments@),
                paths::path_view(directory),
                match path {
                    Some(path) => Some(path@),
                    None => None,
                },
                replace_active,
            ),
    {
        let ghost first = self@;
        let id: usize = self.take_id();
        let title = match path {
            Some(path) => recents::workspace_name(path),
            None => "Workspace".to_owned(),
        };
        self.emit(Effect::OpenEditor { id, arguments, directory });
        let tab = WorkspaceTab { id, title, window_title: None, content: TabContent::Editor };
        let ghost added = tab@;
        let ghost before = self@;
        if replace_active {
            let active: usize = self.active;
            self.tabs.set(active, tab);
            assert(self@.tabs =~= before.tabs.update(active as int, added));
            proof {
                lemma_tabs_wf_replace(first.tabs, first.next_id, active as int, added);
            }
        } else {
            self.tabs.push(tab);
            assert(self@.tabs =~= before.tabs.push(added));
            proof {
                lemma_tabs_wf_push(first.tabs, first.next_id, added);
            }
            self.active = self.tabs.len() - 1;
        }
        let active: usize = self.active;
        self.activate(active);
    }

    /// A window that was started with arguments, the last of which that is a folder is
    /// given too. Without arguments it shows a launcher.
    pub fn new(arguments: Vec<Vec<u8>>, folder: Option<FilePath>, recents: Vec<FilePath>) -> (window:
        Self)
        requires
            recents@.len() <= MAX_RECENTS,
        ensures
            window@.wf(),
            window@ == first_window(
                text::lists_view(arguments@),
                paths::path_view(folder),
                paths::paths_view(recents@),
            ),
    {
        let mut window = WorkspaceWindow {
            tabs: Vec::new(),
            active: 0,
            next_id: 0,
            recents,
            status: None,
            closing_window: false,
            confirming_window_close: false,
            allow_window_close: false,
            effects: Vec::new(),
        };
        assert(window@.tabs =~= Seq::empty());
        assert(window@.effects =~= Seq::empty());
        proof {
            lemma_no_tabs_wf(0);
        }
        let ghost empty = window@;
        if arguments.len() == 0 {
            window.push_launcher();
            proof {
                lemma_tabs_wf_push(empty.tabs, 0, window@.tabs.last());
            }
            window.emit(Effect::FocusWindow);
        } else {
            match folder {
                Some(folder) => {
                    let directory = Some(folder.clone());
                    window.push_editor(arguments, directory, Some(&folder), false);
                    window.promote(folder, true);
                },
                None => {
                    window.push_editor(arguments, None, None, false);
                },
            }
        }
        window
    }

    fn promote(&mut self, path: FilePath, report: bool)
        requires
            old(self)@.wf(),
        ensures
            final(self)@.wf(),
            final(self)@ == old(self)@.with_recent(path@, report),
    {
        recents::promote_recent(&mut self.recents, path, MAX_RECENTS);
        self.emit(Effect::SaveRecents { report });
    }

    /// Opens a folder, in place of a launcher or in a new tab, if it is there.
    pub fn open_workspace(&mut self, path: FilePath, is_folder: bool)
        requires
            old(self)@.wf(),
            old(self).next_id < usize::MAX,
        ensures
            final(self)@.wf(),
            final(self)@ == old(self)@.with_folder(path@, is_folder),
    {
        self.closing_window = false;
        if !is_folder {
            self.status = Some("That folder is no longer available.".to_owned());
            let ghost before = self@;
            recents::forget_recent(&mut self.recents, &path);
            proof {
                recents::lemma_others(before.recents, path@, before.recents.len());
            }
            self.emit(Effect::SaveRecents { report: true });
            self.emit(Effect::Notify);
            return ;
        }
        self.deactivate_current();
        let replace = self.active < self.tabs.len() && self.tabs[self.active].content
            == TabContent::Launcher;
        let mut arguments: Vec<Vec<u8>> = Vec::new();
        arguments.push(vstd::slice::slice_to_vec(path.bytes.as_slice()));
        assert(text::lists_view(arguments@) =~= seq![path@]);
        let directory = Some(path.clone());
        self.push_editor(arguments, directory, Some(&path), replace);
        self.promote(path, false);
        self.status = None;
    }

    /// Takes up that the user asked to close the tab in front. If that holds an
    /// editor, it matters whether that may be closed at once.
    pub fn close_workspace(&mut self, at_once: bool)
        requires
            old(self)@.wf(),
            old(self).next_id < usize::MAX,
        ensures
            final(self)@.wf(),
            final(self)@ == old(self)@.with_close_request(at_once),
    {
        let active: usize = self.active;
        if active >= self.tabs.len() {
            return ;
        }
        assert(self@.tabs[active as int] == self.tabs@[active as int]@);
        match self.tabs[active].content {
            TabContent::Launcher => {
                if self.tabs.len() > 1 {
                    self.remove_tab(active);
                }
            },
            TabContent::Settings => self.remove_tab(active),
            TabContent::Editor => {
                if at_once {
                    self.remove_tab(active);
                } else {
                    let id: usize = self.tabs[active].id;
                    self.emit(Effect::ConfirmQuit(id));
                }
            },
        }
    }

    /// Takes up that the user asked to close a tab, by its number.
    pub fn close_tab(&mut self, id: usize, at_once: bool)
        requires
            old(self)@.wf(),
            old(self).next_id < usize::MAX,
        ensures
            final(self)@.wf(),
            final(self)@ == match first_of(old(self)@.tabs, Wanted::Id(id)) {
                Some(index) => old(self)@.activated(index).with_close_request(at_once),
                None => old(self)@,
            },
            final(self)@ == old(self)@.with_tab_close_request(id, at_once),
    {
        if let Some(index) = self.position(Wanted::Id(id)) {
            self.activate(index);
            self.close_workspace(at_once);
        }
    }

    /// Takes up that the user asked to close the window. The result says whether it
    /// may go at once. Otherwise the user is asked, unless they are being asked, or
    /// the window is closing already.
    pub fn request_window_close(&mut self) -> (at_once: bool)
        requires
            old(self)@.wf(),
        ensures
            final(self)@.wf(),
            at_once == old(self)@.allow_window_close,
            final(self)@ == if old(self)@.allow_window_close || old(self)@.confirming_window_close
                || old(self)@.closing_window {
                old(self)@
            } else {
                (WindowView { confirming_window_close: true, ..old(self)@ }).emit(
                    EffectView::PromptQuit,
                )
            },
            final(self)@ == old(self)@.with_window_close_request(),
    {
        if self.allow_window_close {
            return true;
        }
        if self.confirming_window_close || self.closing_window {
            return false;
        }
        self.confirming_window_close = true;
        self.emit(Effect::PromptQuit);
        false
    }

    /// Takes up the answer to whether to quit. The editors with some numbers may be
    /// closed at once.
    pub fn quit_answered(&mut self, confirmed: bool, at_once: &[usize])
        requires
            old(self)@.wf(),
        ensures
            final(self)@.wf(),
            final(self)@ == {
                let answered = WindowView { confirming_window_close: false, ..old(self)@ };
                if confirmed {
                    (WindowView { closing_window: true, ..answered }).closed_further(at_once@)
                } else {
                    answered
                }
            },
            final(self)@ == old(self)@.with_quit_answer(confirmed, at_once@),
    {
        self.confirming_window_close = false;
        if confirmed && self.begin_window_close(at_once) {
            self.emit(Effect::RemoveWindow);
        }
    }

    fn begin_window_close(&mut self, at_once: &[usize]) -> (done: bool)
        requires
            old(self)@.wf(),
        ensures
            final(self)@.wf(),
            (final(self)@, done) == (WindowView {
                closing_window: true,
                ..old(self)@
            }).editors_closed(at_once@),
    {
        self.closing_window = true;
        self.close_next_editor(at_once)
    }

    /// Closes the editors that can be closed at once, one after the other. The first
    /// that cannot is asked to quit. The result says whether none is left.
    fn close_next_editor(&mut self, at_once: &[usize]) -> (done: bool)
        requires
            old(self)@.wf(),
            old(self).closing_window,
        ensures
            final(self)@.wf(),
            (final(self)@, done) == old(self)@.editors_closed(at_once@),
    {
        let ghost start = self@;
        loop
            invariant
                self@.wf(),
                self.closing_window,
                start == old(self)@,
                start.editors_closed(at_once@) == self@.editors_closed(at_once@),
            decreases self.tabs@.len(),
        {
            proof {
                lemma_first_from(self@.tabs, Wanted::Content(TabContent::Editor), 0);
            }
            match self.position(Wanted::Content(TabContent::Editor)) {
                Some(index) => {
                    let id: usize = self.tabs[index].id;
                    assert(self@.tabs[index as int] == self.tabs@[index as int]@);
                    self.activate(index);
                    if !contains_id(at_once, id) {
                        self.emit(Effect::ConfirmQuit(id));
                        return false;
                    }
                    self.remove_tab(index);
                },
                None => {
                    self.allow_window_close = true;
                    return true;
                },
            }
        }
    }

    /// Takes up that the editor of a tab is gone. The editors with some numbers may be
    /// closed at once.
    pub fn editor_closed(&mut self, id: usize, at_once: &[usize])
        requires
            old(self)@.wf(),
            old(self).next_id < usize::MAX,
        ensures
            final(self)@.wf(),
            final(self)@ == old(self)@.with_editor_closed(id, at_once@),
    {
        if let Some(index) = self.position(Wanted::Id(id)) {
            self.remove_tab(index);
            if self.closing_window && self.close_next_editor(at_once) {
                self.emit(Effect::RemoveWindow);
            }
        }
    }

    /// Takes up that the editor of a tab set a title.
    pub fn editor_title_changed(&mut self, id: usize, title: String)
        requires
            old(self)@.wf(),
        ensures
            final(self)@.wf(),
            final(self)@ == old(self)@.with_title(id, title@),
    {
        if let Some(index) = self.position(Wanted::Id(id)) {
            let ghost before = self@;
            let shown = title.clone();
            let old_tab = &self.tabs[index];
            let tab = WorkspaceTab {
                id: old_tab.id,
                title: old_tab.title.clone(),
                window_title: Some(title),
                content: old_tab.content,
            };
            let ghost renamed = tab@;
            assert(before.tabs[index as int] == old_tab@);
            self.tabs.set(index, tab);
            assert(self@.tabs =~= before.tabs.update(index as int, renamed));
            proof {
                lemma_tabs_wf_rename(before.tabs, before.next_id, index as int, renamed);
            }
            if index == self.active {
                self.emit(Effect::SetTitle(shown));
            }
        }
    }

    /// Takes up that the user chose not to quit an editor after all: the window stays
    /// too.
    pub fn close_cancelled(&mut self)
        requires
            old(self)@.wf(),
        ensures
            final(self)@.wf(),
            final(self)@ == (WindowView { closing_window: false, ..old(self)@ }),
    {
        self.closing_window = false;
    }

    /// Takes up that the user chose a tab.
    pub fn select_workspace(&mut self, index: usize)
        requires
            old(self)@.wf(),
        ensures
            final(self)@.wf(),
            final(self)@ == (WindowView { closing_window: false, ..old(self)@ }).activated(
                index as int,
            ),
    {
        self.closing_window = false;
        self.activate(index);
    }

    /// What the tab in front holds, if there is a tab.
    pub fn active_content(&self) -> (content: Option<TabContent>)
        ensures
            content == if self@.active < self@.tabs.len() {
                Some(self@.tabs[self@.active as int].content)
            } else {
                None
            },
    {
        if self.active < self.tabs.len() {
            assert(self@.tabs[self.active as int] == self.tabs@[self.active as int]@);
            Some(self.tabs[self.active].content)
        } else {
            None
        }
    }

    /// What is drawn for each tab in the bar at the top of the window.
    pub fn tab_strip(&self) -> (labels: Vec<TabLabel>)
        ensures
            labels@.len() == self@.tabs.len(),
            forall|i: int|
                0 <= i < labels@.len() ==> (#[trigger] labels@[i]).labels(self@, i),
    {
        let mut labels: Vec<TabLabel> = Vec::new();
        while labels.len() < self.tabs.len()
            invariant
                labels@.len() <= self.tabs@.len(),
                forall|i: int|
                    0 <= i < labels@.len() ==> (#[trigger] labels@[i]).labels(self@, i),
            decreases self.tabs@.len() - labels@.len(),
        {
            let index: usize = labels.len();
            let tab = &self.tabs[index];
            assert(self@.tabs[index as int] == tab@);
            labels.push(
                TabLabel {
                    id: tab.id,
                    title: tab.title.clone(),
                    active: index == self.active,
                    separator_after: self.separator_after(index),
                },
            );
        }
        labels
    }

    /// What the launcher shows for each of the folders that were opened last.
    pub fn recent_rows(&self, home: Option<FilePath>) -> (rows: Vec<RecentRow>)
        ensures
            rows@.len() == self@.recents.len(),
            forall|i: int|
                0 <= i < rows@.len() ==> (#[trigger] rows@[i]).lists(
                    self@.recents,
                    paths::path_view(home),
                    i,
                ),
    {
        let mut rows: Vec<RecentRow> = Vec::new();
        while rows.len() < self.recents.len()
            invariant
                rows@.len() <= self.recents@.len(),
                forall|i: int|
                    0 <= i < rows@.len() ==> (#[trigger] rows@[i]).lists(
                        self@.recents,
                        paths::path_view(home),
                        i,
                    ),
            decreases self.recents@.len() - rows@.len(),
        {
            let index: usize = rows.len();
            let path = &self.recents[index];
            assert(self@.recents[index as int] == path@);
            let base = match &home {
                Some(home) => Some(home.clone()),
                None => None,
            };
            rows.push(
                RecentRow {
                    path: path.clone(),
                    name: recents::workspace_name(path),
                    parent: recents::display_parent(path, base),
                    divider: self.recents.len() - index > 1,
                },
            );
        }
        rows
    }

    /// Whether a tab is drawn with a line after it.
    pub fn separator_after(&self, index: usize) -> (separator: bool)
        requires
            index < self.tabs@.len(),
        ensures
            separator == has_separator(
                self@.tabs.len() as int,
                self@.active as int,
                index as int,
            ),
    {
        index != self.active && self.tabs.len() - index > 1 && index + 1 != self.active
    }

    /// Takes up whether the folders that were opened last could be written down.
    pub fn recents_saved(&mut self, outcome: Result<(), String>)
        requires
            old(self)@.wf(),
        ensures
            final(self)@.wf(),
            final(self)@ == match outcome {
                Ok(_) => old(self)@,
                Err(error) => WindowView {
                    status: Some("Could not save recents: "@ + error@),
                    ..old(self)@
                },
            },
    {
        if let Err(error) = outcome {
            self.status = Some(prefixed("Could not save recents: ", error.as_str()));
        }
    }

    /// Takes up whether the transparency could be written down.
    pub fn transparency_saved(&mut self, outcome: Result<(), String>)
        requires
            old(self)@.wf(),
        ensures
            final(self)@.wf(),
            final(self)@ == match outcome {
                Ok(_) => old(self)@,
                Err(error) => WindowView {
                    status: Some("Could not save background transparency: "@ + error@),
                    ..old(self)@
                },
            },
    {
        if let Err(error) = outcome {
            self.status = Some(
                prefixed("Could not save background transparency: ", error.as_str()),
            );
        }
    }
}

fn contains_id(ids: &[usize], id: usize) -> (found: bool)
    ensures
        found == ids@.contains(id),
{
    let mut at: usize = 0;
    while at < ids.len()
        invariant
            at <= ids@.len(),
            forall|i: int| 0 <= i < at ==> ids@[i] != id,
        decreases ids@.len() - at,
    {
        if ids[at] == id {
            return true;
        }
        at += 1;
    }
    false
}

/// A window that was just opened: with a launcher, or with an editor for some
/// arguments.
pub open spec fn first_window(
    arguments: Seq<Seq<u8>>,
    folder: Option<Seq<u8>>,
    recents: Seq<Seq<u8>>,
) -> WindowView {
    let empty = WindowView {
        tabs: Seq::empty(),
        active: 0,
        next_id: 0,
        recents,
        status: None,
        closing_window: false,
        confirming_window_close: false,
        allow_window_close: false,
        effects: Seq::empty(),
    };
    if arguments.len() == 0 {
        empty.with_launcher().emit(EffectView::FocusWindow)
    } else {
        let opened = empty.with_editor(arguments, folder, folder, false);
        match folder {
            Some(path) => opened.with_recent(path, true),
            None => opened,
        }
    }
}

/// A window that is not closing is never left without a tab.
pub proof fn law_a_window_keeps_a_tab(window: WindowView, index: int)
    requires
        window.wf(),
        0 <= index < window.tabs.len(),
        !window.closing_window,
    ensures
        window.removed(index).tabs.len() > 0,
        window.removed(index).active < window.removed(index).tabs.len(),
{
}

/// Every editor that is opened goes by a number that no tab has, and its tab comes to the
/// front.
pub proof fn law_every_editor_has_a_number_of_its_own(
    window: WindowView,
    arguments: Seq<Seq<u8>>,
    directory: Option<Seq<u8>>,
    path: Option<Seq<u8>>,
    replace_active: bool,
)
    requires
        window.wf(),
        window.next_id < usize::MAX,
        window.tabs.len() < usize::MAX,
        replace_active ==> window.active < window.tabs.len(),
    ensures
        ({
            let after = window.with_editor(arguments, directory, path, replace_active);
            &&& forall|i: int|
                0 <= i < window.tabs.len() ==> (#[trigger] window.tabs[i]).id != window.next_id
            &&& after.active < after.tabs.len()
            &&& after.tabs[after.active as int].id == window.next_id
            &&& after.tabs[after.active as int].content == TabContent::Editor
            &&& after.effects.contains(
                EffectView::OpenEditor { id: window.next_id, arguments, directory },
            )
        }),
{
    reveal(tabs_wf);
    let after = window.with_editor(arguments, directory, path, replace_active);
    let opening = EffectView::OpenEditor { id: window.next_id, arguments, directory };
    let at = window.effects.len() as int;
    assert(after.effects[at] == opening);
}

/// Whether every editor is among those with some numbers.
pub open spec fn all_at_once(tabs: Seq<TabView>, at_once: Seq<usize>) -> bool {
    forall|i: int|
        0 <= i < tabs.len() && (#[trigger] tabs[i]).content == TabContent::Editor
            ==> at_once.contains(tabs[i].id)
}

/// Whether a tab holds an editor.
pub open spec fn has_editor(tabs: Seq<TabView>) -> bool {
    exists|i: int| 0 <= i < tabs.len() && (#[trigger] tabs[i]).content == TabContent::Editor
}

proof fn lemma_no_editors(tabs: Seq<TabView>, at_once: Seq<usize>)
    requires
        forall|i: int|
            0 <= i < tabs.len() ==> !Wanted::Content(TabContent::Editor).fits(#[trigger] tabs[i]),
    ensures
        all_at_once(tabs, at_once),
        !has_editor(tabs),
{
    if has_editor(tabs) {
        let i = choose|i: int|
            0 <= i < tabs.len() && (#[trigger] tabs[i]).content == TabContent::Editor;
        assert(!Wanted::Content(TabContent::Editor).fits(tabs[i]));
    }
}

/// While a window is closing, a tab that is closed leaves the others as they are.
proof fn lemma_closing_takes_one_tab(window: WindowView, index: int)
    requires
        window.wf(),
        window.closing_window,
        0 <= index < window.tabs.len() <= usize::MAX,
    ensures
        window.activated(index).removed(index).tabs == window.tabs.remove(index),
        window.activated(index).removed(index).closing_window,
        window.activated(index).removed(index).wf(),
{
    lemma_tabs_wf_remove(window.tabs, window.next_id, index);
}

proof fn lemma_all_at_once_but_one(tabs: Seq<TabView>, at_once: Seq<usize>, index: int)
    requires
        0 <= index < tabs.len(),
        at_once.contains(tabs[index].id),
    ensures
        all_at_once(tabs.remove(index), at_once) == all_at_once(tabs, at_once),
{
    let left = tabs.remove(index);
    if all_at_once(left, at_once) {
        assert forall|i: int|
            0 <= i < tabs.len() && (#[trigger] tabs[i]).content
                == TabContent::Editor implies at_once.contains(tabs[i].id) by {
            if i < index {
                assert(left[i] == tabs[i]);
            } else if i > index {
                assert(left[i - 1] == tabs[i]);
            }
        }
    }
    if all_at_once(tabs, at_once) {
        assert forall|i: int|
            0 <= i < left.len() && (#[trigger] left[i]).content
                == TabContent::Editor implies at_once.contains(left[i].id) by {
            if i < index {
                assert(left[i] == tabs[i]);
            } else {
                assert(left[i] == tabs[i + 1]);
            }
        }
    }
}

/// A window that is closing goes exactly when every editor can be closed at once. It may
/// then be closed, and holds no editor. Otherwise it stays, with an editor in front that
/// is asked to quit.
pub proof fn law_a_window_goes_with_its_last_editor(window: WindowView, at_once: Seq<usize>)
    requires
        window.wf(),
        window.closing_window,
        window.tabs.len() <= usize::MAX,
    ensures
        ({
            let (after, done) = window.editors_closed(at_once);
            &&& done == all_at_once(window.tabs, at_once)
            &&& done ==> after.allow_window_close && !has_editor(after.tabs)
            &&& !done ==> {
                &&& after.active < after.tabs.len()
                &&& after.tabs[after.active as int].content == TabContent::Editor
                &&& !at_once.contains(after.tabs[after.active as int].id)
                &&& after.effects.len() > 0
                &&& after.effects.last() == EffectView::ConfirmQuit(
                    after.tabs[after.active as int].id,
                )
                &&& after.closing_window
            }
        }),
    decreases window.tabs.len(),
{
    lemma_first_from(window.tabs, Wanted::Content(TabContent::Editor), 0);
    match first_of(window.tabs, Wanted::Content(TabContent::Editor)) {
        None => {
            lemma_no_editors(window.tabs, at_once);
        },
        Some(index) => {
            let shown = window.activated(index);
            if at_once.contains(window.tabs[index].id) {
                let fewer = shown.removed(index);
                lemma_closing_takes_one_tab(window, index);
                lemma_all_at_once_but_one(window.tabs, at_once, index);
                law_a_window_goes_with_its_last_editor(fewer, at_once);
            } else {
                assert(!all_at_once(window.tabs, at_once));
            }
        },
    }
}

/// An editor that goes while the window stays takes no other tab with it, nor the
/// window.
pub proof fn law_closing_one_editor_closes_nothing_else(
    window: WindowView,
    id: usize,
    at_once: Seq<usize>,
    other: int,
)
    requires
        window.wf(),
        !window.closing_window,
        0 <= other < window.tabs.len(),
        window.tabs[other].id != id,
    ensures
        window.with_editor_closed(id, at_once).tabs.contains(window.tabs[other]),
        window.with_editor_closed(id, at_once).allow_window_close == window.allow_window_close,
{
    lemma_first_from(window.tabs, Wanted::Id(id), 0);
    let after = window.with_editor_closed(id, at_once);
    match first_of(window.tabs, Wanted::Id(id)) {
        Some(index) => {
            if other < index {
                assert(after.tabs[other] == window.tabs[other]);
            } else {
                assert(after.tabs[other - 1] == window.tabs[other]);
            }
        },
        None => {
            assert(after.tabs[other] == window.tabs[other]);
        },
    }
}

/// The label of a tab stays what it is, whatever title Neovim sets.
pub proof fn law_titles_leave_labels_alone(
    window: WindowView,
    id: usize,
    title: Seq<char>,
    index: int,
)
    requires
        0 <= index < window.tabs.len(),
    ensures
        window.with_title(id, title).tabs.len() == window.tabs.len(),
        window.with_title(id, title).tabs[index].title == window.tabs[index].title,
{
    lemma_first_from(window.tabs, Wanted::Id(id), 0);
}

/// Opening a folder that is there puts an editor named after it in the place of a launcher
/// in front, however many tabs there are, and otherwise in one more tab, which comes to the
/// front. No other tab changes. The editor is started with the folder, in the folder, which
/// becomes the newest of those that were opened.
pub proof fn law_folders_open_in_place_of_a_launcher(window: WindowView, path: Seq<u8>, other: int)
    requires
        window.wf(),
        window.next_id < usize::MAX,
        window.tabs.len() < usize::MAX,
        0 <= other < window.tabs.len(),
    ensures
        ({
            let after = window.with_folder(path, true);
            let opened = TabView {
                id: window.next_id,
                title: recents::name_of(path),
                window_title: None,
                content: TabContent::Editor,
            };
            let front = window.tabs[window.active as int];
            &&& front.content == TabContent::Launcher ==> {
                &&& after.tabs.len() == window.tabs.len()
                &&& after.active == window.active
                &&& after.tabs[window.active as int] == opened
                &&& other != window.active ==> after.tabs[other] == window.tabs[other]
            }
            &&& front.content != TabContent::Launcher ==> {
                &&& after.tabs.len() == window.tabs.len() + 1
                &&& after.active == window.tabs.len()
                &&& after.tabs.last() == opened
                &&& after.tabs[other] == window.tabs[other]
            }
            &&& after.next_id == window.next_id + 1
            &&& after.recents == recents::promoted(window.recents, path, 8)
            &&& after.status is None
            &&& !after.closing_window
            &&& after.effects.contains(
                EffectView::OpenEditor {
                    id: window.next_id,
                    arguments: seq![path],
                    directory: Some(path),
                },
            )
            &&& after.effects.last() == (EffectView::SaveRecents { report: false })
        }),
{
    let open = WindowView { closing_window: false, ..window };
    let ready = open.deactivated();
    law_every_editor_has_a_number_of_its_own(
        ready,
        seq![path],
        Some(path),
        Some(path),
        open.on_launcher(),
    );
    let started = ready.with_editor(seq![path], Some(path), Some(path), open.on_launcher());
    let opening = EffectView::OpenEditor {
        id: window.next_id,
        arguments: seq![path],
        directory: Some(path),
    };
    let i = choose|i: int| 0 <= i < started.effects.len() && started.effects[i] == opening;
    let after = window.with_folder(path, true);
    assert(after.effects[i] == opening);
}

/// A folder that is no longer there opens nothing: the tabs stay, it is forgotten, and a
/// message says so.
pub proof fn law_missing_folders_are_forgotten(window: WindowView, path: Seq<u8>)
    ensures
        ({
            let after = window.with_folder(path, false);
            &&& after.tabs == window.tabs
            &&& after.active == window.active
            &&& after.next_id == window.next_id
            &&& after.recents == recents::others(window.recents, path)
            &&& after.status == Some("That folder is no longer available."@)
            &&& !after.closing_window
            &&& after.effects == window.effects + seq![
                EffectView::SaveRecents { report: true },
                EffectView::Notify,
            ]
        }),
{
    let after = window.with_folder(path, false);
    assert(after.effects =~= window.effects + seq![
        EffectView::SaveRecents { report: true },
        EffectView::Notify,
    ]);
}

/// What is done when a tab leaves the front: an editor is told.
pub open spec fn leaving(tab: TabView) -> Seq<EffectView> {
    if tab.content == TabContent::Editor {
        seq![EffectView::DeactivateEditor(tab.id)]
    } else {
        Seq::empty()
    }
}

/// A tab that is brought to the front is in front, and all tabs stay. An editor that was in
/// front is told. The window shows the title that Neovim set for the tab, or else its label,
/// and keys go to its editor, or to the window. An index without a tab does nothing.
pub proof fn law_tabs_come_to_the_front(window: WindowView, index: int)
    requires
        window.wf(),
        0 <= index <= usize::MAX,
    ensures
        ({
            let after = window.activated(index);
            &&& index >= window.tabs.len() ==> after == window
            &&& index < window.tabs.len() ==> {
                let tab = window.tabs[index];
                let title = if tab.window_title is Some {
                    tab.window_title->0
                } else {
                    tab.title
                };
                let keys = if tab.content == TabContent::Editor {
                    EffectView::ActivateEditor(tab.id)
                } else {
                    EffectView::FocusWindow
                };
                &&& after.active == index
                &&& after == (WindowView {
                    active: after.active,
                    effects: after.effects,
                    ..window
                })
                &&& after.effects == window.effects + leaving(window.tabs[window.active as int])
                    + seq![EffectView::SetTitle(title), keys, EffectView::Notify]
            }
        }),
{
    let after = window.activated(index);
    if index < window.tabs.len() {
        let tab = window.tabs[index];
        let keys = if tab.content == TabContent::Editor {
            EffectView::ActivateEditor(tab.id)
        } else {
            EffectView::FocusWindow
        };
        assert(after.effects =~= window.effects + leaving(window.tabs[window.active as int])
            + seq![EffectView::SetTitle(tab.shown_title()), keys, EffectView::Notify]);
    }
}

/// A tab that is taken out leaves the others as they are and in order. The tab in front stays
/// at its index, or is the last one. A window that would be empty, and is not closing, gets a
/// launcher.
pub proof fn law_tabs_are_taken_out_one_by_one(window: WindowView, index: int, other: int)
    requires
        window.wf(),
        window.next_id < usize::MAX,
        0 <= index < window.tabs.len() <= usize::MAX,
        0 <= other < window.tabs.len(),
        other != index,
    ensures
        ({
            let after = window.removed(index);
            &&& after.tabs.len() == window.tabs.len() - 1
            &&& other < index ==> after.tabs[other] == window.tabs[other]
            &&& other > index ==> after.tabs[other - 1] == window.tabs[other]
            &&& window.active < after.tabs.len() ==> after.active == window.active
            &&& window.active >= after.tabs.len() ==> after.active == after.tabs.len() - 1
            &&& after == (WindowView {
                tabs: after.tabs,
                active: after.active,
                effects: after.effects,
                ..window
            })
        }),
{
}

/// The last tab of a window leaves a launcher in its place, unless the window is closing.
pub proof fn law_the_last_tab_leaves_a_launcher(window: WindowView)
    requires
        window.wf(),
        window.next_id < usize::MAX,
        window.tabs.len() == 1,
    ensures
        window.closing_window ==> window.removed(0).tabs.len() == 0,
        !window.closing_window ==> window.removed(0).tabs == seq![
            TabView {
                id: window.next_id,
                title: "New Workspace"@,
                window_title: None,
                content: TabContent::Launcher,
            },
        ],
        window.removed(0).active == 0,
{
    if !window.closing_window {
        assert(window.tabs.remove(0) =~= Seq::empty());
        assert(window.removed(0).tabs =~= seq![
            TabView {
                id: window.next_id,
                title: "New Workspace"@,
                window_title: None,
                content: TabContent::Launcher,
            },
        ]);
    }
}

/// A new workspace is a launcher in one more tab, which comes to the front under the name of
/// the application. The others stay.
pub proof fn law_new_workspaces_are_launchers(window: WindowView)
    requires
        window.wf(),
        window.next_id < usize::MAX,
        window.tabs.len() < usize::MAX,
    ensures
        ({
            let after = window.with_new_workspace();
            &&& after.tabs == window.tabs.push(
                TabView {
                    id: window.next_id,
                    title: "New Workspace"@,
                    window_title: None,
                    content: TabContent::Launcher,
                },
            )
            &&& after.active == window.tabs.len()
            &&& after.next_id == window.next_id + 1
            &&& !after.closing_window
            &&& after.recents == window.recents
            &&& after.status == window.status
            &&& window.tabs.len() > 0 ==> after.effects == window.effects + leaving(
                window.tabs[window.active as int],
            ) + seq![
                EffectView::FocusWindow,
                EffectView::SetTitle("Nuvi"@),
                EffectView::Notify,
            ]
        }),
{
    let after = window.with_new_workspace();
    if window.tabs.len() > 0 {
        assert(after.effects =~= window.effects + leaving(window.tabs[window.active as int])
            + seq![EffectView::FocusWindow, EffectView::SetTitle("Nuvi"@), EffectView::Notify]);
    }
}

/// The settings are opened once: where they are open already their tab comes to the front and
/// none is added, and otherwise one is, behind the others.
pub proof fn law_the_settings_are_opened_once(window: WindowView, index: int)
    requires
        window.wf(),
        window.next_id < usize::MAX,
        window.tabs.len() < usize::MAX,
    ensures
        ({
            let after = window.with_settings();
            &&& after.active < after.tabs.len()
            &&& after.tabs[after.active as int].content == TabContent::Settings
            &&& 0 <= index < window.tabs.len() && window.tabs[index].content
                == TabContent::Settings ==> after.tabs == window.tabs && after.active == index
                && after.next_id == window.next_id
            &&& (forall|i: int|
                0 <= i < window.tabs.len() ==> (#[trigger] window.tabs[i]).content
                    != TabContent::Settings) ==> after.tabs == window.tabs.push(
                TabView {
                    id: window.next_id,
                    title: "Settings"@,
                    window_title: None,
                    content: TabContent::Settings,
                },
            )
            &&& !after.closing_window
            &&& after.recents == window.recents
            &&& after.status == window.status
        }),
{
    reveal(tabs_wf);
    let wanted = Wanted::Content(TabContent::Settings);
    lemma_first_from(window.tabs, wanted, 0);
    match first_of(window.tabs, wanted) {
        Some(found) => {
            assert(window.tabs[found].content == TabContent::Settings);
        },
        None => {
            if 0 <= index < window.tabs.len() {
                assert(!wanted.fits(window.tabs[index]));
            }
        },
    }
}

/// Closing the tab in front takes it out, but for a launcher that is the only tab, and for an
/// editor that cannot be closed at once: that one is asked to quit and stays until it has.
pub proof fn law_closing_the_tab_in_front(window: WindowView, at_once: bool)
    requires
        window.wf(),
        window.tabs.len() > 0,
    ensures
        ({
            let after = window.with_close_request(at_once);
            let front = window.tabs[window.active as int];
            &&& front.content == TabContent::Settings ==> after == window.removed(
                window.active as int,
            )
            &&& front.content == TabContent::Launcher && window.tabs.len() > 1 ==> after
                == window.removed(window.active as int)
            &&& front.content == TabContent::Launcher && window.tabs.len() == 1 ==> after == window
            &&& front.content == TabContent::Editor && at_once ==> after == window.removed(
                window.active as int,
            )
            &&& front.content == TabContent::Editor && !at_once ==> after == (WindowView {
                effects: window.effects.push(EffectView::ConfirmQuit(front.id)),
                ..window
            })
        }),
{
}

/// A tab that is closed by its number is brought to the front and closed. A number that no tab
/// has closes nothing.
pub proof fn law_tabs_are_closed_by_their_number(
    window: WindowView,
    id: usize,
    index: int,
    at_once: bool,
)
    requires
        window.wf(),
    ensures
        0 <= index < window.tabs.len() && window.tabs[index].id == id
            ==> window.with_tab_close_request(id, at_once) == window.activated(
            index,
        ).with_close_request(at_once),
        (forall|i: int| 0 <= i < window.tabs.len() ==> (#[trigger] window.tabs[i]).id != id)
            ==> window.with_tab_close_request(id, at_once) == window,
{
    reveal(tabs_wf);
    lemma_first_from(window.tabs, Wanted::Id(id), 0);
    match first_of(window.tabs, Wanted::Id(id)) {
        Some(found) => {
            assert(window.tabs[found].id == id);
        },
        None => {
            if 0 <= index < window.tabs.len() {
                assert(!Wanted::Id(id).fits(window.tabs[index]));
            }
        },
    }
}

/// An editor that is gone takes its tab with it, and no other while the window stays.
pub proof fn law_gone_editors_take_their_tab(
    window: WindowView,
    id: usize,
    index: int,
    at_once: Seq<usize>,
)
    requires
        window.wf(),
    ensures
        0 <= index < window.tabs.len() && window.tabs[index].id == id && !window.closing_window
            ==> window.with_editor_closed(id, at_once) == window.removed(index),
        0 <= index < window.tabs.len() && window.tabs[index].id == id && window.closing_window
            ==> window.with_editor_closed(id, at_once) == window.removed(index).closed_further(
            at_once,
        ),
        (forall|i: int| 0 <= i < window.tabs.len() ==> (#[trigger] window.tabs[i]).id != id)
            ==> window.with_editor_closed(id, at_once) == window,
{
    reveal(tabs_wf);
    lemma_first_from(window.tabs, Wanted::Id(id), 0);
    match first_of(window.tabs, Wanted::Id(id)) {
        Some(found) => {
            assert(window.tabs[found].id == id);
        },
        None => {
            if 0 <= index < window.tabs.len() {
                assert(!Wanted::Id(id).fits(window.tabs[index]));
            }
        },
    }
}

/// A title that Neovim sets is that of its own tab, and is shown on the window if that tab is
/// in front. Nothing else changes.
pub proof fn law_titles_belong_to_their_tab(
    window: WindowView,
    id: usize,
    title: Seq<char>,
    index: int,
)
    requires
        window.wf(),
        0 <= index < window.tabs.len(),
    ensures
        ({
            let after = window.with_title(id, title);
            &&& window.tabs[index].id == id ==> after.tabs[index] == (TabView {
                window_title: Some(title),
                ..window.tabs[index]
            })
            &&& window.tabs[index].id != id ==> after.tabs[index] == window.tabs[index]
            &&& window.tabs[index].id == id && index == window.active ==> after.effects
                == window.effects.push(EffectView::SetTitle(title))
            &&& window.tabs[index].id == id && index != window.active ==> after.effects
                == window.effects
            &&& after == (WindowView { tabs: after.tabs, effects: after.effects, ..window })
        }),
{
    reveal(tabs_wf);
    lemma_first_from(window.tabs, Wanted::Id(id), 0);
    match first_of(window.tabs, Wanted::Id(id)) {
        Some(found) => {
            assert(window.tabs[found].id == id);
        },
        None => {
            assert(!Wanted::Id(id).fits(window.tabs[index]));
        },
    }
}

/// The user is asked whether to quit once, and not while the window is closing or may close.
/// Asking changes no tab.
pub proof fn law_quitting_is_confirmed_once(window: WindowView)
    ensures
        ({
            let after = window.with_window_close_request();
            let asks = !window.allow_window_close && !window.confirming_window_close
                && !window.closing_window;
            &&& !asks ==> after == window
            &&& asks ==> after == (WindowView {
                confirming_window_close: true,
                effects: window.effects.push(EffectView::PromptQuit),
                ..window
            })
            &&& after.with_window_close_request() == after
        }),
{
}

/// A window that the user does not want to quit stays as it is, and can be asked again. One
/// that they do closes its editors, and goes once they are all closed.
pub proof fn law_answers_are_heeded(window: WindowView, at_once: Seq<usize>)
    requires
        window.wf(),
        window.tabs.len() <= usize::MAX,
    ensures
        window.with_quit_answer(false, at_once) == (WindowView {
            confirming_window_close: false,
            ..window
        }),
        ({
            let after = window.with_quit_answer(true, at_once);
            &&& all_at_once(window.tabs, at_once) ==> after.allow_window_close && !has_editor(
                after.tabs,
            ) && after.effects.last() == EffectView::RemoveWindow
            &&& !all_at_once(window.tabs, at_once) ==> after.closing_window && after.effects.last()
                == EffectView::ConfirmQuit(after.tabs[after.active as int].id)
        }),
{
    let closing = WindowView { closing_window: true, confirming_window_close: false, ..window };
    law_a_window_goes_with_its_last_editor(closing, at_once);
}

/// A window that is closing gives up only editors that can be closed at once: every other tab
/// is still there, and none is new.
pub proof fn law_closing_windows_keep_other_tabs(
    window: WindowView,
    at_once: Seq<usize>,
    index: int,
)
    requires
        window.wf(),
        window.closing_window,
        window.tabs.len() <= usize::MAX,
    ensures
        0 <= index < window.tabs.len() && (window.tabs[index].content != TabContent::Editor
            || !at_once.contains(window.tabs[index].id)) ==> window.editors_closed(
            at_once,
        ).0.tabs.contains(window.tabs[index]),
        forall|i: int|
            0 <= i < window.editors_closed(at_once).0.tabs.len() ==> window.tabs.contains(
                #[trigger] window.editors_closed(at_once).0.tabs[i],
            ),
    decreases window.tabs.len(),
{
    let wanted = Wanted::Content(TabContent::Editor);
    lemma_first_from(window.tabs, wanted, 0);
    let after = window.editors_closed(at_once).0;
    match first_of(window.tabs, wanted) {
        None => {
            assert(after.tabs == window.tabs);
            if 0 <= index < window.tabs.len() {
                assert(after.tabs[index] == window.tabs[index]);
            }
        },
        Some(found) => {
            if at_once.contains(window.tabs[found].id) {
                let fewer = window.activated(found).removed(found);
                lemma_closing_takes_one_tab(window, found);
                let moved = if index > found {
                    index - 1
                } else {
                    index
                };
                if 0 <= index < window.tabs.len() && index != found {
                    assert(fewer.tabs[moved] == window.tabs[index]);
                }
                law_closing_windows_keep_other_tabs(fewer, at_once, moved);
                assert forall|i: int| 0 <= i < after.tabs.len() implies window.tabs.contains(
                    #[trigger] after.tabs[i],
                ) by {
                    let k = choose|k: int|
                        0 <= k < fewer.tabs.len() && fewer.tabs[k] == after.tabs[i];
                    if k < found {
                        assert(window.tabs[k] == after.tabs[i]);
                    } else {
                        assert(window.tabs[k + 1] == after.tabs[i]);
                    }
                }
            } else {
                assert(after.tabs == window.tabs);
                if 0 <= index < window.tabs.len() {
                    assert(after.tabs[index] == window.tabs[index]);
                }
            }
        },
    }
}

/// A window that is started without arguments shows a launcher. With arguments it shows an
/// editor that is started with them, in the last folder among them, named after it.
pub proof fn law_windows_start_with_their_arguments(
    arguments: Seq<Seq<u8>>,
    folder: Option<Seq<u8>>,
    recents: Seq<Seq<u8>>,
)
    ensures
        ({
            let window = first_window(arguments, folder, recents);
            &&& window.tabs.len() == 1
            &&& window.active == 0
            &&& window.next_id == 1
            &&& window.tabs[0].id == 0
            &&& window.tabs[0].window_title is None
            &&& window.status is None
            &&& !window.closing_window && !window.confirming_window_close
            &&& !window.allow_window_close
            &&& arguments.len() == 0 ==> window.tabs[0].content == TabContent::Launcher
                && window.tabs[0].title == "New Workspace"@ && window.recents == recents
            &&& arguments.len() > 0 ==> {
                &&& window.tabs[0].content == TabContent::Editor
                &&& window.effects[0] == (EffectView::OpenEditor {
                    id: 0,
                    arguments,
                    directory: folder,
                })
                &&& folder is None ==> window.tabs[0].title == "Workspace"@ && window.recents
                    == recents
                &&& folder matches Some(path) ==> window.tabs[0].title == recents::name_of(path)
                    && window.recents == recents::promoted(recents, path, 8)
            }
        }),
{
}

/// A line is drawn between two tabs exactly when neither of them is in front.
pub proof fn law_lines_part_tabs_at_the_back(count: int, active: int, index: int)
    requires
        0 <= index < count,
    ensures
        has_separator(count, active, index) <==> index + 1 < count && active != index && active
            != index + 1,
{
}

/// A tab is drawn with its own number and label, whatever title its editor set, and as the one
/// in front exactly when it is.
pub proof fn law_labels_are_those_of_their_tabs(label: TabLabel, window: WindowView, index: int)
    requires
        0 <= index < window.tabs.len(),
        label.labels(window, index),
    ensures
        label.id == window.tabs[index].id,
        label.title@ == window.tabs[index].title,
        label.active <==> index == window.active,
        label.separator_after <==> index + 1 < window.tabs.len() && window.active != index
            && window.active != index + 1,
{
}

/// A folder of the launcher is shown with its name and where it is, and a line parts it from
/// the next one, if there is one.
pub proof fn law_recent_folders_are_shown_in_order(
    row: RecentRow,
    listed: Seq<Seq<u8>>,
    home: Option<Seq<u8>>,
    index: int,
)
    requires
        0 <= index < listed.len(),
        row.lists(listed, home, index),
    ensures
        row.path@ == listed[index],
        row.name@ == recents::name_of(listed[index]),
        row.parent@ == recents::shown_parent(listed[index], home),
        row.divider <==> index != listed.len() - 1,
{
}

/// What is done when a tab is shown: the window takes its title, keys go to its editor, or to
/// the window, and the window is drawn again.
pub open spec fn showing(tab: TabView) -> Seq<EffectView> {
    seq![
        EffectView::SetTitle(
            if tab.window_title is Some {
                tab.window_title->0
            } else {
                tab.title
            },
        ),
        if tab.content == TabContent::Editor {
            EffectView::ActivateEditor(tab.id)
        } else {
            EffectView::FocusWindow
        },
        EffectView::Notify,
    ]
}

/// After a tab was taken out the window is drawn again, with the tab that is now in front,
/// if there is one.
pub proof fn law_another_tab_is_shown_instead(window: WindowView, index: int)
    requires
        window.wf(),
        window.next_id < usize::MAX,
        0 <= index < window.tabs.len() <= usize::MAX,
    ensures
        ({
            let after = window.removed(index);
            let front = after.tabs[after.active as int];
            &&& after.tabs.len() == 0 ==> after.effects == window.effects.push(EffectView::Notify)
            &&& after.tabs.len() > 0 ==> after.effects == window.effects + leaving(front)
                + showing(front) + seq![EffectView::Notify]
        }),
{
    let after = window.removed(index);
    if after.tabs.len() > 0 {
        let front = after.tabs[after.active as int];
        assert(after.effects =~= window.effects + leaving(front) + showing(front)
            + seq![EffectView::Notify]);
    }
}

/// Opening a folder tells the editor that was in front, starts the new one, shows it, and then
/// saves the folders that were opened last.
pub proof fn law_opened_folders_are_shown(window: WindowView, path: Seq<u8>)
    requires
        window.wf(),
        window.next_id < usize::MAX,
        0 < window.tabs.len() < usize::MAX,
    ensures
        ({
            let after = window.with_folder(path, true);
            let front = after.tabs[after.active as int];
            after.effects == window.effects + leaving(window.tabs[window.active as int]) + seq![
                EffectView::OpenEditor {
                    id: window.next_id,
                    arguments: seq![path],
                    directory: Some(path),
                },
            ] + leaving(front) + showing(front) + seq![EffectView::SaveRecents { report: false }]
        }),
{
    let after = window.with_folder(path, true);
    let front = after.tabs[after.active as int];
    assert(after.effects =~= window.effects + leaving(window.tabs[window.active as int]) + seq![
        EffectView::OpenEditor {
            id: window.next_id,
            arguments: seq![path],
            directory: Some(path),
        },
    ] + leaving(front) + showing(front) + seq![EffectView::SaveRecents { report: false }]);
}

/// The settings are shown when they are opened, and an editor that was in front is told.
pub proof fn law_opened_settings_are_shown(window: WindowView)
    requires
        window.wf(),
        window.next_id < usize::MAX,
        0 < window.tabs.len() < usize::MAX,
    ensures
        ({
            let after = window.with_settings();
            after.effects == window.effects + leaving(window.tabs[window.active as int]) + showing(
                after.tabs[after.active as int],
            )
        }),
{
    lemma_first_from(window.tabs, Wanted::Content(TabContent::Settings), 0);
    let after = window.with_settings();
    assert(after.effects =~= window.effects + leaving(window.tabs[window.active as int])
        + showing(after.tabs[after.active as int]));
}

/// A window that is started without arguments takes the keys. With arguments it shows the
/// editor that it starts, and saves the folders that were opened last if that is one more.
pub proof fn law_first_tabs_are_shown(
    arguments: Seq<Seq<u8>>,
    folder: Option<Seq<u8>>,
    recents: Seq<Seq<u8>>,
)
    ensures
        ({
            let window = first_window(arguments, folder, recents);
            let saved = if folder is Some {
                seq![EffectView::SaveRecents { report: true }]
            } else {
                Seq::empty()
            };
            &&& arguments.len() == 0 ==> window.effects == seq![EffectView::FocusWindow]
            &&& arguments.len() > 0 ==> window.effects == seq![
                EffectView::OpenEditor { id: 0, arguments, directory: folder },
            ] + leaving(window.tabs[0]) + showing(window.tabs[0]) + saved
        }),
{
    let window = first_window(arguments, folder, recents);
    let saved = if folder is Some {
        seq![EffectView::SaveRecents { report: true }]
    } else {
        Seq::empty()
    };
    if arguments.len() == 0 {
        assert(window.effects =~= seq![EffectView::FocusWindow]);
    } else {
        assert(window.effects =~= seq![
            EffectView::OpenEditor { id: 0, arguments, directory: folder },
        ] + leaving(window.tabs[0]) + showing(window.tabs[0]) + saved);
    }
}

/// A window that is closing closes its editors from the first on. Where one has to be asked,
/// there is none before it, and what is behind it is as it was. Nothing else changes.
pub proof fn law_editors_are_closed_in_order(window: WindowView, at_once: Seq<usize>)
    requires
        window.wf(),
        window.closing_window,
        window.tabs.len() <= usize::MAX,
    ensures
        ({
            let (after, done) = window.editors_closed(at_once);
            &&& !done ==> {
                &&& after.active < after.tabs.len() <= window.tabs.len()
                &&& forall|i: int|
                    0 <= i < after.active ==> (#[trigger] after.tabs[i]).content
                        != TabContent::Editor
                &&& after.tabs.skip(after.active as int) == window.tabs.skip(
                    window.tabs.len() - after.tabs.len() + after.active,
                )
            }
            &&& after.recents == window.recents
            &&& after.status == window.status
            &&& after.next_id == window.next_id
            &&& after.closing_window
            &&& after.confirming_window_close == window.confirming_window_close
            &&& !done ==> after.allow_window_close == window.allow_window_close
        }),
    decreases window.tabs.len(),
{
    let wanted = Wanted::Content(TabContent::Editor);
    lemma_first_from(window.tabs, wanted, 0);
    let (after, done) = window.editors_closed(at_once);
    match first_of(window.tabs, wanted) {
        None => {},
        Some(found) => {
            if at_once.contains(window.tabs[found].id) {
                let fewer = window.activated(found).removed(found);
                lemma_closing_takes_one_tab(window, found);
                law_editors_are_closed_in_order(fewer, at_once);
                if !done {
                    let from = fewer.tabs.len() - after.tabs.len() + after.active;
                    assert(after.tabs.skip(after.active as int)[0] == fewer.tabs[from]);
                    law_a_window_goes_with_its_last_editor(fewer, at_once);
                    assert forall|i: int| 0 <= i < found implies (
                    #[trigger] window.tabs[i]).content != TabContent::Editor by {
                        assert(!wanted.fits(window.tabs[i]));
                    }
                    if from < found {
                        assert(window.tabs[from].content != TabContent::Editor);
                        assert(fewer.tabs[from] == window.tabs[from]);
                    }
                    assert(fewer.tabs.skip(from) =~= window.tabs.skip(from + 1));
                }
            } else {
                assert forall|i: int| 0 <= i < found implies (#[trigger] after.tabs[i]).content
                    != TabContent::Editor by {
                    assert(!wanted.fits(window.tabs[i]));
                }
            }
        },
    }
}

} // verus!
