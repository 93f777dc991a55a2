use nuvi::paths::FilePath;
use nuvi::recents::display_parent;
use nuvi::recents::editor_transparency_file;
use nuvi::recents::forget_recent;
use nuvi::recents::listed_recents;
use nuvi::recents::load_recents;
use nuvi::recents::promote_recent;
use nuvi::recents::recents_file;
use nuvi::recents::workspace_name;
use nuvi::recents::write_recents;
use nuvi::workspace::key_bindings;
use nuvi::workspace::last_folder;
use nuvi::workspace::shortcuts;
use nuvi::workspace::Command;
use nuvi::workspace::Effect;
use nuvi::workspace::SelectWorkspace;
use nuvi::workspace::TabContent;
use nuvi::workspace::Theme;
use nuvi::workspace::Wanted;
use nuvi::workspace::WorkspaceWindow;

fn path(text: &str) -> FilePath {
    FilePath::new(text)
}

fn shown(effects: Vec<Effect>) -> Vec<String> {
    effects
        .into_iter()
        .map(|effect| match effect {
            Effect::OpenEditor {
                id,
                arguments,
                directory,
            } => format!(
                "open {id} {:?} {:?}",
                arguments
                    .into_iter()
                    .map(|argument| String::from_utf8(argument).unwrap())
                    .collect::<Vec<_>>(),
                directory.map(|directory| directory.display())
            ),
            other => format!("{other:?}"),
        })
        .collect()
}

fn ids(window: &WorkspaceWindow) -> Vec<usize> {
    window.tabs.iter().map(|tab| tab.id).collect()
}

#[test]
fn recent_workspaces_are_unique_newest_first_and_bounded() {
    let mut recents = vec![path("/one"), path("/two"), path("/three")];
    promote_recent(&mut recents, path("/two"), 3);
    promote_recent(&mut recents, path("/four"), 3);
    assert_eq!(
        recents,
        vec![
            path("/four"),
            path("/two"),
            path("/one")
        ]
    );
}

#[test]
fn recents_are_compared_as_paths() {
    let mut recents = vec![path("/one/"), path("/two")];
    promote_recent(&mut recents, path("/one"), 8);
    assert_eq!(recents.len(), 2);
    assert_eq!(recents[0].display(), "/one");
    promote_recent(&mut recents, path("/x"), 0);
    assert!(recents.is_empty());
    let mut recents = vec![path("/a"), path("/b"), path("/a/.")];
    forget_recent(&mut recents, &path("/a"));
    assert_eq!(recents, vec![path("/b")]);
}

#[test]
fn recents_survive_the_file() {
    let recents = vec![path("/one two"), path("/ü"), path("/three")];
    let contents = write_recents(&recents);
    assert_eq!(contents, "/one two\n/ü\n/three");
    assert_eq!(listed_recents(&contents), recents);
    assert_eq!(write_recents(&[]), "");
    assert!(listed_recents("").is_empty());
    let odd = FilePath {
        bytes: b"/\xff".to_vec(),
    };
    assert_eq!(write_recents(&[odd]), "/\u{fffd}");
}

#[test]
fn recents_that_are_no_folders_are_dropped() {
    let listed: Vec<FilePath> = (0..12).map(|n| path(&format!("/{n}"))).collect();
    let mut is_folder = vec![true; 12];
    is_folder[1] = false;
    let recents = load_recents(&listed, &is_folder);
    assert_eq!(recents.len(), 8);
    assert_eq!(recents[1].display(), "/2");
    assert_eq!(recents[7].display(), "/8");
}

#[test]
fn workspaces_are_named_after_their_folders() {
    assert_eq!(workspace_name(&path("/Users/me/code")), "code");
    assert_eq!(workspace_name(&path("/")), "Workspace");
    assert_eq!(workspace_name(&path("/a/..")), "Workspace");
    assert_eq!(
        workspace_name(&FilePath {
            bytes: b"/a\xff".to_vec(),
        }),
        "Workspace"
    );
    let home = || Some(path("/Users/me"));
    assert_eq!(display_parent(&path("/Users/me/code"), home()), "~");
    assert_eq!(display_parent(&path("/Users/me/a/b/code"), home()), "~/a/b");
    assert_eq!(display_parent(&path("/Users/meow/code"), home()), "/Users/meow");
    assert_eq!(display_parent(&path("/Users/me/code"), None), "/Users/me");
    assert_eq!(display_parent(&path("/"), home()), "/");
    assert_eq!(
        recents_file(home()).unwrap().display(),
        "/Users/me/Library/Application Support/Nuvi/recent-workspaces"
    );
    assert_eq!(
        editor_transparency_file(home()).unwrap().display(),
        "/Users/me/Library/Application Support/Nuvi/editor-transparency"
    );
    assert!(recents_file(None).is_none());
    assert!(editor_transparency_file(None).is_none());
}

#[test]
fn windows_open_with_a_launcher_or_an_editor() {
    let mut window = WorkspaceWindow::new(vec![], None, vec![]);
    assert_eq!(window.tabs.len(), 1);
    assert_eq!(window.tabs[0].title, "New Workspace");
    assert_eq!(window.tabs[0].content, TabContent::Launcher);
    assert_eq!(shown(window.take_effects()), vec!["FocusWindow"]);
    assert!(window.take_effects().is_empty());

    let mut window = WorkspaceWindow::new(
        vec![b"-u".to_vec(), b"code".to_vec()],
        Some(path("/home/code")),
        vec![path("/old"), path("/home/code")],
    );
    assert_eq!(window.tabs[0].title, "code");
    assert_eq!(window.recents, vec![path("/home/code"), path("/old")]);
    assert_eq!(
        shown(window.take_effects()),
        vec![
            "open 0 [\"-u\", \"code\"] Some(\"/home/code\")",
            "DeactivateEditor(0)",
            "SetTitle(\"code\")",
            "ActivateEditor(0)",
            "Notify",
            "SaveRecents { report: true }",
        ]
    );
    let mut window = WorkspaceWindow::new(vec![b"file".to_vec()], None, vec![]);
    assert_eq!(window.tabs[0].title, "Workspace");
    assert!(window.recents.is_empty());
    assert_eq!(
        shown(window.take_effects())[0],
        "open 0 [\"file\"] None"
    );
}

#[test]
fn folders_replace_launchers() {
    let mut window = WorkspaceWindow::new(vec![], None, vec![]);
    window.take_effects();
    window.status = Some("old".into());
    window.open_workspace(path("/a/one"), true);
    assert_eq!(ids(&window), vec![1]);
    assert_eq!(window.tabs[0].title, "one");
    assert_eq!(window.status, None);
    assert_eq!(
        shown(window.take_effects()),
        vec![
            "open 1 [\"/a/one\"] Some(\"/a/one\")",
            "DeactivateEditor(1)",
            "SetTitle(\"one\")",
            "ActivateEditor(1)",
            "Notify",
            "SaveRecents { report: false }",
        ]
    );
    window.open_workspace(path("/a/two"), true);
    assert_eq!(ids(&window), vec![1, 2]);
    assert_eq!(window.active, 1);
    assert_eq!(shown(window.take_effects())[0], "DeactivateEditor(1)");
    window.open_workspace(path("/a/one"), false);
    assert_eq!(window.tabs.len(), 2);
    assert_eq!(window.recents, vec![path("/a/two")]);
    assert_eq!(
        window.status.as_deref(),
        Some("That folder is no longer available.")
    );
    assert_eq!(
        shown(window.take_effects()),
        vec!["SaveRecents { report: true }", "Notify"]
    );
}

#[test]
fn settings_have_one_tab() {
    let mut window = WorkspaceWindow::new(vec![], None, vec![]);
    window.open_settings();
    window.new_workspace();
    assert_eq!(window.active, 2);
    window.closing_window = true;
    window.open_settings();
    assert_eq!(window.tabs.len(), 3);
    assert_eq!(window.active, 1);
    assert!(!window.closing_window);
    assert_eq!(window.tabs[1].title, "Settings");
    assert_eq!(window.position(Wanted::Content(TabContent::Settings)), Some(1));
    assert_eq!(window.position(Wanted::Id(2)), Some(2));
    assert_eq!(window.position(Wanted::Id(9)), None);
    window.close_workspace(false);
    assert_eq!(ids(&window), vec![0, 2]);
    assert_eq!(window.active, 1);
}

#[test]
fn the_last_launcher_stays() {
    let mut window = WorkspaceWindow::new(vec![], None, vec![]);
    window.take_effects();
    window.close_workspace(true);
    assert_eq!(ids(&window), vec![0]);
    assert!(window.take_effects().is_empty());
    window.new_workspace();
    assert_eq!(
        shown(window.take_effects()),
        vec!["FocusWindow", "SetTitle(\"Nuvi\")", "Notify"]
    );
    window.close_workspace(true);
    assert_eq!(ids(&window), vec![0]);
}

fn three_editors() -> WorkspaceWindow {
    let mut window = WorkspaceWindow::new(vec![b"a".to_vec()], None, vec![]);
    window.open_workspace(path("/b"), true);
    window.open_workspace(path("/c"), true);
    window.take_effects();
    window
}

#[test]
fn editors_are_asked_before_they_close() {
    let mut window = three_editors();
    window.close_workspace(false);
    assert_eq!(ids(&window), vec![0, 1, 2]);
    assert_eq!(shown(window.take_effects()), vec!["ConfirmQuit(2)"]);
    window.close_workspace(true);
    assert_eq!(ids(&window), vec![0, 1]);
    assert_eq!(window.active, 1);
    assert_eq!(
        shown(window.take_effects()),
        vec![
            "DeactivateEditor(1)",
            "SetTitle(\"b\")",
            "ActivateEditor(1)",
            "Notify",
            "Notify",
        ]
    );
    window.close_tab(0, true);
    assert_eq!(ids(&window), vec![1]);
    window.close_tab(7, true);
    assert_eq!(ids(&window), vec![1]);
    window.editor_closed(1, &[]);
    assert_eq!(window.tabs.len(), 1);
    assert_eq!(window.tabs[0].content, TabContent::Launcher);
    assert_eq!(window.tabs[0].id, 3);
    assert!(!window.allow_window_close);
}

#[test]
fn a_window_goes_with_its_last_editor() {
    let mut window = three_editors();
    assert!(!window.request_window_close());
    assert!(!window.request_window_close());
    assert_eq!(shown(window.take_effects()), vec!["PromptQuit"]);
    window.quit_answered(true, &[0]);
    assert!(window.closing_window && !window.confirming_window_close);
    assert_eq!(ids(&window), vec![1, 2]);
    assert_eq!(window.active, 0);
    assert_eq!(
        shown(window.take_effects()).last().map(String::as_str),
        Some("ConfirmQuit(1)")
    );
    assert!(!window.request_window_close());
    window.editor_closed(1, &[]);
    assert_eq!(
        shown(window.take_effects()).last().map(String::as_str),
        Some("ConfirmQuit(2)")
    );
    window.editor_closed(2, &[]);
    assert!(window.tabs.is_empty());
    assert!(window.allow_window_close);
    assert_eq!(
        shown(window.take_effects()).last().map(String::as_str),
        Some("RemoveWindow")
    );
    assert!(window.request_window_close());
}

#[test]
fn a_window_without_editors_goes_at_once() {
    let mut window = WorkspaceWindow::new(vec![], None, vec![]);
    window.take_effects();
    window.request_window_close();
    window.quit_answered(false, &[]);
    assert!(!window.confirming_window_close && !window.closing_window);
    window.request_window_close();
    window.quit_answered(true, &[]);
    assert!(window.allow_window_close);
    assert_eq!(
        shown(window.take_effects()),
        vec!["PromptQuit", "PromptQuit", "RemoveWindow"]
    );
}

#[test]
fn a_refused_quit_keeps_the_window() {
    let mut window = three_editors();
    window.request_window_close();
    window.quit_answered(true, &[]);
    assert_eq!(ids(&window), vec![0, 1, 2]);
    window.close_cancelled();
    assert!(!window.closing_window);
    window.editor_closed(0, &[1, 2]);
    assert_eq!(ids(&window), vec![1, 2]);
    assert!(!window.allow_window_close);
}

#[test]
fn titles_leave_labels_alone() {
    let mut window = three_editors();
    window.editor_title_changed(1, "main.rs".into());
    assert!(window.take_effects().is_empty());
    window.editor_title_changed(2, "lib.rs".into());
    assert_eq!(shown(window.take_effects()), vec!["SetTitle(\"lib.rs\")"]);
    window.editor_title_changed(9, "none".into());
    assert_eq!(window.tabs[1].title, "b");
    window.select_workspace(1);
    assert_eq!(
        shown(window.take_effects()),
        vec![
            "DeactivateEditor(2)",
            "SetTitle(\"main.rs\")",
            "ActivateEditor(1)",
            "Notify",
        ]
    );
    window.select_workspace(5);
    assert!(window.take_effects().is_empty());
    assert_eq!(window.active, 1);
}

#[test]
fn tabs_are_parted_by_lines() {
    let mut window = three_editors();
    window.open_workspace(path("/d"), true);
    window.select_workspace(1);
    let lines: Vec<bool> = (0..4).map(|index| window.separator_after(index)).collect();
    assert_eq!(lines, vec![false, false, true, false]);
}

#[test]
fn picking_a_folder_ends_closing() {
    let mut window = three_editors();
    window.closing_window = true;
    window.choose_folder();
    assert!(!window.closing_window);
    assert_eq!(shown(window.take_effects()), vec!["PromptFolder"]);
}

#[test]
fn failures_to_save_are_told() {
    let mut window = WorkspaceWindow::new(vec![], None, vec![]);
    window.recents_saved(Ok(()));
    window.transparency_saved(Ok(()));
    assert_eq!(window.status, None);
    window.recents_saved(Err("full".into()));
    assert_eq!(window.status.as_deref(), Some("Could not save recents: full"));
    window.transparency_saved(Err("full".into()));
    assert_eq!(
        window.status.as_deref(),
        Some("Could not save background transparency: full")
    );
}

#[test]
fn themes_and_shortcuts() {
    let dark = Theme::for_dark(true);
    assert_eq!(dark.panel, 0x222529);
    assert_eq!(dark.default_colors(), (0xe7e4de, 0x222529, 0xe7e4de));
    let light = Theme::for_dark(false);
    assert_eq!(light.accent, 0x1769c2);
    assert_eq!(light.default_colors(), (0x343330, 0xf8f7f5, 0x343330));
    assert_eq!(shortcuts().len(), 6);
    assert_eq!(shortcuts()[0], ("New Workspace", "⌘T"));
    assert_eq!(shortcuts()[4], ("Select Tab 1–9", "⌘1–9"));
    assert_eq!(SelectWorkspace { index: 2 }.clone(), SelectWorkspace { index: 2 });
}

#[test]
fn keys_are_bound_to_commands() {
    let bindings = key_bindings();
    assert_eq!(bindings.len(), 14);
    assert_eq!(bindings[1], ("cmd-t", Command::NewWorkspace));
    for digit in 1..=9 {
        let (key, command) = &bindings[4 + digit];
        assert_eq!(*key, format!("cmd-{digit}"));
        assert_eq!(*command, Command::Select(SelectWorkspace { index: digit - 1 }));
    }
}

#[test]
fn tabs_and_recents_are_labelled() {
    let mut window = three_editors();
    window.select_workspace(0);
    let labels = window.tab_strip();
    assert_eq!(labels.len(), 3);
    assert_eq!(labels[2].title, "c");
    assert_eq!(labels[2].id, 2);
    assert!(labels[0].active && !labels[1].active);
    assert!(!labels[0].separator_after && labels[1].separator_after);
    assert!(!labels[2].separator_after);
    assert_eq!(window.active_content(), Some(TabContent::Editor));
    window.recents = vec![path("/h/a/one"), path("/two")];
    let rows = window.recent_rows(Some(path("/h")));
    assert_eq!(rows.len(), 2);
    assert_eq!((rows[0].name.as_str(), rows[0].parent.as_str()), ("one", "~/a"));
    assert_eq!((rows[1].name.as_str(), rows[1].parent.as_str()), ("two", "/"));
    assert!(rows[0].divider && !rows[1].divider);
    assert_eq!(rows[1].path.display(), "/two");
}

#[test]
fn the_last_folder_among_the_arguments_is_worked_in() {
    assert_eq!(last_folder(&[true, false, true, false]), Some(2));
    assert_eq!(last_folder(&[true, false]), Some(0));
    assert_eq!(last_folder(&[false, false]), None);
    assert_eq!(last_folder(&[]), None);
}
