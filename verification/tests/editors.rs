use nuvi::delivery::RequestLine;
use nuvi::editor::redraw_has_flush;
use nuvi::editor::Editor;
use nuvi::editor::EditorEvent;
use nuvi::editor::Motion;
use nuvi::editor::Received;
use nuvi::editor::Wheel;
use nuvi::fonts::FontOption;
use nuvi::keys::Keystroke;
use nuvi::keys::Modifiers;
use nuvi::keys::MouseButton;
use nuvi::nvim::connection_event;
use nuvi::nvim::error_event;
use nuvi::nvim::exit_event;
use nuvi::nvim::find_nvim;
use nuvi::nvim::launch;
use nuvi::nvim::notification_kind;
use nuvi::nvim::nvim_candidates;
use nuvi::nvim::quit_answered;
use nuvi::nvim::quit_probe;
use nuvi::nvim::request_failed;
use nuvi::nvim::start_next;
use nuvi::nvim::stderr_event;
use nuvi::nvim::Call;
use nuvi::nvim::ExitOutcome;
use nuvi::nvim::Notification;
use nuvi::nvim::NvimClient;
use nuvi::nvim::NvimEvent;
use nuvi::nvim::Request;
use nuvi::nvim::StartStage;
use nuvi::nvim::StartStep;
use nuvi::paths::FilePath;
use nuvi::ui::CursorMode;
use nuvi::value::Value;

const COLORS: (u32, u32, u32) = (1, 2, 3);

fn event(name: &str, params: Vec<Value>) -> Value {
    Value::Array(vec![Value::Text(name.to_string()), Value::Array(params)])
}

fn num(n: i128) -> Value {
    Value::Integer(n)
}

fn started() -> Editor<i64> {
    let mut editor = Editor::new(COLORS);
    editor.started(Ok(()));
    editor
}

fn resized(width: i128, height: i128) -> NvimEvent {
    NvimEvent::Redraw(vec![
        event("grid_resize", vec![num(1), num(width), num(height)]),
        event("flush", vec![]),
    ])
}

fn scrolled(rows: i128) -> Value {
    event(
        "grid_scroll",
        vec![num(1), num(0), num(20), num(0), num(4), num(rows), num(0)],
    )
}

#[test]
fn editors_start_with_a_message_and_colours() {
    let mut editor: Editor<i64> = Editor::new(COLORS);
    assert_eq!(editor.status.as_deref(), Some("Starting Neovim…"));
    assert_eq!(editor.ui.default_foreground, 1);
    assert_eq!(editor.ui.default_background, 2);
    assert_eq!(editor.ui.default_special, 3);
    assert!(editor.request_close());
    assert!(editor.take_requests().is_empty());
    editor.started(Err("no".into()));
    assert_eq!(editor.status.as_deref(), Some("no"));
    assert!(editor.client.is_none());
    editor.started(Ok(()));
    assert_eq!(editor.status, None);
    assert!(!editor.may_close());
    assert!(!editor.request_close());
    assert_eq!(editor.take_requests(), vec![Request::ConfirmQuit]);
}

#[test]
fn frames_wait_for_their_end() {
    let mut editor = started();
    editor.cursor_visible = false;
    editor.status = Some("busy".into());
    let part = NvimEvent::Redraw(vec![event("grid_resize", vec![num(1), num(4), num(2)])]);
    assert_eq!(
        editor.receive(part, false, 0),
        Received {
            notify: false,
            motion: None,
            event: None,
            ended: false,
        }
    );
    assert_eq!(editor.ui.grid.width, 0);
    assert_eq!(editor.pending_redraw.len(), 1);
    let rest = NvimEvent::Redraw(vec![
        event("set_title", vec![Value::Text("t".into())]),
        event("flush", vec![]),
    ]);
    assert_eq!(
        editor.receive(rest, false, 0),
        Received {
            notify: true,
            motion: Some(Motion::Snap),
            event: Some(EditorEvent::Title("t".into())),
            ended: false,
        }
    );
    assert_eq!(editor.ui.grid.width, 4);
    assert!(editor.pending_redraw.is_empty());
    assert!(editor.cursor_visible);
    assert_eq!(editor.status, None);
    assert!(redraw_has_flush(&[num(1), event("flush", vec![])]));
    assert!(!redraw_has_flush(&[event("flushed", vec![]), Value::Array(vec![])]));
}

#[test]
fn contents_move_unless_motion_is_unwanted() {
    let mut editor = started();
    editor.receive(resized(4, 20), false, 0);
    let moved = || NvimEvent::Redraw(vec![scrolled(2), scrolled(1), event("flush", vec![])]);
    let received = editor.receive(moved(), false, 7);
    assert_eq!(
        received.motion,
        Some(Motion::Follow {
            snapped: false,
            stretches: vec![2, 1],
        })
    );
    let animation = editor.scroll_animation.as_ref().unwrap();
    assert_eq!(animation.trailing.len(), 3);
    assert_eq!(animation.spring, 7);
    assert!(editor.animating(false));
    assert!(editor.cursor_moves_along());
    editor.snap_scroll();
    assert!(!editor.animating(false) && editor.animating(true));
    assert!(!editor.cursor_moves_along());
    let received = editor.receive(moved(), true, 7);
    assert_eq!(received.motion, Some(Motion::Snap));
    assert!(editor.scroll_animation.is_none());
    let far = NvimEvent::Redraw(vec![scrolled(12), event("flush", vec![])]);
    assert_eq!(
        editor.receive(far, false, 7).motion,
        Some(Motion::Follow {
            snapped: true,
            stretches: vec![],
        })
    );
    let busy = NvimEvent::Redraw(vec![
        event("busy_start", vec![]),
        scrolled(1),
        event("flush", vec![]),
    ]);
    assert_eq!(editor.receive(busy, false, 7).motion, Some(Motion::Snap));
}

#[test]
fn reports_are_passed_on() {
    let mut editor = started();
    let received = editor.receive(NvimEvent::Error("bad".into()), false, 0);
    assert!(received.notify && received.event.is_none() && !received.ended);
    assert_eq!(editor.status.as_deref(), Some("bad"));
    let received = editor.receive(NvimEvent::CloseCancelled, false, 0);
    assert_eq!(received.event, Some(EditorEvent::CloseCancelled));
    assert!(!editor.request_close());
    let received = editor.receive(NvimEvent::Exited(Some("gone".into())), false, 0);
    assert_eq!(received.event, Some(EditorEvent::Closed));
    assert!(received.ended && received.notify);
    assert_eq!(editor.status.as_deref(), Some("gone"));
    assert_eq!(editor.take_requests(), vec![Request::ConfirmQuit]);
    assert!(editor.may_close());
    assert!(editor.request_close());
    assert!(editor.take_requests().is_empty());
    let mut editor = started();
    let received = editor.receive(NvimEvent::Exited(None), false, 0);
    assert!(received.ended && !received.notify);
    assert!(editor.request_close());
}

#[test]
fn requests_are_made_in_order() {
    let mut editor = started();
    editor.activate();
    editor.send_text("a<b");
    editor.send_text("");
    assert!(editor.key_down(&Keystroke {
        key: "escape".into(),
        key_char: None,
        modifiers: Modifiers::none(),
    }));
    assert!(!editor.key_down(&Keystroke {
        key: "x".into(),
        key_char: Some("x".into()),
        modifiers: Modifiers::none(),
    }));
    editor.deactivate();
    assert_eq!(
        editor.take_requests(),
        vec![
            Request::Focus(true),
            Request::Input("a<LT>b".into()),
            Request::Input("<Esc>".into()),
            Request::Focus(false),
        ]
    );
    assert!(editor.take_requests().is_empty());
    let mut client = NvimClient::new();
    client.paste("p".into());
    client.resize(3, 4);
    client.focus(true);
    client.mouse("left", "press", "C".into(), 1, 2);
    client.input("k".into());
    client.confirm_quit();
    let requests = client.take_requests();
    assert_eq!(requests.len(), 6);
    let names: Vec<&str> = requests.iter().map(|request| request.operation()).collect();
    assert_eq!(names, vec!["paste", "resize", "focus", "mouse", "input", "quit"]);
    let calls: Vec<Call> = requests.into_iter().map(|request| request.into_call()).collect();
    assert_eq!(
        calls,
        vec![
            Call::Paste {
                text: "p".into(),
                crlf: true,
                phase: -1,
            },
            Call::TryResize {
                width: 3,
                height: 4,
            },
            Call::SetFocus { gained: true },
            Call::InputMouse {
                button: "left",
                action: "press",
                modifiers: "C".into(),
                grid: 0,
                row: 1,
                col: 2,
            },
            Call::Input { keys: "k".into() },
            Call::Command { line: "confirm qa" },
        ]
    );
}

#[test]
fn the_mouse_is_heard_while_it_is_wanted() {
    let mut editor = started();
    let none = Modifiers::none();
    editor.receive(resized(4, 3), false, 0);
    assert_eq!(editor.point_to_cell(9, 1), Some((2, 1)));
    assert_eq!(editor.point_to_cell(0, 4), Some((0, 3)));
    assert_eq!(started().point_to_cell(0, 0), None);
    editor.mouse_down(MouseButton::Left, Some((1, 1)), none);
    assert!(editor.take_requests().is_empty());
    editor.ui.mouse_enabled = true;
    let held = Modifiers { shift: true, ..none };
    editor.mouse_down(MouseButton::Left, Some((1, 1)), held);
    editor.mouse_move(Some(MouseButton::Right), Some((1, 2)), none);
    editor.mouse_move(None, Some((1, 3)), none);
    editor.mouse_up(MouseButton::Navigate, Some((2, 3)), none);
    editor.mouse_up(MouseButton::Left, None, none);
    editor.ui.mouse_enabled = false;
    for wheel in [Wheel::Up, Wheel::Down, Wheel::Left, Wheel::Right] {
        editor.scroll_wheel(wheel, 0, 1, none);
    }
    let told: Vec<(&str, &str, String, usize, usize)> = editor
        .take_requests()
        .into_iter()
        .map(|request| match request {
            Request::Mouse {
                button,
                action,
                modifiers,
                row,
                col,
            } => (button, action, modifiers, row, col),
            other => panic!("{other:?}"),
        })
        .collect();
    let expected = vec![
        ("left", "press", "S".to_string(), 1, 1),
        ("right", "drag", "".to_string(), 1, 2),
        ("move", "", "".to_string(), 1, 3),
        ("x1", "release", "".to_string(), 2, 3),
        ("wheel", "up", "".to_string(), 0, 1),
        ("wheel", "down", "".to_string(), 0, 1),
        ("wheel", "left", "".to_string(), 0, 1),
        ("wheel", "right", "".to_string(), 0, 1),
    ];
    assert_eq!(told, expected);
}

#[test]
fn the_cursor_blinks_only_at_rest() {
    let mut editor = started();
    assert_eq!(editor.blink_delay(), 100);
    assert!(!editor.blink(false));
    assert!(editor.cursor_visible);
    editor.ui.cursor_modes = vec![CursorMode {
        blink_on: 400,
        blink_off: 50,
        ..CursorMode::default()
    }];
    assert_eq!(editor.blink_delay(), 400);
    assert!(editor.blink(false));
    assert!(!editor.cursor_visible);
    assert_eq!(editor.blink_delay(), 100);
    assert!(editor.blink(true));
    assert!(editor.cursor_visible);
    editor.ui.busy = true;
    assert!(!editor.blink(false));
    assert!(editor.cursor_visible);
}

#[test]
fn composed_text_is_typed_once_it_is_done() {
    let mut editor = started();
    assert_eq!(editor.marked_text_range(), None);
    editor.replace_and_mark_text_in_range("ni😀", None);
    assert_eq!(editor.marked_text_range(), Some((0, 4)));
    assert_eq!(editor.selected_text_range(), (4, 4));
    assert_eq!(editor.text_for_range(), ("ni😀".to_string(), (0, 4)));
    editor.replace_and_mark_text_in_range("<你", Some((1, 2)));
    assert_eq!(editor.selected_text_range(), (1, 2));
    assert!(editor.take_requests().is_empty());
    editor.commit_marked_text();
    editor.commit_marked_text();
    assert_eq!(editor.take_requests(), vec![Request::Input("<LT>你".into())]);
    assert_eq!(editor.marked_text_range(), None);
    assert_eq!(editor.selected_text_range(), (0, 0));
    editor.replace_and_mark_text_in_range("x", None);
    editor.replace_text_in_range("y");
    assert_eq!(editor.take_requests(), vec![Request::Input("y".into())]);
    assert_eq!(editor.marked_text, "");
}

#[test]
fn sizes_are_asked_for_when_they_change() {
    let mut editor = started();
    assert!(editor.fit(0, 0));
    assert_eq!(editor.requested_size, (1, 1));
    assert!(!editor.fit(1, 1));
    assert!(editor.fit(80, 24));
    assert_eq!(
        editor.take_requests(),
        vec![Request::Resize(1, 1), Request::Resize(80, 24)]
    );
    editor.receive(resized(90, 2), false, 0);
    let frame = editor.frame();
    assert_eq!(frame.still.len(), 2);
    assert_eq!(frame.still[0].backgrounds[0].end, 80);
}

#[test]
fn fonts_are_chosen_when_the_option_changes() {
    let mut editor = started();
    assert!(editor.font_changed());
    let options = editor.choose_font(&["Menlo".into()]);
    assert!(options.is_empty());
    assert!(!editor.font_changed());
    editor.ui.guifont = "Hack,monaco:h12:b".into();
    assert!(editor.font_changed());
    let options = editor.choose_font(&["Monaco".into()]);
    assert_eq!(options, vec![FontOption::Height("12".to_string()), FontOption::Bold]);
    assert_eq!(editor.font_families, vec!["monaco"]);
    assert!(editor.measure(true));
    assert!(!editor.measure(false));
    editor.ui.linespace = 3;
    assert!(editor.measure(false));
    assert!(!editor.measure(false));
}

#[test]
fn neovim_is_found() {
    let shown = |path: &FilePath| path.display();
    let candidates = nvim_candidates(Some(b"/a:/b/::rel".to_vec()));
    let names: Vec<String> = candidates.iter().map(shown).collect();
    assert_eq!(
        names,
        vec![
            "/a/nvim",
            "/b/nvim",
            "nvim",
            "rel/nvim",
            "/opt/homebrew/bin/nvim",
            "/usr/local/bin/nvim",
        ]
    );
    assert_eq!(nvim_candidates(None).len(), 2);
    let found = find_nvim(None, &candidates, &[false, true, true, false, false, false]);
    assert_eq!(found.as_ref().map(shown).as_deref(), Some("/b/nvim"));
    assert!(find_nvim(None, &candidates, &[false; 6]).is_none());
    let named = find_nvim(Some(FilePath::new("/mine")), &candidates, &[true; 6]);
    assert_eq!(named.as_ref().map(shown).as_deref(), Some("/mine"));
}

#[test]
fn neovim_is_started_with_the_users_arguments() {
    let started = launch(
        Some(FilePath::new("/nvim")),
        Some(FilePath::new("/work")),
        vec![b"--clean".to_vec(), b"file".to_vec()],
    )
    .unwrap();
    assert_eq!(started.executable.display(), "/nvim");
    assert_eq!(started.directory.unwrap().display(), "/work");
    assert_eq!(started.environment, vec![("NUVI", "1")]);
    let arguments: Vec<String> = started
        .arguments
        .into_iter()
        .map(|argument| String::from_utf8(argument).unwrap())
        .collect();
    assert_eq!(
        arguments,
        vec!["--cmd", "let g:nuvi = v:true", "--embed", "--clean", "file"]
    );
    assert_eq!(
        launch(None, None, vec![]).unwrap_err(),
        "Could not find Neovim. Install nvim or set NUVI_NVIM to its full path."
    );
}

#[test]
fn starting_goes_on_until_it_fails() {
    let failed = || Err("x".to_string());
    let abandoned = |message: &str| StartStep::Abandon {
        message: message.into(),
        call: Call::Input {
            keys: "<Esc>:qa!<CR>".into(),
        },
        wait_seconds: 2,
    };
    assert_eq!(
        start_next(StartStage::Spawning, Ok(())),
        StartStep::Identify(Call::SetClientInfo {
            name: "nuvi",
            major: 0,
            minor: 1,
            patch: 0,
            kind: "ui",
        })
    );
    assert_eq!(
        start_next(StartStage::Identifying, Ok(())),
        StartStep::Attach(Call::Attach {
            width: 80,
            height: 24,
            rgb: true,
            linegrid: true,
            term: "nuvi",
        })
    );
    assert_eq!(start_next(StartStage::Attaching, Ok(())), StartStep::Run);
    assert_eq!(
        start_next(StartStage::Spawning, failed()),
        StartStep::Fail("Could not start Neovim: x".into())
    );
    assert_eq!(
        start_next(StartStage::Identifying, failed()),
        abandoned("Could not identify Nuvi to Neovim: x")
    );
    assert_eq!(
        start_next(StartStage::Attaching, failed()),
        abandoned("Could not attach the Nuvi UI: x")
    );
}

#[test]
fn requests_arrive_one_at_a_time_and_in_order() {
    let key = |keys: &str| Call::Input { keys: keys.into() };
    let mut client = NvimClient::new();
    client.input("a".into());
    client.input("b".into());
    let mut line = RequestLine::new();
    assert_eq!(line.next_call(), None);
    assert!(line.send(client.take_requests()).is_empty());
    assert_eq!(line.next_call(), Some(key("a")));
    assert_eq!(line.next_call(), None);
    client.input("c".into());
    line.send(client.take_requests());
    assert_eq!(line.next_call(), None);
    assert_eq!(
        line.answered(Err("full".into())),
        Some(NvimEvent::Error("Neovim input failed: full".into()))
    );
    assert_eq!(line.next_call(), Some(key("b")));
    assert_eq!(line.answered(Ok(())), None);
    assert_eq!(line.next_call(), Some(key("c")));
    assert_eq!(line.answered(Ok(())), None);
    assert_eq!(line.next_call(), None);
    assert_eq!(line.answered(Err("late".into())), None);
}

#[test]
fn quitting_waits_for_nothing() {
    let mut line = RequestLine::new();
    line.send(vec![Request::Focus(true), Request::Focus(false)]);
    assert!(line.next_call().is_some());
    let beside = line.send(vec![
        Request::Input("y".into()),
        Request::ConfirmQuit,
        Request::Paste("z".into()),
    ]);
    assert_eq!(beside, vec![Request::ConfirmQuit]);
    assert_eq!(
        line.waiting,
        vec![
            Request::Focus(false),
            Request::Input("y".into()),
            Request::Paste("z".into()),
        ]
    );
    assert!(Request::Resize(1, 2).waits_in_line());
    assert!(!Request::ConfirmQuit.waits_in_line());
    assert_eq!(quit_probe(), Call::Eval { expression: "1" });
}

#[test]
fn what_neovim_says_becomes_events() {
    assert_eq!(
        request_failed("paste", "no"),
        NvimEvent::Error("Neovim paste failed: no".into())
    );
    assert_eq!(quit_answered(Ok(()), false), vec![]);
    assert_eq!(quit_answered(Err("e".into()), false), vec![]);
    assert_eq!(quit_answered(Ok(()), true), vec![NvimEvent::CloseCancelled]);
    assert_eq!(
        quit_answered(Err("e".into()), true),
        vec![
            NvimEvent::Error("Neovim quit failed: e".into()),
            NvimEvent::CloseCancelled,
        ]
    );
    assert_eq!(stderr_event(" \n"), None);
    assert_eq!(stderr_event("  oops\n"), Some(NvimEvent::Error("oops".into())));
    assert_eq!(connection_event("e", true), None);
    assert_eq!(
        connection_event("e", false),
        Some(NvimEvent::Error("Neovim connection closed: e".into()))
    );
    assert_eq!(exit_event(ExitOutcome::Success), NvimEvent::Exited(None));
    assert_eq!(
        exit_event(ExitOutcome::Failure("exit status: 1".into())),
        NvimEvent::Exited(Some("Neovim exited unexpectedly (exit status: 1).".into()))
    );
    assert_eq!(
        exit_event(ExitOutcome::Unknown("e".into())),
        NvimEvent::Exited(Some("Could not read Neovim's exit status: e".into()))
    );
    assert_eq!(notification_kind("redraw"), Notification::Redraw);
    assert_eq!(notification_kind("nvim_error_event"), Notification::Error);
    assert_eq!(notification_kind("other"), Notification::Other);
    assert_eq!(error_event("[1]"), NvimEvent::Error("Neovim error: [1]".into()));
}
