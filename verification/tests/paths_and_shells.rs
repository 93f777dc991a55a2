use nuvi::paths::data_file;
use nuvi::paths::is_executable_file;
use nuvi::paths::FilePath;
use nuvi::shell::automatic_shell;
use nuvi::shell::available_shells;
use nuvi::shell::capture_command;
use nuvi::shell::captured_path;
use nuvi::shell::contains_path;
use nuvi::shell::first_buffer_size;
use nuvi::shell::is_usable_shell;
use nuvi::shell::listed_shells;
use nuvi::shell::next_buffer_size;
use nuvi::shell::path_from_env_output;
use nuvi::shell::save_selected_shell;
use nuvi::shell::selected_shell;
use nuvi::shell::shell_candidate;
use nuvi::shell::shell_file;
use nuvi::shell::startup_shell;
use nuvi::shell::Capture;
use nuvi::shell::CaptureStep;
use nuvi::shell::Reading;
use nuvi::shell::SavePlan;
use nuvi::shell::Waited;
use std::path::Path;
use std::path::PathBuf;

fn path(text: &str) -> FilePath {
    FilePath::new(text)
}

fn shown(path: &FilePath) -> String {
    path.display()
}

const PATHS: [&str; 32] = [
    "", "/", "//", ".", "..", "./", "../", "a", "a/", "a/b", "a//b", "a/./b", "./a", "./a/b", "/a",
    "//a", "/a/", "/a/b", "/a/b/", "/a//b", "/a/./b", "/a/b/.", "/a/..", "/a/../b", "a/.", "/.",
    "/./", "./.", "././a", "a/b/c", "/a/b/c/d", "a b/ü",
];

#[test]
fn paths_are_compared_as_the_standard_library_does() {
    for a in PATHS {
        for b in PATHS {
            assert_eq!(path(a) == path(b), Path::new(a) == Path::new(b), "{a:?} {b:?}");
        }
    }
}

#[test]
fn paths_have_names_and_parents() {
    for a in PATHS {
        let standard = Path::new(a);
        assert_eq!(path(a).is_absolute(), standard.is_absolute(), "{a:?}");
        assert_eq!(
            path(a).file_name().map(|name| String::from_utf8(name).unwrap()),
            standard.file_name().map(|name| name.to_str().unwrap().to_string()),
            "{a:?}"
        );
        assert_eq!(
            path(a).parent().map(|parent| shown(&parent)),
            standard.parent().map(|parent| parent.to_str().unwrap().to_string()),
            "{a:?}"
        );
    }
}

#[test]
fn paths_are_joined_and_stripped() {
    for a in PATHS {
        for b in PATHS {
            assert_eq!(
                shown(&path(a).join(&path(b))),
                PathBuf::from(a).join(b).to_str().unwrap(),
                "{a:?} {b:?}"
            );
            assert_eq!(
                path(a).strip_prefix(&path(b)).map(|rest| shown(&rest)),
                Path::new(a)
                    .strip_prefix(b)
                    .ok()
                    .map(|rest| rest.to_str().unwrap().to_string()),
                "{a:?} {b:?}"
            );
        }
    }
}

#[test]
fn the_parent_of_a_file_is_its_directory() {
    for directory in ["/", "/a", "/a/", "a", "a/.", "."] {
        let file = path(directory).join(&path("name"));
        assert!(file.parent().unwrap() == path(directory), "{directory:?}");
        assert_eq!(file.file_name(), Some(b"name".to_vec()));
    }
}

#[test]
fn paths_that_are_not_utf8_are_shown() {
    let odd = FilePath {
        bytes: b"/a\xffb".to_vec(),
    };
    assert_eq!(shown(&odd), "/a\u{fffd}b");
    assert_eq!(odd.clone().bytes, odd.bytes);
}

#[test]
fn files_are_kept_in_the_home_directory() {
    assert_eq!(
        data_file(Some(path("/Users/me")), "shell").map(|file| shown(&file)).as_deref(),
        Some("/Users/me/Library/Application Support/Nuvi/shell")
    );
    assert!(data_file(None, "shell").is_none());
    assert_eq!(
        shell_file(Some(path("/h/"))).map(|file| shown(&file)).as_deref(),
        Some("/h/Library/Application Support/Nuvi/shell")
    );
}

#[test]
fn files_are_executable_if_anyone_may() {
    assert!(is_executable_file(true, 0o100755));
    assert!(is_executable_file(true, 0o001));
    assert!(is_executable_file(true, 0o010));
    assert!(!is_executable_file(true, 0o644));
    assert!(!is_executable_file(false, 0o755));
    assert!(is_usable_shell(&path("/bin/sh"), true, 0o755));
    assert!(!is_usable_shell(&path("bin/sh"), true, 0o755));
    assert!(!is_usable_shell(&path("/bin/sh"), true, 0o600));
}

#[test]
fn reads_path_after_noisy_shell_startup() {
    let output = b"startup message\0USER=test\0PATH=/one:/two\0SHELL=/bin/zsh\0";
    assert_eq!(
        path_from_env_output(output),
        Some(b"/one:/two".to_vec())
    );
}

#[test]
fn the_last_path_counts_unless_it_is_empty() {
    assert_eq!(
        path_from_env_output(b"PATH=/a\0PATH=/b\0X=PATH=/c\0"),
        Some(b"/b".to_vec())
    );
    assert_eq!(path_from_env_output(b"PATH=/a\0PATH=\0"), None);
    assert_eq!(path_from_env_output(b"noise PATH=/a\0"), None);
    assert_eq!(path_from_env_output(b""), None);
    assert_eq!(path_from_env_output(b"\0\0PATH=/z"), Some(b"/z".to_vec()));
}

#[test]
fn shells_are_chosen() {
    assert_eq!(
        startup_shell(Some(path("/s")), true, path("/a")).map(|shell| shown(&shell)).as_deref(),
        Some("/s")
    );
    assert!(startup_shell(None, true, path("/a")).is_none());
    assert_eq!(
        startup_shell(None, false, path("/a")).map(|shell| shown(&shell)).as_deref(),
        Some("/a")
    );
    let candidate = |account: Option<&str>, variable: Option<&str>| {
        shell_candidate(account.map(path), variable.map(path)).map(|shell| shown(&shell))
    };
    assert_eq!(candidate(Some("/a"), Some("/b")).as_deref(), Some("/a"));
    assert_eq!(candidate(None, Some("/b")).as_deref(), Some("/b"));
    assert_eq!(candidate(None, None), None);
    assert_eq!(shown(&automatic_shell(Some(path("/b")), true)), "/b");
    assert_eq!(shown(&automatic_shell(Some(path("/b")), false)), "/bin/zsh");
    assert_eq!(shown(&automatic_shell(None, true)), "/bin/zsh");
}

#[test]
fn shells_are_listed() {
    let listed = listed_shells("# comment\n\n  /bin/bash \n/bin/sh\r\n#/bin/no\n/opt/fish");
    let names: Vec<String> = listed.iter().map(shown).collect();
    assert_eq!(names, vec!["/bin/bash", "/bin/sh", "/opt/fish"]);
    let available = available_shells(&listed, &[true, false, true], path("/bin/zsh"), true);
    let names: Vec<String> = available.iter().map(shown).collect();
    assert_eq!(names, vec!["/bin/bash", "/opt/fish", "/bin/zsh"]);
    let available = available_shells(&listed, &[true, false, true], path("/opt//fish/"), true);
    assert_eq!(available.len(), 2);
    let available = available_shells(&listed, &[false, false, false], path("/bin/zsh"), false);
    assert!(available.is_empty());
    assert!(contains_path(&listed, &path("/bin/./sh")));
    assert!(!contains_path(&listed, &path("/bin")));
    assert_eq!(shown(&selected_shell(" /bin/fish\n")), "/bin/fish");
}

#[test]
fn the_selection_is_saved_or_taken_back() {
    let home = || Some(path("/h"));
    let file = "/h/Library/Application Support/Nuvi/shell";
    assert!(matches!(save_selected_shell(None, None, true), SavePlan::Nothing));
    match save_selected_shell(home(), None, false) {
        SavePlan::Remove(removed) => assert_eq!(shown(&removed), file),
        other => panic!("{other:?}"),
    }
    match save_selected_shell(home(), Some(&path("/bin/sh")), false) {
        SavePlan::Refuse(message) => {
            assert_eq!(message, "the selected shell is not executable");
        }
        other => panic!("{other:?}"),
    }
    match save_selected_shell(home(), Some(&path("/bin/sh")), true) {
        SavePlan::Write {
            directory,
            file: written,
            contents,
        } => {
            assert_eq!(
                directory.map(|directory| shown(&directory)).as_deref(),
                Some("/h/Library/Application Support/Nuvi")
            );
            assert_eq!(shown(&written), file);
            assert_eq!(contents, "/bin/sh");
        }
        other => panic!("{other:?}"),
    }
}

#[test]
fn shells_are_run_as_login_shells() {
    let command = capture_command(&path("/bin/zsh"));
    assert_eq!(command.name, b"-zsh");
    assert_eq!(
        command.arguments,
        vec!["-i", "-c", "/usr/bin/printf '\\0'; exec /usr/bin/env -0"]
    );
    assert_eq!(capture_command(&path("/")).name, b"-sh");
    let shell = path("/bin/zsh");
    assert_eq!(
        captured_path(&shell, true, "", b"PATH=/x\0"),
        Ok(b"/x".to_vec())
    );
    assert_eq!(
        captured_path(&shell, true, "", b"HOME=/x\0"),
        Err("/bin/zsh did not report PATH".to_string())
    );
    assert_eq!(
        captured_path(&shell, false, "exit status: 1", b"PATH=/x\0"),
        Err("/bin/zsh exited with exit status: 1".to_string())
    );
}

fn looked(
    capture: Capture<u8>,
    waited: Waited<u8, &'static str>,
    reading: Reading<&'static str>,
    now: u64,
) -> (CaptureStep<u8, &'static str>, Capture<u8>) {
    capture.pass(waited, reading, now, 25_000_000)
}

#[test]
fn captures_end_when_the_time_is_up() {
    let mut now: u64 = 0;
    let mut capture = Capture::new();
    let mut looks = 0;
    loop {
        let (step, next) = looked(capture, Waited::Running, Reading::Pending, now);
        capture = next;
        looks += 1;
        match step {
            CaptureStep::Sleep(pause) => now += pause,
            CaptureStep::TimedOut => break,
            other => panic!("{other:?}"),
        }
    }
    assert_eq!(looks, 4);
    assert_eq!(now, 25_000_000);
}

#[test]
fn captures_take_the_status_and_all_output() {
    let (step, capture) = looked(Capture::new(), Waited::Ended(0), Reading::Pending, 0);
    assert!(matches!(step, CaptureStep::Sleep(10_000_000)));
    let (step, capture) = looked(capture, Waited::Ended(9), Reading::Pending, 1);
    assert!(matches!(step, CaptureStep::Sleep(_)));
    let (step, _) = looked(capture, Waited::Failed("late"), Reading::Finished(vec![7]), 2);
    match step {
        CaptureStep::Finished(status, output) => {
            assert_eq!(status, 0);
            assert_eq!(output, vec![7]);
        }
        other => panic!("{other:?}"),
    }
}

#[test]
fn captures_fail_as_soon_as_a_look_does() {
    let (step, _) = looked(Capture::new(), Waited::Failed("wait"), Reading::Failed("read"), 0);
    assert!(matches!(step, CaptureStep::WaitFailed("wait")));
    let (step, _) = looked(Capture::new(), Waited::Ended(0), Reading::Failed("read"), 0);
    assert!(matches!(step, CaptureStep::ReadFailed("read")));
    let (step, _) = looked(Capture::new(), Waited::Running, Reading::Stopped, 0);
    assert!(matches!(step, CaptureStep::ReaderStopped));
    let (step, capture) = looked(Capture::new(), Waited::Running, Reading::Finished(vec![]), 0);
    assert!(matches!(step, CaptureStep::Sleep(_)));
    let (step, _) = looked(capture, Waited::Ended(1), Reading::Stopped, 30_000_000);
    assert!(matches!(step, CaptureStep::Finished(1, _)));
}

#[test]
fn room_for_account_data_grows_within_bounds() {
    assert_eq!(first_buffer_size(-1), 16384);
    assert_eq!(first_buffer_size(0), 16384);
    assert_eq!(first_buffer_size(1024), 16384);
    assert_eq!(first_buffer_size(20000), 20000);
    assert_eq!(first_buffer_size(i64::MAX), 1048576);
    assert_eq!(next_buffer_size(16384), Some(32768));
    assert_eq!(next_buffer_size(600000), Some(1048576));
    assert_eq!(next_buffer_size(1048576), None);
}
