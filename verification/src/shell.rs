//! The user's shell, and the search path that it sets up. An application that is
//! not started from a terminal has to ask the shell for it.

use crate::nvim::prefixed;
use crate::paths;
use crate::paths::FilePath;
use crate::text;
use vstd::prelude::*;
use vstd::string::*;
use vstd::utf8::*;

verus! {

/// The shell that is used where no other is found.
pub const DEFAULT_SHELL: &'static str = "/bin/zsh";

/// The least room for an account's data, in bytes.
pub const DEFAULT_PASSWD_BUFFER_SIZE: usize = 16384;

/// The most room for an account's data, in bytes.
pub const MAX_PASSWD_BUFFER_SIZE: usize = 1048576;

/// How long a shell may take to report its environment, in nanoseconds.
pub const SHELL_CAPTURE_TIMEOUT: u64 = 5_000_000_000;

/// How long to wait between looks at a shell that is running, in nanoseconds.
pub const SHELL_POLL_INTERVAL: u64 = 10_000_000;

/// What the variable of the search path starts with.
pub open spec fn path_prefix() -> Seq<u8> {
    seq![0x50u8, 0x41u8, 0x54u8, 0x48u8, 0x3du8]
}

/// The value of the last search path among the first `n` variables.
pub open spec fn last_path(variables: Seq<Seq<u8>>, n: nat) -> Option<Seq<u8>>
    decreases n,
{
    if n == 0 {
        None
    } else if path_prefix().is_prefix_of(variables[n - 1]) {
        Some(variables[n - 1].skip(5))
    } else {
        last_path(variables, (n - 1) as nat)
    }
}

/// The search path that an environment reports, in variables that end with zero
/// bytes. Whatever the shell wrote before them is no variable. An empty path is
/// none.
pub open spec fn reported_path(output: Seq<u8>) -> Option<Seq<u8>> {
    let variables = text::split_on(output, 0u8);
    match last_path(variables, variables.len()) {
        Some(path) => if path.len() > 0 {
            Some(path)
        } else {
            None
        },
        None => None,
    }
}

/// What bytes, if there are any, hold.
pub open spec fn bytes_view(bytes: Option<Vec<u8>>) -> Option<Seq<u8>> {
    match bytes {
        Some(found) => Some(found@),
        None => None,
    }
}

fn has_path_prefix(variable: &[u8]) -> (has: bool)
    ensures
        has == path_prefix().is_prefix_of(variable@),
{
    let has = variable.len() >= 5 && variable[0] == 0x50 && variable[1] == 0x41 && variable[2]
        == 0x54 && variable[3] == 0x48 && variable[4] == 0x3d;
    proof {
        if has {
            assert(path_prefix() =~= variable@.subrange(0, 5));
        }
        if path_prefix().is_prefix_of(variable@) {
            let start = variable@.subrange(0, 5);
            assert(start == path_prefix());
            assert(start[0] == variable@[0] && start[1] == variable@[1] && start[2] == variable@[2]
                && start[3] == variable@[3] && start[4] == variable@[4]);
        }
    }
    has
}

/// Finds the search path in what a shell reported.
pub fn path_from_env_output(output: &[u8]) -> (path: Option<Vec<u8>>)
    ensures
        bytes_view(path) == reported_path(output@),
{
    let variables = text::split_bytes(output, 0);
    let ghost listed = text::split_on(output@, 0u8);
    let mut at: usize = variables.len();
    while at > 0
        invariant
            text::lists_view(variables@) == listed,
            at <= variables@.len(),
            last_path(listed, listed.len()) == last_path(listed, at as nat),
            listed == text::split_on(output@, 0u8),
        decreases at,
    {
        at -= 1;
        let variable = &variables[at];
        assert(variable@ == listed[at as int]);
        if has_path_prefix(variable.as_slice()) {
            if variable.len() == 5 {
                return None;
            }
            let path = vstd::slice::slice_subrange(variable.as_slice(), 5, variable.len());
            assert(path@ =~= variable@.skip(5));
            return Some(vstd::slice::slice_to_vec(path));
        }
    }
    None
}

/// What a shell writes before it reports its environment does not get in the way,
/// nor do other variables: the search path is found.
pub proof fn law_noise_does_not_hide_the_path(noise: Seq<u8>, path: Seq<u8>, rest: Seq<u8>)
    requires
        path.len() > 0,
        !path.contains(0u8),
        forall|i: int|
            0 <= i < text::split_on(rest, 0u8).len() ==> !path_prefix().is_prefix_of(
                #[trigger] text::split_on(rest, 0u8)[i],
            ),
    ensures
        reported_path((noise.push(0u8) + (path_prefix() + path)).push(0u8) + rest) == Some(path),
{
    let variable = path_prefix() + path;
    let front = noise.push(0u8) + variable;
    let before = text::split_on(noise, 0u8);
    let after = text::split_on(rest, 0u8);
    let all = text::split_on(front.push(0u8) + rest, 0u8);
    text::lemma_split_at_separator(front, 0u8, rest);
    text::lemma_split_at_separator(noise, 0u8, variable);
    assert forall|i: int| 0 <= i < variable.len() implies variable[i] != 0u8 by {
        if i >= 5 {
            assert(variable[i] == path[i - 5]);
        }
    }
    text::lemma_split_last_piece(noise, 0u8, variable);
    assert(all =~= (before + seq![variable]) + after);
    let at = before.len() as int;
    assert(all[at] == variable);
    assert(variable.subrange(0, 5) =~= path_prefix());
    assert(variable.skip(5) =~= path);
    lemma_later_variables(all, (at + 1) as nat, all.len());
}

/// Variables that hold no search path do not change which one is the last.
proof fn lemma_later_variables(variables: Seq<Seq<u8>>, first: nat, n: nat)
    requires
        first <= n <= variables.len(),
        forall|i: int|
            first <= i < n ==> !path_prefix().is_prefix_of(#[trigger] variables[i]),
    ensures
        last_path(variables, n) == last_path(variables, first),
    decreases n,
{
    if n > first {
        lemma_later_variables(variables, first, (n - 1) as nat);
    }
}

/// Whether a shell can be used: it is named by a path from the root, and can be
/// executed.
pub fn is_usable_shell(path: &FilePath, is_file: bool, mode: u32) -> (usable: bool)
    ensures
        usable == (paths::is_rooted(path@) && is_file && mode & 0o111 != 0),
{
    path.is_absolute() && paths::is_executable_file(is_file, mode)
}

/// Chooses the shell whose search path is taken over: the one that the user
/// selected, or else the automatic one. An application that was started from a
/// terminal has a search path already and takes none over, unless a shell is
/// selected.
pub fn startup_shell(selected: Option<FilePath>, on_terminal: bool, automatic: FilePath) -> (shell:
    Option<FilePath>)
    ensures
        selected is Some ==> shell == selected,
        selected is None && on_terminal ==> shell is None,
        selected is None && !on_terminal ==> shell == Some(automatic),
{
    if selected.is_some() {
        selected
    } else if on_terminal {
        None
    } else {
        Some(automatic)
    }
}

/// The shell to try as the automatic one: that of the account, or else that of the
/// environment.
pub fn shell_candidate(account: Option<FilePath>, variable: Option<FilePath>) -> (candidate: Option<
    FilePath,
>)
    ensures
        account is Some ==> candidate == account,
        account is None ==> candidate == variable,
{
    if account.is_some() {
        account
    } else {
        variable
    }
}

/// The automatic shell: the candidate, if it can be used, or else the default one.
pub fn automatic_shell(candidate: Option<FilePath>, usable: bool) -> (shell: FilePath)
    ensures
        usable && candidate is Some ==> candidate == Some(shell),
        !usable || candidate is None ==> shell@ == encode_utf8(DEFAULT_SHELL@),
{
    match candidate {
        Some(shell) if usable => shell,
        _ => FilePath::new(DEFAULT_SHELL),
    }
}

/// The shell that a line names. Blank lines and comments name none.
pub open spec fn shell_named(line: Seq<char>) -> Option<Seq<char>> {
    let name = text::trimmed(line);
    if name.len() == 0 || name[0] == '#' {
        None
    } else {
        Some(name)
    }
}

/// The shells that the first `n` lines name.
pub open spec fn shells_named(lines: Seq<Seq<char>>, n: nat) -> Seq<Seq<u8>>
    decreases n,
{
    if n == 0 {
        Seq::empty()
    } else {
        let before = shells_named(lines, (n - 1) as nat);
        match shell_named(lines[n - 1]) {
            Some(name) => before.push(encode_utf8(name)),
            None => before,
        }
    }
}

/// Lists the shells that a file of shells names, one on a line.
pub fn listed_shells(contents: &str) -> (shells: Vec<FilePath>)
    ensures
        paths::paths_view(shells@) == shells_named(
            text::lines_of(contents@),
            text::lines_of(contents@).len(),
        ),
{
    let lines = text::lines(contents);
    let ghost all = text::lines_of(contents@);
    let mut shells: Vec<FilePath> = Vec::new();
    let mut at: usize = 0;
    assert(paths::paths_view(shells@) =~= Seq::empty());
    while at < lines.len()
        invariant
            text::strings_view(lines@) == all,
            at <= lines@.len(),
            paths::paths_view(shells@) == shells_named(all, at as nat),
        decreases lines@.len() - at,
    {
        let ghost before = paths::paths_view(shells@);
        assert(lines@[at as int]@ == all[at as int]);
        let name = text::trim(lines[at].as_str());
        if name.as_str().unicode_len() > 0 && name.as_str().get_char(0) != '#' {
            let shell = FilePath::new(name.as_str());
            shells.push(shell);
            assert(paths::paths_view(shells@) =~= before.push(shell@));
        }
        at += 1;
    }
    shells
}

/// Whether a list holds a path that leads through the same names as another one.
pub open spec fn holds_path(list: Seq<Seq<u8>>, path: Seq<u8>) -> bool {
    exists|i: int|
        0 <= i < list.len() && paths::components_of(#[trigger] list[i]) == paths::components_of(path)
}

/// Whether a list holds a path.
pub fn contains_path(list: &[FilePath], path: &FilePath) -> (found: bool)
    ensures
        found == holds_path(paths::paths_view(list@), path@),
{
    let mut at: usize = 0;
    while at < list.len()
        invariant
            at <= list@.len(),
            forall|i: int|
                0 <= i < at ==> paths::components_of(#[trigger] paths::paths_view(list@)[i])
                    != paths::components_of(path@),
        decreases list@.len() - at,
    {
        if list[at].same_path(path) {
            assert(paths::components_of(paths::paths_view(list@)[at as int])
                == paths::components_of(path@));
            return true;
        }
        at += 1;
    }
    false
}

/// The shells to choose from: those listed that can be used, and the automatic one
/// if it is not among them.
pub fn available_shells(
    listed: &[FilePath],
    usable: &[bool],
    automatic: FilePath,
    automatic_usable: bool,
) -> (shells: Vec<FilePath>)
    requires
        listed@.len() == usable@.len(),
    ensures
        ({
            let found = paths::chosen_of(paths::paths_view(listed@), usable@, listed@.len());
            paths::paths_view(shells@) == if automatic_usable && !holds_path(found, automatic@) {
                found.push(automatic@)
            } else {
                found
            }
        }),
{
    let mut shells = paths::chosen(listed, usable);
    if automatic_usable && !contains_path(shells.as_slice(), &automatic) {
        let ghost before = paths::paths_view(shells@);
        shells.push(automatic);
        assert(paths::paths_view(shells@) =~= before.push(automatic@));
    }
    shells
}

/// The file that holds the user's selection, if there is a home directory.
pub fn shell_file(home: Option<FilePath>) -> (file: Option<FilePath>)
    ensures
        match home {
            Some(home) => paths::path_view(file) == Some(paths::data_path(home@, "shell"@)),
            None => file is None,
        },
{
    paths::data_file(home, "shell")
}

/// The shell that the file of the user's selection names.
pub fn selected_shell(contents: &str) -> (shell: FilePath)
    ensures
        shell@ == encode_utf8(text::trimmed(contents@)),
{
    FilePath::new(text::trim(contents).as_str())
}

/// What is to be done to save the user's selection.
#[derive(Debug)]
pub enum SavePlan {
    /// Nothing: there is no home directory.
    Nothing,
    /// Remove the file, if it is there.
    Remove(FilePath),
    /// Refuse, with a message.
    Refuse(String),
    /// Make the directory, if it is not there, and write the file.
    Write { directory: Option<FilePath>, file: FilePath, contents: String },
}

/// Works out what is to be done to save the user's selection, or to take it back.
pub fn save_selected_shell(home: Option<FilePath>, shell: Option<&FilePath>, usable: bool) -> (plan:
    SavePlan)
    ensures
        match (home, shell) {
            (None, _) => plan is Nothing,
            (Some(home), None) => plan matches SavePlan::Remove(file) && file@ == paths::data_path(
                home@,
                "shell"@,
            ),
            (Some(home), Some(shell)) => if usable {
                plan matches SavePlan::Write { directory, file, contents } && {
                    &&& file@ == paths::data_path(home@, "shell"@)
                    &&& paths::path_view(directory) == paths::parent_of(file@)
                    &&& contents@ == text::lossy_text(shell@)
                }
            } else {
                plan matches SavePlan::Refuse(message) && message@
                    == "the selected shell is not executable"@
            },
        },
{
    let file = match shell_file(home) {
        Some(file) => file,
        None => {
            return SavePlan::Nothing;
        },
    };
    match shell {
        None => SavePlan::Remove(file),
        Some(shell) => if usable {
            SavePlan::Write { directory: file.parent(), file, contents: shell.display() }
        } else {
            SavePlan::Refuse("the selected shell is not executable".to_owned())
        },
    }
}

/// How a shell is run to report its environment.
#[derive(Debug)]
pub struct CaptureCommand {
    /// What the shell is told that it is called: a leading hyphen makes it a login
    /// shell.
    pub name: Vec<u8>,
    pub arguments: Vec<&'static str>,
}

/// What the shell is told that it is called.
pub open spec fn login_name(shell: Seq<u8>) -> Seq<u8> {
    encode_utf8("-"@) + match paths::file_name_of(shell) {
        Some(name) => name,
        None => encode_utf8("sh"@),
    }
}

/// Works out how a shell is run to report its environment. It is interactive, so
/// that it reads all of its startup files, and parts what those print from the
/// variables by a zero byte.
pub fn capture_command(shell: &FilePath) -> (command: CaptureCommand)
    ensures
        command.name@ == login_name(shell@),
        command.arguments@ == seq!["-i", "-c", "/usr/bin/printf '\\0'; exec /usr/bin/env -0"],
{
    let own = match shell.file_name() {
        Some(name) => name,
        None => "sh".as_bytes_vec(),
    };
    let mut name = "-".as_bytes_vec();
    name.extend_from_slice(own.as_slice());
    assert(name@ =~= login_name(shell@));
    let arguments = vec!["-i", "-c", "/usr/bin/printf '\\0'; exec /usr/bin/env -0"];
    assert(arguments@ =~= seq!["-i", "-c", "/usr/bin/printf '\\0'; exec /usr/bin/env -0"]);
    CaptureCommand { name, arguments }
}

/// The search path that a shell reported, or what is said where there is none.
pub open spec fn captured_of(
    shell: Seq<u8>,
    success: bool,
    status: Seq<char>,
    output: Seq<u8>,
) -> Result<Seq<u8>, Seq<char>> {
    if !success {
        Err(text::lossy_text(shell) + " exited with "@ + status)
    } else {
        match reported_path(output) {
            Some(path) => Ok(path),
            None => Err(text::lossy_text(shell) + " did not report PATH"@),
        }
    }
}

/// The search path that a shell reported, once it ended with a status that a text
/// describes.
pub fn captured_path(shell: &FilePath, success: bool, status: &str, output: &[u8]) -> (path: Result<
    Vec<u8>,
    String,
>)
    ensures
        match path {
            Ok(found) => captured_of(shell@, success, status@, output@) == Ok::<
                Seq<u8>,
                Seq<char>,
            >(found@),
            Err(message) => captured_of(shell@, success, status@, output@) == Err::<
                Seq<u8>,
                Seq<char>,
            >(message@),
        },
{
    if !success {
        let mut message = shell.display();
        message.append(" exited with ");
        message.append(status);
        return Err(message);
    }
    match path_from_env_output(output) {
        Some(path) => Ok(path),
        None => {
            let shown = shell.display();
            Err(prefixed(shown.as_str(), " did not report PATH"))
        },
    }
}

/// What a look at the running shell found.
#[derive(Debug)]
pub enum Waited<T, E> {
    Running,
    Ended(T),
    Failed(E),
}

/// What a look at the reader of the shell's output found.
#[derive(Debug)]
pub enum Reading<E> {
    Pending,
    Finished(Vec<u8>),
    Failed(E),
    /// The reader is gone without a result.
    Stopped,
}

/// What is known of a shell that was run: how it ended, and all that it wrote.
#[derive(Debug)]
pub struct Capture<T> {
    pub status: Option<T>,
    pub output: Option<Vec<u8>>,
}

/// What is done after a look at the shell. In every case but the first and the
/// last all that is left of the shell is killed.
#[derive(Debug)]
pub enum CaptureStep<T, E> {
    /// The shell has ended and all its output is read.
    Finished(T, Vec<u8>),
    /// Looking at the shell failed.
    WaitFailed(E),
    /// Reading its output failed.
    ReadFailed(E),
    ReaderStopped,
    TimedOut,
    /// Look again after so many nanoseconds.
    Sleep(u64),
}

impl<T> Capture<T> {
    /// Nothing is known yet.
    pub fn new() -> (capture: Self)
        ensures
            capture.status is None,
            capture.output is None,
    {
        Capture { status: None, output: None }
    }

    /// How the shell ended, with what a look found. The first answer counts.
    pub open spec fn status_with<E>(self, waited: Waited<T, E>) -> Option<T> {
        match self.status {
            Some(status) => Some(status),
            None => match waited {
                Waited::Ended(status) => Some(status),
                _ => None,
            },
        }
    }

    /// What the shell wrote, with what a look found. The first answer counts.
    pub open spec fn output_with<E>(self, reading: Reading<E>) -> Option<Vec<u8>> {
        match self.output {
            Some(output) => Some(output),
            None => match reading {
                Reading::Finished(output) => Some(output),
                _ => None,
            },
        }
    }

    /// What is done after a look at the shell and at the reader of its output.
    pub open spec fn step_after<E>(
        self,
        waited: Waited<T, E>,
        reading: Reading<E>,
        now: u64,
        deadline: u64,
    ) -> CaptureStep<T, E> {
        let status = self.status_with(waited);
        let output = self.output_with(reading);
        if self.status is None && waited is Failed {
            CaptureStep::WaitFailed(waited->Failed_0)
        } else if self.output is None && reading is Failed {
            CaptureStep::ReadFailed(reading->Failed_0)
        } else if self.output is None && reading is Stopped {
            CaptureStep::ReaderStopped
        } else if status is Some && output is Some {
            CaptureStep::Finished(status->0, output->0)
        } else if now >= deadline {
            CaptureStep::TimedOut
        } else if deadline - now < SHELL_POLL_INTERVAL {
            CaptureStep::Sleep((deadline - now) as u64)
        } else {
            CaptureStep::Sleep(SHELL_POLL_INTERVAL)
        }
    }

    /// Takes up what a look at the shell and at the reader of its output found.
    pub fn pass<E>(
        self,
        waited: Waited<T, E>,
        reading: Reading<E>,
        now: u64,
        deadline: u64,
    ) -> (next: (CaptureStep<T, E>, Capture<T>))
        ensures
            next.0 == self.step_after(waited, reading, now, deadline),
            next.0 is Sleep ==> next.1.status == self.status_with(waited) && next.1.output
                == self.output_with(reading),
    {
        let status = match self.status {
            Some(status) => Some(status),
            None => match waited {
                Waited::Ended(status) => Some(status),
                Waited::Failed(error) => {
                    return (
                        CaptureStep::WaitFailed(error),
                        Capture { status: None, output: self.output },
                    );
                },
                Waited::Running => None,
            },
        };
        let output = match self.output {
            Some(output) => Some(output),
            None => match reading {
                Reading::Finished(output) => Some(output),
                Reading::Failed(error) => {
                    return (CaptureStep::ReadFailed(error), Capture { status, output: None });
                },
                Reading::Stopped => {
                    return (CaptureStep::ReaderStopped, Capture { status, output: None });
                },
                Reading::Pending => None,
            },
        };
        match (status, output) {
            (Some(status), Some(output)) => (
                CaptureStep::Finished(status, output),
                Capture { status: None, output: None },
            ),
            (status, output) => {
                let step = if now >= deadline {
                    CaptureStep::TimedOut
                } else if deadline - now < SHELL_POLL_INTERVAL {
                    CaptureStep::Sleep(deadline - now)
                } else {
                    CaptureStep::Sleep(SHELL_POLL_INTERVAL)
                };
                (step, Capture { status, output })
            },
        }
    }
}

/// A capture ends: once the time is up there is no further look, and a look is
/// never put off beyond that time.
pub proof fn law_captures_end<T, E>(
    capture: Capture<T>,
    waited: Waited<T, E>,
    reading: Reading<E>,
    now: u64,
    deadline: u64,
)
    ensures
        now >= deadline ==> !(capture.step_after(waited, reading, now, deadline) is Sleep),
        capture.step_after(waited, reading, now, deadline) matches CaptureStep::Sleep(pause) ==> 0
            < pause && now + pause <= deadline,
{
}

/// A number within bounds.
pub open spec fn within(n: int, least: int, most: int) -> int {
    if n < least {
        least
    } else if n > most {
        most
    } else {
        n
    }
}

/// The room to make for an account's data at first, given what the system suggests:
/// nothing where that is not above zero.
pub fn first_buffer_size(suggested: i64) -> (size: usize)
    ensures
        size == within(
            suggested as int,
            DEFAULT_PASSWD_BUFFER_SIZE as int,
            MAX_PASSWD_BUFFER_SIZE as int,
        ),
{
    if suggested < DEFAULT_PASSWD_BUFFER_SIZE as i64 {
        DEFAULT_PASSWD_BUFFER_SIZE
    } else if suggested > MAX_PASSWD_BUFFER_SIZE as i64 {
        MAX_PASSWD_BUFFER_SIZE
    } else {
        suggested as usize
    }
}

/// The room to make for an account's data after it did not fit, unless there can
/// be no more: twice as much, within bounds.
pub fn next_buffer_size(size: usize) -> (next: Option<usize>)
    ensures
        next is Some <==> size < MAX_PASSWD_BUFFER_SIZE,
        next matches Some(larger) ==> larger == if size * 2 < MAX_PASSWD_BUFFER_SIZE {
            size * 2
        } else {
            MAX_PASSWD_BUFFER_SIZE as int
        },
        size > 0 ==> (next matches Some(larger) ==> larger > size),
{
    if size >= MAX_PASSWD_BUFFER_SIZE {
        None
    } else if size < MAX_PASSWD_BUFFER_SIZE / 2 {
        Some(size * 2)
    } else {
        Some(MAX_PASSWD_BUFFER_SIZE)
    }
}

/// The search path is that of the last variable of that name, whatever comes before and
/// after it. An empty one is none.
pub proof fn law_the_last_path_counts(variables: Seq<Seq<u8>>, index: int)
    requires
        variables.len() > 0,
        -1 <= index < variables.len(),
        forall|i: int| 0 <= i < variables.len() ==> !(#[trigger] variables[i]).contains(0u8),
        index >= 0 ==> seq![0x50u8, 0x41u8, 0x54u8, 0x48u8, 0x3du8].is_prefix_of(variables[index]),
        forall|i: int|
            index < i < variables.len() ==> !seq![0x50u8, 0x41u8, 0x54u8, 0x48u8, 0x3du8].is_prefix_of(
                #[trigger] variables[i],
            ),
    ensures
        ({
            let reported = reported_path(text::joined(variables, seq![0u8]));
            &&& index < 0 ==> reported is None
            &&& index >= 0 && variables[index].len() == 5 ==> reported is None
            &&& index >= 0 && variables[index].len() > 5 ==> reported == Some(
                variables[index].skip(5),
            )
        }),
{
    text::lemma_split_joined(variables, 0u8);
    lemma_later_variables(variables, (index + 1) as nat, variables.len());
}

proof fn lemma_shells_front(a: Seq<Seq<char>>, b: Seq<Seq<char>>, n: nat)
    requires
        n <= a.len(),
    ensures
        shells_named(a + b, n) == shells_named(a, n),
    decreases n,
{
    if n > 0 {
        lemma_shells_front(a, b, (n - 1) as nat);
        assert((a + b)[n - 1] == a[n - 1]);
    }
}

proof fn lemma_shells_parts(a: Seq<Seq<char>>, b: Seq<Seq<char>>, n: nat)
    requires
        n <= b.len(),
    ensures
        shells_named(a + b, a.len() + n) == shells_named(a, a.len()) + shells_named(b, n),
    decreases n,
{
    let first = shells_named(a, a.len());
    if n == 0 {
        lemma_shells_front(a, b, a.len());
        assert(first + shells_named(b, 0) =~= first);
    } else {
        lemma_shells_parts(a, b, (n - 1) as nat);
        assert((a + b)[a.len() + n - 1] == b[n - 1]);
        assert(shells_named(a + b, a.len() + n) =~= first + shells_named(b, n));
    }
}

/// The shells of a file are listed line by line. A line names the shell that it spells,
/// without the white space around it, unless nothing else is there or it starts with `#`.
pub proof fn law_shells_are_listed_line_by_line(
    a: Seq<Seq<char>>,
    b: Seq<Seq<char>>,
    line: Seq<char>,
)
    ensures
        shells_named(a + b, (a + b).len()) == shells_named(a, a.len()) + shells_named(b, b.len()),
        ({
            let name = text::trimmed(line);
            let listed = shells_named(seq![line], 1);
            &&& name.len() == 0 ==> listed.len() == 0
            &&& name.len() > 0 && name[0] == '#' ==> listed.len() == 0
            &&& name.len() > 0 && name[0] != '#' ==> listed == seq![encode_utf8(name)]
        }),
{
    lemma_shells_parts(a, b, b.len());
    assert(seq![line][0] == line);
    assert(shells_named(seq![line], 0) =~= Seq::empty());
    let name = text::trimmed(line);
    if name.len() > 0 && name[0] != '#' {
        assert(shells_named(seq![line], 1) =~= seq![encode_utf8(name)]);
    }
}

/// A list holds a path where one of its paths leads through the same names from the same
/// start.
pub proof fn law_lists_hold_paths_by_their_names(list: Seq<Seq<u8>>, path: Seq<u8>)
    ensures
        holds_path(list, path) <==> exists|i: int|
            {
                &&& 0 <= i < list.len()
                &&& paths::names_of(#[trigger] list[i]) == paths::names_of(path)
                &&& paths::is_rooted(list[i]) == paths::is_rooted(path)
            },
{
    if exists|i: int|
        {
            &&& 0 <= i < list.len()
            &&& paths::names_of(#[trigger] list[i]) == paths::names_of(path)
            &&& paths::is_rooted(list[i]) == paths::is_rooted(path)
        } {
        let i = choose|i: int|
            {
                &&& 0 <= i < list.len()
                &&& paths::names_of(#[trigger] list[i]) == paths::names_of(path)
                &&& paths::is_rooted(list[i]) == paths::is_rooted(path)
            };
        assert(paths::components_of(list[i]) == paths::components_of(path));
    }
}

/// A capture is finished exactly when it is known how the shell ended and what it wrote, from
/// this look or from an earlier one, and nothing failed now. It gives up only once the time
/// is up.
pub proof fn law_captures_end_with_all_that_is_known<T, E>(
    capture: Capture<T>,
    waited: Waited<T, E>,
    reading: Reading<E>,
    now: u64,
    deadline: u64,
)
    ensures
        ({
            let step = capture.step_after(waited, reading, now, deadline);
            let ended = capture.status is Some || waited is Ended;
            let written = capture.output is Some || reading is Finished;
            let failed = (capture.status is None && waited is Failed) || (capture.output is None && (
            reading is Failed || reading is Stopped));
            &&& step is Finished <==> ended && written && !failed
            &&& step matches CaptureStep::Finished(status, output) ==> {
                &&& capture.status is Some ==> Some(status) == capture.status
                &&& capture.status is None ==> waited == Waited::<T, E>::Ended(status)
                &&& capture.output is Some ==> Some(output) == capture.output
                &&& capture.output is None ==> reading == Reading::<E>::Finished(output)
            }
            &&& step is TimedOut <==> !(ended && written) && !failed && now >= deadline
            &&& step is Sleep <==> !(ended && written) && !failed && now < deadline
            &&& step matches CaptureStep::Sleep(pause) ==> pause <= 10_000_000 && (pause
                == 10_000_000 || now + pause == deadline)
            &&& capture.status is None && waited is Failed ==> step is WaitFailed
            &&& step is WaitFailed ==> waited is Failed && step->WaitFailed_0 == waited->Failed_0
            &&& step is ReadFailed ==> reading is Failed && step->ReadFailed_0
                == reading->Failed_0
            &&& step is ReaderStopped ==> reading is Stopped
        }),
{
}

/// What is known of a shell stays known, and what a look finds is known from then on.
pub proof fn law_captures_forget_nothing<T, E>(
    capture: Capture<T>,
    waited: Waited<T, E>,
    reading: Reading<E>,
)
    ensures
        capture.status is Some ==> capture.status_with(waited) == capture.status,
        capture.status is None ==> (waited matches Waited::Ended(status) ==> capture.status_with(
            waited,
        ) == Some(status)),
        capture.status is None && waited !is Ended ==> capture.status_with(waited) is None,
        capture.output is Some ==> capture.output_with(reading) == capture.output,
        capture.output is None ==> (reading matches Reading::Finished(output)
            ==> capture.output_with(reading) == Some(output)),
        capture.output is None && reading !is Finished ==> capture.output_with(reading) is None,
{
}

/// A shell that ended well and reported a search path gives that; in all other cases a
/// message starts with the shell.
pub proof fn law_captures_give_the_reported_path(
    shell: Seq<u8>,
    success: bool,
    status: Seq<char>,
    output: Seq<u8>,
)
    ensures
        ({
            let captured = captured_of(shell, success, status, output);
            &&& captured is Ok <==> success && reported_path(output) is Some
            &&& captured matches Ok(path) ==> reported_path(output) == Some(path)
            &&& captured matches Err(message) ==> text::lossy_text(shell).is_prefix_of(message)
        }),
{
    let captured = captured_of(shell, success, status, output);
    let shown = text::lossy_text(shell);
    if captured is Err {
        let message = captured->Err_0;
        assert(message.take(shown.len() as int) =~= shown);
    }
}

/// A number that is brought within bounds stays as it is if it is within them, and is the
/// nearer bound otherwise.
pub proof fn law_bounds_are_kept(n: int, least: int, most: int)
    requires
        least <= most,
    ensures
        least <= within(n, least, most) <= most,
        least <= n <= most ==> within(n, least, most) == n,
        n < least ==> within(n, least, most) == least,
        n > most ==> within(n, least, most) == most,
{
}

/// A shell is told that it is a login shell: that it is called by its own name, after a
/// hyphen.
pub proof fn law_shells_are_login_shells(shell: Seq<u8>)
    ensures
        login_name(shell).len() > 0,
        login_name(shell)[0] == 0x2d,
        paths::file_name_of(shell) matches Some(name) ==> login_name(shell).drop_first() == name,
        paths::file_name_of(shell) is None ==> login_name(shell).drop_first() == seq![
            0x73u8,
            0x68u8,
        ],
{
    reveal_strlit("-");
    reveal_strlit("sh");
    assert(is_ascii_chars("-"@));
    assert(is_ascii_chars("sh"@));
    is_ascii_chars_encode_utf8("-"@);
    is_ascii_chars_encode_utf8("sh"@);
    match paths::file_name_of(shell) {
        Some(name) => {
            assert(login_name(shell).drop_first() =~= name);
        },
        None => {
            assert(login_name(shell).drop_first() =~= seq![0x73u8, 0x68u8]);
        },
    }
}

} // verus!
