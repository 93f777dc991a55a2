//! The Neovim process: how it is found and started, what is asked of it, and what
//! it reports.

use crate::paths;
use crate::paths::FilePath;
use crate::text;
use crate::text::same_text;
use crate::value::Value;
use vstd::prelude::*;
use vstd::string::*;
use vstd::utf8::*;

verus! {

/// What Neovim reports.
#[derive(Debug, PartialEq, Eq)]
pub enum NvimEvent {
    Redraw(Vec<Value>),
    Error(String),
    /// The user chose not to quit after all.
    CloseCancelled,
    /// The process is gone; with what went wrong, if anything did.
    Exited(Option<String>),
}

/// Something that is asked of Neovim.
#[derive(Debug, PartialEq, Eq)]
pub enum Request {
    Input(String),
    Paste(String),
    Resize(usize, usize),
    Focus(bool),
    Mouse {
        button: &'static str,
        action: &'static str,
        modifiers: String,
        row: usize,
        col: usize,
    },
    /// To quit, once the user has confirmed it.
    ConfirmQuit,
}

/// What a request holds.
#[verifier::ext_equal]
pub enum RequestView {
    Input(Seq<char>),
    Paste(Seq<char>),
    Resize(usize, usize),
    Focus(bool),
    Mouse { button: Seq<char>, action: Seq<char>, modifiers: Seq<char>, row: usize, col: usize },
    ConfirmQuit,
}

impl View for Request {
    type V = RequestView;

    open spec fn view(&self) -> RequestView {
        match *self {
            Request::Input(keys) => RequestView::Input(keys@),
            Request::Paste(text) => RequestView::Paste(text@),
            Request::Resize(width, height) => RequestView::Resize(width, height),
            Request::Focus(gained) => RequestView::Focus(gained),
            Request::Mouse { button, action, modifiers, row, col } => RequestView::Mouse {
                button: button@,
                action: action@,
                modifiers: modifiers@,
                row,
                col,
            },
            Request::ConfirmQuit => RequestView::ConfirmQuit,
        }
    }
}

/// What a list of requests holds.
pub open spec fn requests_view(requests: Seq<Request>) -> Seq<RequestView> {
    Seq::new(requests.len(), |i: int| requests[i]@)
}

/// A call of Neovim's interface, with all its arguments.
#[derive(Debug, PartialEq, Eq)]
pub enum Call {
    Input { keys: String },
    Paste { text: String, crlf: bool, phase: i64 },
    TryResize { width: i64, height: i64 },
    SetFocus { gained: bool },
    InputMouse {
        button: &'static str,
        action: &'static str,
        modifiers: String,
        grid: i64,
        row: i64,
        col: i64,
    },
    Command { line: &'static str },
    Eval { expression: &'static str },
    /// The client has a version, offers no methods and has no attributes.
    SetClientInfo { name: &'static str, major: i64, minor: i64, patch: i64, kind: &'static str },
    Attach { width: i64, height: i64, rgb: bool, linegrid: bool, term: &'static str },
}

/// What a call holds.
#[verifier::ext_equal]
pub enum CallView {
    Input { keys: Seq<char> },
    Paste { text: Seq<char>, crlf: bool, phase: i64 },
    TryResize { width: i64, height: i64 },
    SetFocus { gained: bool },
    InputMouse {
        button: Seq<char>,
        action: Seq<char>,
        modifiers: Seq<char>,
        grid: i64,
        row: i64,
        col: i64,
    },
    Command { line: Seq<char> },
    Eval { expression: Seq<char> },
    SetClientInfo { name: Seq<char>, major: i64, minor: i64, patch: i64, kind: Seq<char> },
    Attach { width: i64, height: i64, rgb: bool, linegrid: bool, term: Seq<char> },
}

impl View for Call {
    type V = CallView;

    open spec fn view(&self) -> CallView {
        match *self {
            Call::Input { keys } => CallView::Input { keys: keys@ },
            Call::Paste { text, crlf, phase } => CallView::Paste { text: text@, crlf, phase },
            Call::TryResize { width, height } => CallView::TryResize { width, height },
            Call::SetFocus { gained } => CallView::SetFocus { gained },
            Call::InputMouse { button, action, modifiers, grid, row, col } => CallView::InputMouse {
                button: button@,
                action: action@,
                modifiers: modifiers@,
                grid,
                row,
                col,
            },
            Call::Command { line } => CallView::Command { line: line@ },
            Call::Eval { expression } => CallView::Eval { expression: expression@ },
            Call::SetClientInfo { name, major, minor, patch, kind } => CallView::SetClientInfo {
                name: name@,
                major,
                minor,
                patch,
                kind: kind@,
            },
            Call::Attach { width, height, rgb, linegrid, term } => CallView::Attach {
                width,
                height,
                rgb,
                linegrid,
                term: term@,
            },
        }
    }
}

impl RequestView {
    /// What the request is called in messages.
    pub open spec fn operation(self) -> Seq<char> {
        match self {
            RequestView::Input(_) => "input"@,
            RequestView::Paste(_) => "paste"@,
            RequestView::Resize(_, _) => "resize"@,
            RequestView::Focus(_) => "focus"@,
            RequestView::Mouse { .. } => "mouse"@,
            RequestView::ConfirmQuit => "quit"@,
        }
    }

    /// The call that a request makes. Pasted text comes in one piece, in which
    /// any line ending counts; the mouse is on the grid that spans the window; to
    /// quit is a command.
    pub open spec fn call(self) -> CallView {
        match self {
            RequestView::Input(keys) => CallView::Input { keys },
            RequestView::Paste(text) => CallView::Paste { text, crlf: true, phase: -1i64 },
            RequestView::Resize(width, height) => CallView::TryResize {
                width: width as i64,
                height: height as i64,
            },
            RequestView::Focus(gained) => CallView::SetFocus { gained },
            RequestView::Mouse { button, action, modifiers, row, col } => CallView::InputMouse {
                button,
                action,
                modifiers,
                grid: 0,
                row: row as i64,
                col: col as i64,
            },
            RequestView::ConfirmQuit => CallView::Command { line: "confirm qa"@ },
        }
    }

    /// Whether the request is made only once those before it are answered. The one
    /// to quit is not: Neovim answers it when the user has, and the user's answer is
    /// typed.
    pub open spec fn waits_in_line(self) -> bool {
        self != RequestView::ConfirmQuit
    }
}

impl Request {
    /// What the request is called in messages.
    pub fn operation(&self) -> (name: &'static str)
        ensures
            name@ == self@.operation(),
    {
        match self {
            Request::Input(_) => "input",
            Request::Paste(_) => "paste",
            Request::Resize(_, _) => "resize",
            Request::Focus(_) => "focus",
            Request::Mouse { .. } => "mouse",
            Request::ConfirmQuit => "quit",
        }
    }

    /// Whether the request is made only once those before it are answered.
    pub fn waits_in_line(&self) -> (waits: bool)
        ensures
            waits == self@.waits_in_line(),
    {
        match self {
            Request::ConfirmQuit => false,
            _ => true,
        }
    }

    /// Turns the request into a call.
    pub fn into_call(self) -> (call: Call)
        ensures
            call@ == self@.call(),
    {
        match self {
            Request::Input(keys) => Call::Input { keys },
            Request::Paste(text) => Call::Paste { text, crlf: true, phase: -1 },
            Request::Resize(width, height) => Call::TryResize {
                width: #[verifier::truncate] (width as i64),
                height: #[verifier::truncate] (height as i64),
            },
            Request::Focus(gained) => Call::SetFocus { gained },
            Request::Mouse { button, action, modifiers, row, col } => Call::InputMouse {
                button,
                action,
                modifiers,
                grid: 0,
                row: #[verifier::truncate] (row as i64),
                col: #[verifier::truncate] (col as i64),
            },
            Request::ConfirmQuit => Call::Command { line: "confirm qa" },
        }
    }
}

/// What is asked of Neovim, in order.
#[derive(Debug, PartialEq, Eq)]
pub struct NvimClient {
    pub requests: Vec<Request>,
}

impl View for NvimClient {
    type V = Seq<RequestView>;

    open spec fn view(&self) -> Seq<RequestView> {
        requests_view(self.requests@)
    }
}

impl NvimClient {
    /// Nothing is asked yet.
    pub fn new() -> (client: Self)
        ensures
            client@ == Seq::<RequestView>::empty(),
    {
        let client = NvimClient { requests: Vec::new() };
        assert(client@ =~= Seq::empty());
        client
    }

    /// Types keys in Neovim's notation.
    pub fn input(&mut self, keys: String)
        ensures
            final(self)@ == old(self)@.push(RequestView::Input(keys@)),
    {
        self.request(Request::Input(keys));
    }

    /// Pastes text.
    pub fn paste(&mut self, text: String)
        ensures
            final(self)@ == old(self)@.push(RequestView::Paste(text@)),
    {
        self.request(Request::Paste(text));
    }

    /// Asks for another size of the grid.
    pub fn resize(&mut self, width: usize, height: usize)
        ensures
            final(self)@ == old(self)@.push(RequestView::Resize(width, height)),
    {
        self.request(Request::Resize(width, height));
    }

    /// Tells whether the window has the focus.
    pub fn focus(&mut self, gained: bool)
        ensures
            final(self)@ == old(self)@.push(RequestView::Focus(gained)),
    {
        self.request(Request::Focus(gained));
    }

    /// Tells what the mouse does.
    pub fn mouse(
        &mut self,
        button: &'static str,
        action: &'static str,
        modifiers: String,
        row: usize,
        col: usize,
    )
        ensures
            final(self)@ == old(self)@.push(
                RequestView::Mouse {
                    button: button@,
                    action: action@,
                    modifiers: modifiers@,
                    row,
                    col,
                },
            ),
    {
        self.request(Request::Mouse { button, action, modifiers, row, col });
    }

    /// Asks Neovim to quit once the user has confirmed it.
    pub fn confirm_quit(&mut self)
        ensures
            final(self)@ == old(self)@.push(RequestView::ConfirmQuit),
    {
        self.request(Request::ConfirmQuit);
    }

    fn request(&mut self, request: Request)
        ensures
            final(self)@ == old(self)@.push(request@),
    {
        let ghost before = self@;
        let ghost added = request@;
        self.requests.push(request);
        assert(self@ =~= before.push(added));
    }

    /// Hands out what is asked so far, in order.
    pub fn take_requests(&mut self) -> (requests: Vec<Request>)
        ensures
            requests_view(requests@) == old(self)@,
            final(self)@ == Seq::<RequestView>::empty(),
    {
        let mut requests: Vec<Request> = Vec::new();
        std::mem::swap(&mut requests, &mut self.requests);
        assert(self@ =~= Seq::empty());
        requests
    }
}

/// A text in front of another one.
pub(crate) fn prefixed(prefix: &str, rest: &str) -> (whole: String)
    ensures
        whole@ == prefix@ + rest@,
{
    let mut whole = prefix.to_owned();
    whole.append(rest);
    whole
}

/// What is reported when a call fails.
pub open spec fn failure_text(operation: Seq<char>, error: Seq<char>) -> Seq<char> {
    "Neovim "@ + operation + " failed: "@ + error
}

/// Reports that a call failed.
pub fn request_failed(operation: &str, error: &str) -> (event: NvimEvent)
    ensures
        event matches NvimEvent::Error(message) && message@ == failure_text(operation@, error@),
{
    let mut message = prefixed("Neovim ", operation);
    message.append(" failed: ");
    message.append(error);
    NvimEvent::Error(message)
}

/// Whether an event reports a message as an error.
pub open spec fn reports(event: NvimEvent, message: Seq<char>) -> bool {
    event matches NvimEvent::Error(reported) && reported@ == message
}

/// The call that is made after the command to quit, to tell whether Neovim is still
/// there: one that its main loop answers.
pub fn quit_probe() -> (call: Call)
    ensures
        call@ == (CallView::Eval { expression: "1"@ }),
{
    Call::Eval { expression: "1" }
}

/// What is reported once the command to quit has been answered, or Neovim has gone
/// away without an answer, as it does when the user confirms.
pub fn quit_answered(quit: Result<(), String>, still_there: bool) -> (events: Vec<NvimEvent>)
    ensures
        !still_there ==> events@.len() == 0,
        still_there && quit is Ok ==> events@ == seq![NvimEvent::CloseCancelled],
        still_there ==> (quit matches Err(error) ==> events@.len() == 2 && reports(
            events@[0],
            failure_text("quit"@, error@),
        ) && events@[1] == NvimEvent::CloseCancelled),
{
    let mut events: Vec<NvimEvent> = Vec::new();
    if still_there {
        if let Err(error) = quit {
            events.push(request_failed("quit", error.as_str()));
        }
        events.push(NvimEvent::CloseCancelled);
    }
    events
}

/// What is reported of the text that Neovim wrote to its standard error, unless it
/// is blank.
pub fn stderr_event(message: &str) -> (event: Option<NvimEvent>)
    ensures
        event is None <==> text::trimmed(message@).len() == 0,
        event matches Some(reported) ==> reports(reported, text::trimmed(message@)),
{
    let message = text::trim(message);
    if message.as_str().unicode_len() == 0 {
        None
    } else {
        Some(NvimEvent::Error(message))
    }
}

/// What is reported when the connection ends with an error. That its channel was
/// closed is how it always ends.
pub fn connection_event(error: &str, channel_closed: bool) -> (event: Option<NvimEvent>)
    ensures
        event is None <==> channel_closed,
        event matches Some(reported) ==> reports(reported, "Neovim connection closed: "@ + error@),
{
    if channel_closed {
        None
    } else {
        Some(NvimEvent::Error(prefixed("Neovim connection closed: ", error)))
    }
}

/// How the process ended.
#[derive(Debug, PartialEq, Eq)]
pub enum ExitOutcome {
    Success,
    /// With a status other than success, described by a text.
    Failure(String),
    /// The status could not be read, for a reason.
    Unknown(String),
}

/// What went wrong when the process ended, if anything did.
pub open spec fn exit_message(outcome: ExitOutcome) -> Option<Seq<char>> {
    match outcome {
        ExitOutcome::Success => None,
        ExitOutcome::Failure(status) => Some("Neovim exited unexpectedly ("@ + status@ + ")."@),
        ExitOutcome::Unknown(error) => Some("Could not read Neovim's exit status: "@ + error@),
    }
}

/// A text, if there is one, as a sequence of characters.
pub open spec fn text_view(text: Option<String>) -> Option<Seq<char>> {
    match text {
        Some(found) => Some(found@),
        None => None,
    }
}

/// What is reported when the process has ended.
pub fn exit_event(outcome: ExitOutcome) -> (event: NvimEvent)
    ensures
        event matches NvimEvent::Exited(message) && text_view(message) == exit_message(outcome),
{
    let message = match outcome {
        ExitOutcome::Success => None,
        ExitOutcome::Failure(status) => {
            let mut message = prefixed("Neovim exited unexpectedly (", status.as_str());
            message.append(").");
            Some(message)
        },
        ExitOutcome::Unknown(error) => Some(
            prefixed("Could not read Neovim's exit status: ", error.as_str()),
        ),
    };
    NvimEvent::Exited(message)
}

/// What kind of notification Neovim sent.
#[derive(Clone, Copy, Debug, PartialEq, Eq)]
pub enum Notification {
    Redraw,
    Error,
    Other,
}

/// The kind of a notification, by its name.
pub open spec fn notification_of(name: Seq<char>) -> Notification {
    if name == "redraw"@ {
        Notification::Redraw
    } else if name == "nvim_error_event"@ {
        Notification::Error
    } else {
        Notification::Other
    }
}

/// Tells the kind of a notification by its name.
pub fn notification_kind(name: &str) -> (kind: Notification)
    ensures
        kind == notification_of(name@),
{
    if same_text(name, "redraw") {
        Notification::Redraw
    } else if same_text(name, "nvim_error_event") {
        Notification::Error
    } else {
        Notification::Other
    }
}

/// What is reported of an error notification, whose arguments are described by a
/// text.
pub fn error_event(arguments: &str) -> (event: NvimEvent)
    ensures
        reports(event, "Neovim error: "@ + arguments@),
{
    NvimEvent::Error(prefixed("Neovim error: ", arguments))
}

/// How the process is started.
#[derive(Debug)]
pub struct Launch {
    pub executable: FilePath,
    pub directory: Option<FilePath>,
    /// Names and values of environment variables that are set.
    pub environment: Vec<(&'static str, &'static str)>,
    pub arguments: Vec<Vec<u8>>,
}

/// The arguments that come before the user's. The variable is set before any
/// configuration is read.
pub open spec fn first_arguments() -> Seq<Seq<u8>> {
    seq![
        encode_utf8("--cmd"@),
        encode_utf8("let g:nuvi = v:true"@),
        encode_utf8("--embed"@),
    ]
}

/// Works out how the process is started, or reports that there is no executable.
pub fn launch(
    executable: Option<FilePath>,
    directory: Option<FilePath>,
    arguments: Vec<Vec<u8>>,
) -> (launch: Result<Launch, String>)
    ensures
        launch is Ok <==> executable is Some,
        launch matches Ok(started) ==> {
            &&& Some(started.executable) == executable
            &&& started.directory == directory
            &&& started.environment@ == seq![("NUVI", "1")]
            &&& text::lists_view(started.arguments@) == first_arguments() + text::lists_view(
                arguments@,
            )
        },
        launch matches Err(message) ==> message@
            == "Could not find Neovim. Install nvim or set NUVI_NVIM to its full path."@,
{
    let executable = match executable {
        Some(executable) => executable,
        None => {
            return Err(
                "Could not find Neovim. Install nvim or set NUVI_NVIM to its full path.".to_owned(),
            );
        },
    };
    let ghost given = arguments@;
    let mut arguments = arguments;
    let mut all: Vec<Vec<u8>> = Vec::new();
    all.push("--cmd".as_bytes_vec());
    all.push("let g:nuvi = v:true".as_bytes_vec());
    all.push("--embed".as_bytes_vec());
    all.append(&mut arguments);
    assert(text::lists_view(all@) =~= first_arguments() + text::lists_view(given));
    let environment = vec![("NUVI", "1")];
    Ok(Launch { executable, directory, environment, arguments: all })
}

/// How far the start of a session has come.
#[derive(Clone, Copy, Debug, PartialEq, Eq)]
pub enum StartStage {
    /// The process is being started.
    Spawning,
    /// The client is introducing itself.
    Identifying,
    /// The user interface is being attached.
    Attaching,
}

/// What is done next to start a session.
#[derive(Debug, PartialEq, Eq)]
pub enum StartStep {
    /// Make the call that introduces the client.
    Identify(Call),
    /// Make the call that attaches the user interface.
    Attach(Call),
    /// The session has started.
    Run,
    /// Starting failed before there was a connection.
    Fail(String),
    /// Starting failed: a call makes the process quit, which is given some time to.
    Abandon { message: String, call: Call, wait_seconds: u64 },
}

/// What a step holds.
#[verifier::ext_equal]
pub enum StepView {
    Identify(CallView),
    Attach(CallView),
    Run,
    Fail(Seq<char>),
    Abandon { message: Seq<char>, call: CallView, wait_seconds: u64 },
}

impl View for StartStep {
    type V = StepView;

    open spec fn view(&self) -> StepView {
        match *self {
            StartStep::Identify(call) => StepView::Identify(call@),
            StartStep::Attach(call) => StepView::Attach(call@),
            StartStep::Run => StepView::Run,
            StartStep::Fail(message) => StepView::Fail(message@),
            StartStep::Abandon { message, call, wait_seconds } => StepView::Abandon {
                message: message@,
                call: call@,
                wait_seconds,
            },
        }
    }
}

/// How the client introduces itself: as a user interface, by its name and version.
pub open spec fn introduction() -> CallView {
    CallView::SetClientInfo { name: "nuvi"@, major: 0, minor: 1, patch: 0, kind: "ui"@ }
}

/// With what the user interface is attached: 80 columns and 24 rows until the window
/// is measured, colours as RGB values, and lines of cells.
pub open spec fn attachment() -> CallView {
    CallView::Attach { width: 80, height: 24, rgb: true, linegrid: true, term: "nuvi"@ }
}

/// What is done when starting failed with a connection: whatever Neovim is showing is
/// left, it is told to quit at once, and has two seconds to.
pub open spec fn abandoned(message: Seq<char>) -> StepView {
    StepView::Abandon {
        message,
        call: CallView::Input { keys: "<Esc>:qa!<CR>"@ },
        wait_seconds: 2,
    }
}

/// What came of something that was tried: nothing more to say, or an error.
pub open spec fn outcome_view(outcome: Result<(), String>) -> Result<(), Seq<char>> {
    match outcome {
        Ok(_) => Ok(()),
        Err(error) => Err(error@),
    }
}

/// What is done next once a stage of starting succeeded or failed.
pub open spec fn step_after(stage: StartStage, outcome: Result<(), Seq<char>>) -> StepView {
    match (stage, outcome) {
        (StartStage::Spawning, Ok(_)) => StepView::Identify(introduction()),
        (StartStage::Identifying, Ok(_)) => StepView::Attach(attachment()),
        (StartStage::Attaching, Ok(_)) => StepView::Run,
        (StartStage::Spawning, Err(error)) => StepView::Fail("Could not start Neovim: "@ + error),
        (StartStage::Identifying, Err(error)) => abandoned(
            "Could not identify Nuvi to Neovim: "@ + error,
        ),
        (StartStage::Attaching, Err(error)) => abandoned("Could not attach the Nuvi UI: "@ + error),
    }
}

fn abandon(message: String) -> (step: StartStep)
    ensures
        step@ == abandoned(message@),
{
    StartStep::Abandon {
        message,
        call: Call::Input { keys: "<Esc>:qa!<CR>".to_owned() },
        wait_seconds: 2,
    }
}

/// Tells what is done next once a stage of starting succeeded or failed.
pub fn start_next(stage: StartStage, outcome: Result<(), String>) -> (step: StartStep)
    ensures
        step@ == step_after(stage, outcome_view(outcome)),
{
    match (stage, outcome) {
        (StartStage::Spawning, Ok(_)) => StartStep::Identify(
            Call::SetClientInfo { name: "nuvi", major: 0, minor: 1, patch: 0, kind: "ui" },
        ),
        (StartStage::Identifying, Ok(_)) => StartStep::Attach(
            Call::Attach { width: 80, height: 24, rgb: true, linegrid: true, term: "nuvi" },
        ),
        (StartStage::Attaching, Ok(_)) => StartStep::Run,
        (StartStage::Spawning, Err(error)) => StartStep::Fail(
            prefixed("Could not start Neovim: ", error.as_str()),
        ),
        (StartStage::Identifying, Err(error)) => abandon(
            prefixed("Could not identify Nuvi to Neovim: ", error.as_str()),
        ),
        (StartStage::Attaching, Err(error)) => abandon(
            prefixed("Could not attach the Nuvi UI: ", error.as_str()),
        ),
    }
}

/// The steps of a start, given what comes of its stages. A stage that is not reached
/// plays no part.
pub open spec fn start_steps(
    spawned: Result<(), Seq<char>>,
    identified: Result<(), Seq<char>>,
    attached: Result<(), Seq<char>>,
) -> Seq<StepView> {
    let first = step_after(StartStage::Spawning, spawned);
    let second = step_after(StartStage::Identifying, identified);
    let third = step_after(StartStage::Attaching, attached);
    if first !is Identify {
        seq![first]
    } else if second !is Attach {
        seq![first, second]
    } else {
        seq![first, second, third]
    }
}

/// A session runs exactly when no stage of its start failed, and then the client has
/// introduced itself and the user interface is attached.
pub proof fn law_sessions_run_attached(
    spawned: Result<(), Seq<char>>,
    identified: Result<(), Seq<char>>,
    attached: Result<(), Seq<char>>,
)
    ensures
        ({
            let steps = start_steps(spawned, identified, attached);
            &&& steps.last() == StepView::Run <==> spawned is Ok && identified is Ok
                && attached is Ok
            &&& steps.last() == StepView::Run ==> steps == seq![
                StepView::Identify(introduction()),
                StepView::Attach(attachment()),
                StepView::Run,
            ]
        }),
{
}

/// Where Neovim may be: in each directory of the search path, and then where
/// Homebrew puts it.
pub open spec fn candidates_of(search: Option<Seq<u8>>) -> Seq<Seq<u8>> {
    let listed: Seq<Seq<u8>> = match search {
        Some(search) => text::split_on(search, 0x3au8),
        None => Seq::empty(),
    };
    Seq::new(
        listed.len(),
        |i: int| paths::path_joined(listed[i], encode_utf8("nvim"@)),
    ).push(encode_utf8("/opt/homebrew/bin/nvim"@)).push(encode_utf8("/usr/local/bin/nvim"@))
}

/// What a search path holds, if there is one.
pub open spec fn search_view(search: Option<Vec<u8>>) -> Option<Seq<u8>> {
    match search {
        Some(search) => Some(search@),
        None => None,
    }
}

/// Lists where Neovim may be, given the search path.
pub fn nvim_candidates(search: Option<Vec<u8>>) -> (candidates: Vec<FilePath>)
    ensures
        paths::paths_view(candidates@) == candidates_of(search_view(search)),
{
    let mut candidates: Vec<FilePath> = Vec::new();
    if let Some(search) = search {
        let directories = text::split_bytes(search.as_slice(), 0x3a);
        let ghost listed = text::split_on(search@, 0x3au8);
        let name = FilePath::new("nvim");
        let mut at: usize = 0;
        while at < directories.len()
            invariant
                text::lists_view(directories@) == listed,
                name@ == encode_utf8("nvim"@),
                at <= directories@.len(),
                candidates@.len() == at,
                forall|i: int|
                    0 <= i < at ==> (#[trigger] candidates@[i])@ == paths::path_joined(
                        listed[i],
                        encode_utf8("nvim"@),
                    ),
            decreases directories@.len() - at,
        {
            let bytes = vstd::slice::slice_to_vec(directories[at].as_slice());
            assert(text::lists_view(directories@)[at as int] == bytes@);
            let directory = FilePath { bytes };
            candidates.push(directory.join(&name));
            at += 1;
        }
    }
    candidates.push(FilePath::new("/opt/homebrew/bin/nvim"));
    candidates.push(FilePath::new("/usr/local/bin/nvim"));
    assert(paths::paths_view(candidates@) =~= candidates_of(search_view(search)));
    candidates
}

/// Chooses the executable: the one that the user names, or else the first
/// candidate that can be executed.
pub fn find_nvim(named: Option<FilePath>, candidates: &[FilePath], executable: &[bool]) -> (found:
    Option<FilePath>)
    requires
        candidates@.len() == executable@.len(),
    ensures
        named is Some ==> found == named,
        named is None ==> match found {
            Some(path) => exists|i: int|
                {
                    &&& 0 <= i < candidates@.len()
                    &&& #[trigger] executable@[i]
                    &&& path@ == candidates@[i]@
                    &&& forall|j: int| 0 <= j < i ==> !(#[trigger] executable@[j])
                },
            None => forall|j: int| 0 <= j < executable@.len() ==> !(#[trigger] executable@[j]),
        },
{
    if named.is_some() {
        return named;
    }
    let mut at: usize = 0;
    while at < candidates.len()
        invariant
            named is None,
            candidates@.len() == executable@.len(),
            at <= candidates@.len(),
            forall|j: int| 0 <= j < at ==> !(#[trigger] executable@[j]),
        decreases candidates@.len() - at,
    {
        if executable[at] {
            let path = candidates[at].clone();
            assert(executable@[at as int]);
            return Some(path);
        }
        at += 1;
    }
    None
}

/// Neovim is looked for in each directory of the search path, in order, and then in the two
/// places of Homebrew.
pub proof fn law_neovim_is_looked_for_in_order(directories: Seq<Seq<u8>>, index: int)
    requires
        directories.len() > 0,
        forall|i: int| 0 <= i < directories.len() ==> !(#[trigger] directories[i]).contains(0x3au8),
        0 <= index < directories.len(),
    ensures
        ({
            let listed = candidates_of(Some(text::joined(directories, seq![0x3au8])));
            let count = directories.len() as int;
            &&& listed.len() == count + 2
            &&& listed[index] == paths::path_joined(directories[index], encode_utf8("nvim"@))
            &&& listed[count] == encode_utf8("/opt/homebrew/bin/nvim"@)
            &&& listed[count + 1] == encode_utf8("/usr/local/bin/nvim"@)
            &&& candidates_of(None) == listed.skip(count)
        }),
{
    text::lemma_split_joined(directories, 0x3au8);
    let listed = candidates_of(Some(text::joined(directories, seq![0x3au8])));
    assert(candidates_of(None) =~= listed.skip(directories.len() as int));
}

/// A request is passed on with what it holds: texts and truth values as they are, and
/// numbers wherever there is room for them.
pub proof fn law_requests_are_passed_on_whole(request: RequestView)
    ensures
        match (request, request.call()) {
            (RequestView::Input(text), CallView::Input { keys }) => keys == text,
            (RequestView::Paste(given), CallView::Paste { text, crlf, phase }) => text == given
                && crlf && phase == -1,
            (RequestView::Resize(cols, rows), CallView::TryResize { width, height }) => {
                &&& cols <= i64::MAX ==> width == cols
                &&& rows <= i64::MAX ==> height == rows
            },
            (RequestView::Focus(focus), CallView::SetFocus { gained }) => gained == focus,
            (
                RequestView::Mouse { button, action, modifiers, row, col },
                CallView::InputMouse { button: b, action: a, modifiers: m, grid, row: r, col: c },
            ) => {
                &&& b == button && a == action && m == modifiers && grid == 0
                &&& row <= i64::MAX ==> r == row
                &&& col <= i64::MAX ==> c == col
            },
            (RequestView::ConfirmQuit, CallView::Command { line }) => line == "confirm qa"@,
            _ => false,
        },
{
}

/// A start that fails is reported with what went wrong, and goes no further. Where Neovim was
/// running by then, it is told to quit, and waited for.
pub proof fn law_failed_starts_are_reported(
    spawned: Result<(), Seq<char>>,
    identified: Result<(), Seq<char>>,
    attached: Result<(), Seq<char>>,
)
    ensures
        ({
            let steps = start_steps(spawned, identified, attached);
            match (spawned, identified, attached) {
                (Err(error), _, _) => steps == seq![
                    StepView::Fail("Could not start Neovim: "@ + error),
                ],
                (_, Err(error), _) => {
                    &&& steps.len() == 2
                    &&& steps[1] matches StepView::Abandon { message, call, wait_seconds }
                    &&& message == "Could not identify Nuvi to Neovim: "@ + error
                    &&& call == CallView::Input { keys: "<Esc>:qa!<CR>"@ }
                    &&& wait_seconds == 2
                },
                (_, _, Err(error)) => {
                    &&& steps.len() == 3
                    &&& steps[2] matches StepView::Abandon { message, call, wait_seconds }
                    &&& message == "Could not attach the Nuvi UI: "@ + error
                    &&& call == CallView::Input { keys: "<Esc>:qa!<CR>"@ }
                    &&& wait_seconds == 2
                },
                _ => {
                    &&& steps.len() == 3
                    &&& steps[0] matches StepView::Identify(own)
                    &&& own matches CallView::SetClientInfo { name, major, minor, patch, kind }
                    &&& name == "nuvi"@ && kind == "ui"@ && (major, minor, patch) == (
                        0i64,
                        1i64,
                        0i64,
                    )
                    &&& steps[1] matches StepView::Attach(ui)
                    &&& ui matches CallView::Attach { width, height, rgb, linegrid, term }
                    &&& width == 80 && height == 24 && rgb && linegrid && term == "nuvi"@
                    &&& steps[2] == StepView::Run
                },
            }
        }),
{
}

/// A call that fails is reported with what it is called, and then with what went wrong.
pub proof fn law_failures_name_the_call(request: RequestView, error: Seq<char>)
    ensures
        ({
            let message = failure_text(request.operation(), error);
            let named = "Neovim "@ + match request {
                RequestView::Input(_) => "input"@,
                RequestView::Paste(_) => "paste"@,
                RequestView::Resize(_, _) => "resize"@,
                RequestView::Focus(_) => "focus"@,
                RequestView::Mouse { .. } => "mouse"@,
                RequestView::ConfirmQuit => "quit"@,
            };
            &&& named.is_prefix_of(message)
            &&& message.skip(named.len() as int) == " failed: "@ + error
        }),
{
    let named = "Neovim "@ + request.operation();
    let message = failure_text(request.operation(), error);
    assert(message =~= named + (" failed: "@ + error));
    assert(message.take(named.len() as int) =~= named);
    assert(message.skip(named.len() as int) =~= " failed: "@ + error);
}

/// An end is reported as expected exactly when it was a success, and otherwise with the
/// status, or with why that is not known.
pub proof fn law_only_success_is_silent(outcome: ExitOutcome)
    ensures
        exit_message(outcome) is None <==> outcome is Success,
        outcome matches ExitOutcome::Failure(status) ==> exists|front: Seq<char>, back: Seq<char>|
            exit_message(outcome) == Some(#[trigger] (front + status@ + back)) && front
                == "Neovim exited unexpectedly ("@ && back == ")."@,
        outcome matches ExitOutcome::Unknown(error) ==> exists|front: Seq<char>|
            exit_message(outcome) == Some(#[trigger] (front + error@)) && front
                == "Could not read Neovim's exit status: "@,
{
}

/// Notifications are told apart by their names, and one with another name is neither a redraw
/// nor an error.
pub proof fn law_notifications_go_by_their_names(name: Seq<char>)
    ensures
        notification_of(name) == Notification::Redraw <==> name == "redraw"@,
        notification_of(name) == Notification::Error <==> name == "nvim_error_event"@,
{
    reveal_strlit("redraw");
    reveal_strlit("nvim_error_event");
    assert("redraw"@.len() != "nvim_error_event"@.len());
}

} // verus!
