//! One editor: the state of the user interface that its Neovim draws, and how the
//! keyboard, the mouse and Neovim's reports change it.

use crate::fonts;
use crate::fonts::FontOption;
use crate::fonts::FontRequest;
use crate::keys;
use crate::keys::Keystroke;
use crate::keys::Modifiers;
use crate::keys::MouseButton;
use crate::nvim;
use crate::nvim::NvimClient;
use crate::nvim::NvimEvent;
use crate::nvim::Request;
use crate::nvim::RequestView;
use crate::paint;
use crate::paint::Frame;
use crate::scrolling;
use crate::scrolling::AnimationView;
use crate::scrolling::Moves;
use crate::scrolling::ScrollAnimation;
use crate::text;
use crate::text::same_text;
use crate::ui;
use crate::ui::CursorMode;
use crate::ui::Redraw;
use crate::ui::Ui;
use crate::ui::UiView;
use crate::value;
use crate::value::Value;
use vstd::prelude::*;
use vstd::string::*;

verus! {

/// How many shaped lines of text are kept before they are thrown away.
pub const MAX_SHAPED_LINES: usize = 16384;

/// The shortest time between two changes of a blinking cursor, in milliseconds.
pub const SHORTEST_BLINK: u64 = 100;

/// One editor. `S` is what moves the contents of a region smoothly.
pub struct Editor<S> {
    pub ui: Ui,
    /// What is asked of Neovim, once it has started.
    pub client: Option<NvimClient>,
    /// A message to show.
    pub status: Option<String>,
    /// The columns and rows that Neovim was last asked for.
    pub requested_size: (usize, usize),
    /// The value of `guifont` that the fonts were chosen by.
    pub font_spec: Option<String>,
    pub font_families: Vec<String>,
    /// The value of `linespace` that the cells were measured with.
    pub metrics_linespace: i64,
    /// Text that an input method is still composing.
    pub marked_text: String,
    /// The part of it that is selected, in UTF-16 code units.
    pub marked_selection: (usize, usize),
    pub cursor_visible: bool,
    pub scroll_animation: Option<ScrollAnimation<S>>,
    /// Events that wait for the end of their frame.
    pub pending_redraw: Vec<Value>,
    pub allow_close: bool,
}

/// What an editor holds.
#[verifier::ext_equal]
pub struct EditorView<S> {
    pub ui: UiView,
    pub client: Option<Seq<RequestView>>,
    pub status: Option<Seq<char>>,
    pub requested_size: (usize, usize),
    pub font_spec: Option<Seq<char>>,
    pub font_families: Seq<Seq<char>>,
    pub metrics_linespace: i64,
    pub marked_text: Seq<char>,
    pub marked_selection: (usize, usize),
    pub cursor_visible: bool,
    pub scroll_animation: Option<AnimationView<S>>,
    pub pending_redraw: Seq<Value>,
    pub allow_close: bool,
}

/// What is asked of Neovim, if it has started.
pub open spec fn client_view(client: Option<NvimClient>) -> Option<Seq<RequestView>> {
    match client {
        Some(client) => Some(client@),
        None => None,
    }
}

impl<S> View for Editor<S> {
    type V = EditorView<S>;

    open spec fn view(&self) -> EditorView<S> {
        EditorView {
            ui: self.ui@,
            client: client_view(self.client),
            status: nvim::text_view(self.status),
            requested_size: self.requested_size,
            font_spec: nvim::text_view(self.font_spec),
            font_families: text::strings_view(self.font_families@),
            metrics_linespace: self.metrics_linespace,
            marked_text: self.marked_text@,
            marked_selection: self.marked_selection,
            cursor_visible: self.cursor_visible,
            scroll_animation: scrolling::animation_view(self.scroll_animation),
            pending_redraw: self.pending_redraw@,
            allow_close: self.allow_close,
        }
    }
}

/// What an editor tells the window that it is in.
#[derive(Debug, PartialEq, Eq)]
pub enum EditorEvent {
    CloseCancelled,
    Closed,
    Title(String),
}

/// How the cursor and the moving contents follow a frame.
#[derive(Debug, PartialEq, Eq)]
pub enum Motion {
    /// Everything is at its place at once.
    Snap,
    /// The contents move. The cursor is at its place at once if a move of the
    /// contents was not shown. The spring of the moving contents is stretched by
    /// each of some numbers of rows.
    Follow { snapped: bool, stretches: Vec<i64> },
}

/// What is done once a report of Neovim is taken up.
#[derive(Debug, PartialEq, Eq)]
pub struct Received {
    /// Draw anew.
    pub notify: bool,
    pub motion: Option<Motion>,
    pub event: Option<EditorEvent>,
    /// Nothing more will be reported.
    pub ended: bool,
}

/// Whether a batch of events ends a frame.
pub open spec fn has_flush(events: Seq<Value>) -> bool {
    exists|i: int|
        0 <= i < events.len() && ui::event_name(#[trigger] events[i]) == Some("flush"@)
}

/// Whether a batch of events ends a frame.
pub fn redraw_has_flush(events: &[Value]) -> (flush: bool)
    ensures
        flush == has_flush(events@),
{
    let mut at: usize = 0;
    while at < events.len()
        invariant
            at <= events@.len(),
            forall|i: int|
                0 <= i < at ==> ui::event_name(#[trigger] events@[i]) != Some("flush"@),
        decreases events@.len() - at,
    {
        if let Some(entry) = events[at].as_array() {
            if let Some(name) = value::str_at(entry, 0) {
                if same_text(name, "flush") {
                    assert(ui::event_name(events@[at as int]) == Some("flush"@));
                    return true;
                }
            }
        }
        at += 1;
    }
    false
}

proof fn lemma_calls_leave_flushed(redraw: Redraw, name: Seq<char>, calls: Seq<Value>, n: nat)
    ensures
        redraw.calls(name, calls, n).result.flushed == redraw.result.flushed,
    decreases n,
{
    if n > 0 {
        lemma_calls_leave_flushed(redraw, name, calls, (n - 1) as nat);
    }
}

proof fn lemma_batch_flushed(redraw: Redraw, events: Seq<Value>, n: nat)
    requires
        n <= events.len(),
    ensures
        redraw.batch(events, n).result.flushed == (redraw.result.flushed || has_flush(
            events.take(n as int),
        )),
    decreases n,
{
    let now = events.take(n as int);
    if n > 0 {
        lemma_batch_flushed(redraw, events, (n - 1) as nat);
        let earlier = events.take(n - 1);
        let before = redraw.batch(events, (n - 1) as nat);
        assert forall|i: int| 0 <= i < n - 1 implies #[trigger] earlier[i] == now[i] by {}
        assert(now[n - 1] == events[n - 1]);
        match ui::event_name(events[n - 1]) {
            Some(name) => {
                let entry = events[n - 1].array_value()->0;
                let flushed = before.result.flushed || name == "flush"@;
                let from = Redraw {
                    ui: before.ui,
                    result: ui::RedrawView { flushed, ..before.result },
                };
                lemma_calls_leave_flushed(from, name, entry.skip(1), (entry.len() - 1) as nat);
            },
            None => {},
        }
        if has_flush(earlier) {
            let i = choose|i: int|
                0 <= i < earlier.len() && ui::event_name(#[trigger] earlier[i]) == Some("flush"@);
            assert(ui::event_name(now[i]) == Some("flush"@));
        }
        if has_flush(now) {
            let i = choose|i: int|
                0 <= i < now.len() && ui::event_name(#[trigger] now[i]) == Some("flush"@);
            if i < n - 1 {
                assert(ui::event_name(earlier[i]) == Some("flush"@));
            }
        }
    }
}

/// A batch of events is applied as a whole frame exactly when it holds the event
/// that ends one.
pub proof fn law_frames_end_with_flush(ui: UiView, events: Seq<Value>)
    ensures
        ui::redrawn(ui, events).result.flushed == has_flush(events),
{
    lemma_batch_flushed(Redraw { ui, result: ui::no_redraw() }, events, events.len());
    assert(events.take(events.len() as int) =~= events);
}

/// Whether contents are at their place at once after a frame: what was drawn is not
/// what moved, Neovim is busy, or the user wants no motion.
pub open spec fn snaps(redraw: Redraw, reduce_motion: bool) -> bool {
    redraw.result.invalidated || redraw.ui.busy || reduce_motion
}

impl<S> EditorView<S> {
    /// The editor with one request more, once Neovim has started.
    pub open spec fn asked(self, request: RequestView) -> EditorView<S> {
        EditorView {
            client: match self.client {
                Some(requests) => Some(requests.push(request)),
                None => None,
            },
            ..self
        }
    }

    /// The editor after text was typed.
    pub open spec fn typed(self, text: Seq<char>) -> EditorView<S> {
        let sent = if text.len() > 0 {
            self.asked(RequestView::Input(text::escaped(text)))
        } else {
            self
        };
        EditorView { cursor_visible: true, ..sent }
    }

    /// What the moves of the contents in a frame amount to.
    pub open spec fn moves(self, redraw: Redraw, at_rest: S) -> Moves<S> {
        scrolling::moves_of(
            self.scroll_animation,
            redraw.result.scrolls,
            at_rest,
            redraw.result.scrolls.len(),
        )
    }

    /// The editor after a frame.
    pub open spec fn drawn(
        self,
        events: Seq<Value>,
        reduce_motion: bool,
        at_rest: S,
    ) -> EditorView<S> {
        let redraw = ui::redrawn(self.ui, events);
        EditorView {
            ui: redraw.ui,
            status: None,
            cursor_visible: true,
            scroll_animation: if snaps(redraw, reduce_motion) {
                None
            } else {
                self.moves(redraw, at_rest).animation
            },
            pending_redraw: Seq::empty(),
            ..self
        }
    }

    /// The editor after a report of Neovim.
    pub open spec fn received(
        self,
        event: NvimEvent,
        reduce_motion: bool,
        at_rest: S,
    ) -> EditorView<S> {
        match event {
            NvimEvent::Redraw(events) => {
                let pending = self.pending_redraw + events@;
                if has_flush(pending) {
                    self.drawn(pending, reduce_motion, at_rest)
                } else {
                    EditorView { pending_redraw: pending, ..self }
                }
            },
            NvimEvent::Error(message) => EditorView { status: Some(message@), ..self },
            NvimEvent::CloseCancelled => self,
            NvimEvent::Exited(message) => EditorView {
                status: match message {
                    Some(message) => Some(message@),
                    None => self.status,
                },
                allow_close: true,
                ..self
            },
        }
    }

    /// Whether the cursor blinks: its mode says so, Neovim is not busy, and nothing
    /// moves.
    pub open spec fn blinks(self, cursor_moving: bool) -> bool {
        let mode = self.ui.cursor();
        mode.blink_on > 0 && mode.blink_off > 0 && !self.ui.busy && !cursor_moving
            && self.scroll_animation is None
    }

    /// The cell that stands for a place: the nearest one, if there is any.
    pub open spec fn nearest_cell(self, row: usize, col: usize) -> Option<(usize, usize)> {
        let grid = self.ui.grid;
        if grid.width == 0 || grid.height == 0 {
            None
        } else {
            Some(
                (
                    if row < grid.height {
                        row
                    } else {
                        (grid.height - 1) as usize
                    },
                    if col < grid.width {
                        col
                    } else {
                        (grid.width - 1) as usize
                    },
                ),
            )
        }
    }

    /// The editor after the mouse did something, if Neovim wants to know.
    pub open spec fn moused(
        self,
        button: Seq<char>,
        action: Seq<char>,
        cell: Option<(usize, usize)>,
        held: Modifiers,
    ) -> EditorView<S> {
        match cell {
            Some((row, col)) if self.ui.mouse_enabled => self.asked(
                RequestView::Mouse {
                    button,
                    action,
                    modifiers: keys::mouse_letters(held),
                    row,
                    col,
                },
            ),
            _ => self,
        }
    }

    /// How long the cursor stays as it is while it blinks, in milliseconds.
    pub open spec fn blink_millis(self) -> u64 {
        let mode = self.ui.cursor();
        let wanted = if self.cursor_visible {
            mode.blink_on
        } else {
            mode.blink_off
        };
        if wanted < SHORTEST_BLINK {
            SHORTEST_BLINK
        } else {
            wanted
        }
    }

    /// The editor after the time of its cursor is up.
    pub open spec fn blinked(self, cursor_moving: bool) -> EditorView<S> {
        EditorView {
            cursor_visible: if self.blinks(cursor_moving) {
                !self.cursor_visible
            } else {
                true
            },
            ..self
        }
    }

    /// The editor when there is room for so many columns and rows.
    pub open spec fn fitted(self, cols: usize, rows: usize) -> EditorView<S> {
        let size: (usize, usize) = (
            if cols > 1 {
                cols
            } else {
                1
            },
            if rows > 1 {
                rows
            } else {
                1
            },
        );
        if size != self.requested_size {
            EditorView {
                scroll_animation: None,
                requested_size: size,
                ..self.asked(RequestView::Resize(size.0, size.1))
            }
        } else {
            self
        }
    }

    /// The editor with nothing being composed.
    pub open spec fn uncomposed(self) -> EditorView<S> {
        EditorView { marked_text: Seq::empty(), marked_selection: (0, 0), ..self }
    }

    /// Whether there is no Neovim that could object to closing.
    pub open spec fn may_close(self) -> bool {
        self.allow_close || self.client is None
    }

    /// Whether the cursor stands in contents that move.
    pub open spec fn cursor_moves_along(self) -> bool {
        self.scroll_animation matches Some(region) && region.covers(
            self.ui.grid.cursor_row as int,
            self.ui.grid.cursor_col as int,
        )
    }
}

/// What an event, if there is one, says.
pub open spec fn tells_title(event: Option<EditorEvent>, title: Option<Seq<char>>) -> bool {
    match title {
        Some(title) => event matches Some(EditorEvent::Title(told)) && told@ == title,
        None => event is None,
    }
}

/// Whether an answer is the one to redraw events: nothing until they end a frame,
/// and then how the frame is shown, with the title if that changed.
pub open spec fn answers_redraw<S>(
    received: Received,
    editor: EditorView<S>,
    events: Seq<Value>,
    reduce_motion: bool,
    at_rest: S,
) -> bool {
    let pending = editor.pending_redraw + events;
    let redraw = ui::redrawn(editor.ui, pending);
    let moves = editor.moves(redraw, at_rest);
    if !has_flush(pending) {
        received == (Received { notify: false, motion: None, event: None, ended: false })
    } else {
        &&& received.notify
        &&& !received.ended
        &&& tells_title(
            received.event,
            if redraw.result.title_changed {
                Some(redraw.ui.title)
            } else {
                None
            },
        )
        &&& if snaps(redraw, reduce_motion) {
            received.motion == Some(Motion::Snap)
        } else {
            received.motion matches Some(Motion::Follow { snapped, stretches }) && snapped
                == moves.snapped && stretches@ == moves.stretches
        }
    }
}

/// Which way the wheel was turned.
#[derive(Clone, Copy, Debug, PartialEq, Eq)]
pub enum Wheel {
    Up,
    Down,
    Left,
    Right,
}

/// Neovim's name for a turn of the wheel.
pub open spec fn wheel_name(wheel: Wheel) -> Seq<char> {
    match wheel {
        Wheel::Up => "up"@,
        Wheel::Down => "down"@,
        Wheel::Left => "left"@,
        Wheel::Right => "right"@,
    }
}

impl<S: Copy> Editor<S> {
    /// Whether the parts of the editor are well formed, and the events that wait can
    /// be applied.
    pub open spec fn wf(&self) -> bool {
        &&& self.ui.wf()
        &&& scrolling::animation_wf(self.scroll_animation)
        &&& ui::batch_fits(self.pending_redraw@)
    }

    /// An editor whose Neovim is being started, with the default colours for text,
    /// background, and underlines.
    pub fn new(default_colors: (u32, u32, u32)) -> (editor: Self)
        ensures
            editor.wf(),
            editor@ == (EditorView::<S> {
                ui: UiView {
                    default_foreground: default_colors.0,
                    default_background: default_colors.1,
                    default_special: default_colors.2,
                    ..ui::first_ui()
                },
                client: None,
                status: Some("Starting Neovim…"@),
                requested_size: (0, 0),
                font_spec: None,
                font_families: seq![fonts::DEFAULT_FONT@],
                metrics_linespace: i64::MIN,
                marked_text: Seq::empty(),
                marked_selection: (0, 0),
                cursor_visible: true,
                scroll_animation: None,
                pending_redraw: Seq::empty(),
                allow_close: false,
            }),
    {
        let mut ui = Ui::default();
        ui.default_foreground = default_colors.0;
        ui.default_background = default_colors.1;
        ui.default_special = default_colors.2;
        let editor = Editor {
            ui,
            client: None,
            status: Some("Starting Neovim…".to_owned()),
            requested_size: (0, 0),
            font_spec: None,
            font_families: vec![fonts::DEFAULT_FONT.to_owned()],
            metrics_linespace: i64::MIN,
            marked_text: String::new(),
            marked_selection: (0, 0),
            cursor_visible: true,
            scroll_animation: None,
            pending_redraw: Vec::new(),
            allow_close: false,
        };
        assert(editor@.font_families =~= seq![fonts::DEFAULT_FONT@]);
        assert(editor@.marked_text =~= Seq::empty());
        assert(editor@.pending_redraw =~= Seq::empty());
        editor
    }

    /// Takes up that Neovim has started, or why not.
    pub fn started(&mut self, outcome: Result<(), String>)
        requires
            old(self).wf(),
        ensures
            final(self).wf(),
            final(self)@ == match outcome {
                Ok(_) => EditorView { client: Some(Seq::empty()), status: None, ..old(self)@ },
                Err(message) => EditorView { status: Some(message@), ..old(self)@ },
            },
    {
        match outcome {
            Ok(_) => {
                self.client = Some(NvimClient::new());
                self.status = None;
            },
            Err(message) => {
                self.status = Some(message);
            },
        }
    }

    /// Takes up a report of Neovim.
    pub fn receive(&mut self, event: NvimEvent, reduce_motion: bool, at_rest: S) -> (received:
        Received)
        requires
            old(self).wf(),
            event matches NvimEvent::Redraw(events) ==> ui::batch_fits(events@),
        ensures
            final(self).wf(),
            final(self)@ == old(self)@.received(event, reduce_motion, at_rest),
            match event {
                NvimEvent::Redraw(events) => answers_redraw(
                    received,
                    old(self)@,
                    events@,
                    reduce_motion,
                    at_rest,
                ),
                NvimEvent::Error(_) => received == (Received {
                    notify: true,
                    motion: None,
                    event: None,
                    ended: false,
                }),
                NvimEvent::CloseCancelled => received == (Received {
                    notify: false,
                    motion: None,
                    event: Some(EditorEvent::CloseCancelled),
                    ended: false,
                }),
                NvimEvent::Exited(message) => received == (Received {
                    notify: message is Some,
                    motion: None,
                    event: Some(EditorEvent::Closed),
                    ended: true,
                }),
            },
    {
        match event {
            NvimEvent::Redraw(events) => self.draw(events, reduce_motion, at_rest),
            NvimEvent::Error(message) => {
                self.status = Some(message);
                Received { notify: true, motion: None, event: None, ended: false }
            },
            NvimEvent::CloseCancelled => Received {
                notify: false,
                motion: None,
                event: Some(EditorEvent::CloseCancelled),
                ended: false,
            },
            NvimEvent::Exited(message) => {
                let notify = message.is_some();
                if let Some(message) = message {
                    self.status = Some(message);
                }
                self.allow_close = true;
                Received { notify, motion: None, event: Some(EditorEvent::Closed), ended: true }
            },
        }
    }

    fn draw(&mut self, events: Vec<Value>, reduce_motion: bool, at_rest: S) -> (received: Received)
        requires
            old(self).wf(),
            ui::batch_fits(events@),
        ensures
            final(self).wf(),
            final(self)@ == old(self)@.received(NvimEvent::Redraw(events), reduce_motion, at_rest),
            answers_redraw(received, old(self)@, events@, reduce_motion, at_rest),
    {
        let ghost before = self@;
        let ghost pending = self@.pending_redraw + events@;
        let mut events = events;
        self.pending_redraw.append(&mut events);
        assert(self.pending_redraw@ =~= pending);
        if !redraw_has_flush(self.pending_redraw.as_slice()) {
            return Received { notify: false, motion: None, event: None, ended: false };
        }
        let mut all: Vec<Value> = Vec::new();
        std::mem::swap(&mut all, &mut self.pending_redraw);
        assert(self.pending_redraw@ =~= Seq::empty());
        let result = self.ui.apply_redraw(all.as_slice());
        let ghost redraw = ui::redrawn(before.ui, pending);
        assert(redraw.ui == self.ui@ && redraw.result == result@);
        proof {
            scrolling::law_redraws_keep_grid_and_records_whole(before.ui, pending);
            assert forall|i: int| 0 <= i < result.scrolls@.len() implies (
            #[trigger] result.scrolls@[i])@.wf() by {
                assert(redraw.result.scrolls[i] == result.scrolls@[i]@);
            }
        }
        let event = if result.title_changed {
            Some(EditorEvent::Title(self.ui.title.clone()))
        } else {
            None
        };
        self.cursor_visible = true;
        self.status = None;
        let motion = if result.invalidated || self.ui.busy || reduce_motion {
            self.scroll_animation = None;
            Motion::Snap
        } else {
            let absorbed = scrolling::absorb_scrolls(
                &mut self.scroll_animation,
                result.scrolls,
                at_rest,
            );
            Motion::Follow { snapped: absorbed.snapped, stretches: absorbed.stretches }
        };
        Received { notify: true, motion: Some(motion), event, ended: false }
    }

    /// Asks something of Neovim, once it has started.
    fn ask(&mut self, request: Request)
        requires
            old(self).wf(),
        ensures
            final(self).wf(),
            final(self)@ == old(self)@.asked(request@),
    {
        if let Some(mut client) = self.client.take() {
            match request {
                Request::Input(keys) => client.input(keys),
                Request::Paste(text) => client.paste(text),
                Request::Resize(width, height) => client.resize(width, height),
                Request::Focus(gained) => client.focus(gained),
                Request::Mouse { button, action, modifiers, row, col } => client.mouse(
                    button,
                    action,
                    modifiers,
                    row,
                    col,
                ),
                Request::ConfirmQuit => client.confirm_quit(),
            }
            self.client = Some(client);
        }
    }

    /// Hands out what is asked of Neovim so far, in order.
    pub fn take_requests(&mut self) -> (requests: Vec<Request>)
        requires
            old(self).wf(),
        ensures
            final(self).wf(),
            match old(self)@.client {
                Some(asked) => {
                    &&& nvim::requests_view(requests@) == asked
                    &&& final(self)@ == (EditorView { client: Some(Seq::empty()), ..old(self)@ })
                },
                None => requests@.len() == 0 && final(self)@ == old(self)@,
            },
    {
        match self.client.take() {
            Some(mut client) => {
                let requests = client.take_requests();
                self.client = Some(client);
                requests
            },
            None => Vec::new(),
        }
    }

    /// How long the cursor stays as it is while it blinks, in milliseconds.
    pub fn blink_delay(&self) -> (millis: u64)
        requires
            self.wf(),
        ensures
            ({
                let mode = self@.ui.cursor();
                let wanted = if self.cursor_visible {
                    mode.blink_on
                } else {
                    mode.blink_off
                };
                millis == if wanted < SHORTEST_BLINK {
                    SHORTEST_BLINK
                } else {
                    wanted
                }
            }),
            millis == self@.blink_millis(),
    {
        let mode: CursorMode = *self.ui.cursor_mode();
        let wanted: u64 = if self.cursor_visible { mode.blink_on } else { mode.blink_off };
        if wanted < SHORTEST_BLINK {
            SHORTEST_BLINK
        } else {
            wanted
        }
    }

    /// Shows or hides the cursor once its time is up. A cursor that does not blink
    /// is shown. The result says whether that changed anything.
    pub fn blink(&mut self, cursor_moving: bool) -> (changed: bool)
        requires
            old(self).wf(),
        ensures
            final(self).wf(),
            final(self)@ == (EditorView {
                cursor_visible: if old(self)@.blinks(cursor_moving) {
                    !old(self)@.cursor_visible
                } else {
                    true
                },
                ..old(self)@
            }),
            final(self)@ == old(self)@.blinked(cursor_moving),
            changed == (final(self)@.cursor_visible != old(self)@.cursor_visible),
    {
        let mode: CursorMode = *self.ui.cursor_mode();
        let blinking = mode.blink_on > 0 && mode.blink_off > 0 && !self.ui.busy && !cursor_moving
            && self.scroll_animation.is_none();
        let visible = if blinking { !self.cursor_visible } else { true };
        let changed = visible != self.cursor_visible;
        self.cursor_visible = visible;
        changed
    }

    /// Whether anything moves.
    pub fn animating(&self, cursor_moving: bool) -> (moving: bool)
        ensures
            moving == (cursor_moving || self@.scroll_animation is Some),
    {
        cursor_moving || self.scroll_animation.is_some()
    }

    /// Puts moving contents at their place at once.
    pub fn snap_scroll(&mut self)
        requires
            old(self).wf(),
        ensures
            final(self).wf(),
            final(self)@ == (EditorView { scroll_animation: None, ..old(self)@ }),
    {
        self.scroll_animation = None;
    }

    /// Whether the cursor stands in contents that move.
    pub fn cursor_moves_along(&self) -> (along: bool)
        ensures
            along == self@.cursor_moves_along(),
    {
        match &self.scroll_animation {
            Some(region) => region.contains(self.ui.grid.cursor_row, self.ui.grid.cursor_col),
            None => false,
        }
    }

    /// Tells Neovim whether its window has the focus.
    pub fn set_focus(&mut self, gained: bool)
        requires
            old(self).wf(),
        ensures
            final(self).wf(),
            final(self)@ == old(self)@.asked(RequestView::Focus(gained)),
    {
        self.ask(Request::Focus(gained));
    }

    /// The editor comes to the front.
    pub fn activate(&mut self)
        requires
            old(self).wf(),
        ensures
            final(self).wf(),
            final(self)@ == old(self)@.asked(RequestView::Focus(true)),
    {
        self.set_focus(true);
    }

    /// Another tab comes to the front.
    pub fn deactivate(&mut self)
        requires
            old(self).wf(),
        ensures
            final(self).wf(),
            final(self)@ == old(self)@.asked(RequestView::Focus(false)),
    {
        self.set_focus(false);
    }

    /// Whether the editor may be closed at once: Neovim is gone, or never started.
    pub fn may_close(&self) -> (at_once: bool)
        ensures
            at_once == self@.may_close(),
    {
        self.allow_close || self.client.is_none()
    }

    /// Whether the editor may be closed at once. Otherwise Neovim is asked to quit,
    /// which the user may refuse.
    pub fn request_close(&mut self) -> (at_once: bool)
        requires
            old(self).wf(),
        ensures
            final(self).wf(),
            at_once == old(self)@.may_close(),
            final(self)@ == if at_once {
                old(self)@
            } else {
                old(self)@.asked(RequestView::ConfirmQuit)
            },
    {
        let at_once = self.may_close();
        if !at_once {
            self.ask(Request::ConfirmQuit);
        }
        at_once
    }

    /// Types text. It is sent as it is: no part of it names a key.
    pub fn send_text(&mut self, text: &str)
        requires
            old(self).wf(),
        ensures
            final(self).wf(),
            final(self)@ == old(self)@.typed(text@),
    {
        if text.unicode_len() > 0 {
            self.ask(Request::Input(text::escape(text)));
        }
        self.cursor_visible = true;
    }

    /// Takes up a key press. One that types text is left alone: its text arrives
    /// through the input method. The result says whether the press was used.
    pub fn key_down(&mut self, key: &Keystroke) -> (used: bool)
        requires
            old(self).wf(),
        ensures
            final(self).wf(),
            match keys::chord_of(key.key@, key.modifiers) {
                Some(chord) => {
                    &&& used
                    &&& final(self)@ == (EditorView {
                        cursor_visible: true,
                        ..old(self)@.asked(RequestView::Input(chord))
                    })
                },
                None => !used && final(self)@ == old(self)@,
            },
    {
        match keys::encode_key(key) {
            Some(chord) => {
                self.ask(Request::Input(chord));
                self.cursor_visible = true;
                true
            },
            None => false,
        }
    }

    /// The cell that stands for a place, counted in rows and columns from the top
    /// left: the nearest one.
    pub fn point_to_cell(&self, row: usize, col: usize) -> (cell: Option<(usize, usize)>)
        ensures
            cell == self@.nearest_cell(row, col),
    {
        let width: usize = self.ui.grid.width;
        let height: usize = self.ui.grid.height;
        if width == 0 || height == 0 {
            return None;
        }
        let row: usize = if row < height { row } else { height - 1 };
        let col: usize = if col < width { col } else { width - 1 };
        Some((row, col))
    }

    /// Takes up an action of the mouse on a cell.
    pub fn mouse_named(
        &mut self,
        button: &'static str,
        action: &'static str,
        cell: Option<(usize, usize)>,
        held: Modifiers,
    )
        requires
            old(self).wf(),
        ensures
            final(self).wf(),
            final(self)@ == old(self)@.moused(button@, action@, cell, held),
    {
        if !self.ui.mouse_enabled {
            return ;
        }
        if let Some((row, col)) = cell {
            let modifiers = keys::modifiers(held);
            self.ask(Request::Mouse { button, action, modifiers, row, col });
        }
    }

    /// Takes up that a button was pressed.
    pub fn mouse_down(
        &mut self,
        button: MouseButton,
        cell: Option<(usize, usize)>,
        held: Modifiers,
    )
        requires
            old(self).wf(),
        ensures
            final(self).wf(),
            final(self)@ == old(self)@.moused(keys::button_name(button), "press"@, cell, held),
    {
        self.mouse_named(keys::mouse_button(button), "press", cell, held);
    }

    /// Takes up that a button was released.
    pub fn mouse_up(&mut self, button: MouseButton, cell: Option<(usize, usize)>, held: Modifiers)
        requires
            old(self).wf(),
        ensures
            final(self).wf(),
            final(self)@ == old(self)@.moused(keys::button_name(button), "release"@, cell, held),
    {
        self.mouse_named(keys::mouse_button(button), "release", cell, held);
    }

    /// Takes up that the mouse was moved, with a button pressed or none.
    pub fn mouse_move(
        &mut self,
        pressed: Option<MouseButton>,
        cell: Option<(usize, usize)>,
        held: Modifiers,
    )
        requires
            old(self).wf(),
        ensures
            final(self).wf(),
            final(self)@ == match pressed {
                Some(button) => old(self)@.moused(keys::button_name(button), "drag"@, cell, held),
                None => old(self)@.moused("move"@, ""@, cell, held),
            },
    {
        match pressed {
            Some(button) => self.mouse_named(keys::mouse_button(button), "drag", cell, held),
            None => self.mouse_named("move", "", cell, held),
        }
    }

    /// Takes up that the wheel was turned by one row or column.
    pub fn scroll_wheel(&mut self, wheel: Wheel, row: usize, col: usize, held: Modifiers)
        requires
            old(self).wf(),
        ensures
            final(self).wf(),
            final(self)@ == old(self)@.asked(
                RequestView::Mouse {
                    button: "wheel"@,
                    action: wheel_name(wheel),
                    modifiers: keys::mouse_letters(held),
                    row,
                    col,
                },
            ),
    {
        let action = match wheel {
            Wheel::Up => "up",
            Wheel::Down => "down",
            Wheel::Left => "left",
            Wheel::Right => "right",
        };
        let modifiers = keys::modifiers(held);
        self.ask(Request::Mouse { button: "wheel", action, modifiers, row, col });
    }

    /// Whether `guifont` has another value than the one that the fonts were chosen
    /// by.
    pub fn font_changed(&self) -> (changed: bool)
        ensures
            changed == (self@.font_spec != Some(self@.ui.guifont)),
    {
        match &self.font_spec {
            Some(spec) => !same_text(spec.as_str(), self.ui.guifont.as_str()),
            None => true,
        }
    }

    /// Chooses the fonts anew, of those that are installed. The result holds the
    /// options of `guifont`.
    pub fn choose_font(&mut self, installed: &[String]) -> (options: Vec<FontOption<String>>)
        requires
            old(self).wf(),
        ensures
            final(self).wf(),
            ({
                let request = fonts::requested(old(self)@.ui.guifont);
                &&& fonts::options_view(options@) == request.options
                &&& final(self)@ == (EditorView {
                    font_spec: Some(old(self)@.ui.guifont),
                    font_families: fonts::usable_families(
                        request.families,
                        text::strings_view(installed@),
                    ),
                    ..old(self)@
                })
            }),
    {
        let request: FontRequest = fonts::parse_guifont(self.ui.guifont.as_str());
        self.font_families = fonts::installed_font_families(request.families, installed);
        self.font_spec = Some(self.ui.guifont.clone());
        request.options
    }

    /// Whether cells are to be measured anew: after another font, or with another
    /// `linespace`. From now on they count as measured.
    pub fn measure(&mut self, font_changed: bool) -> (anew: bool)
        requires
            old(self).wf(),
        ensures
            final(self).wf(),
            anew == (font_changed || old(self)@.metrics_linespace != old(self)@.ui.linespace),
            final(self)@ == (EditorView {
                metrics_linespace: old(self)@.ui.linespace,
                ..old(self)@
            }),
    {
        let anew = font_changed || self.metrics_linespace != self.ui.linespace;
        self.metrics_linespace = self.ui.linespace;
        anew
    }

    /// Takes up that there is room for so many columns and rows: at least one of
    /// each. The result says whether that is another size. Neovim is then asked
    /// for it, and nothing moves any more.
    pub fn fit(&mut self, cols: usize, rows: usize) -> (changed: bool)
        requires
            old(self).wf(),
        ensures
            final(self).wf(),
            ({
                let size: (usize, usize) = (
                    if cols > 1 {
                        cols
                    } else {
                        1
                    },
                    if rows > 1 {
                        rows
                    } else {
                        1
                    },
                );
                &&& changed == (size != old(self)@.requested_size)
                &&& final(self)@ == if changed {
                    EditorView {
                        scroll_animation: None,
                        requested_size: size,
                        ..old(self)@.asked(RequestView::Resize(size.0, size.1))
                    }
                } else {
                    old(self)@
                }
            }),
            final(self)@ == old(self)@.fitted(cols, rows),
    {
        let cols: usize = if cols > 1 { cols } else { 1 };
        let rows: usize = if rows > 1 { rows } else { 1 };
        if cols == self.requested_size.0 && rows == self.requested_size.1 {
            return false;
        }
        self.scroll_animation = None;
        self.requested_size = (cols, rows);
        self.ask(Request::Resize(cols, rows));
        true
    }

    /// Works out what is drawn in the room there is.
    pub fn frame(&self) -> (frame: Frame)
        requires
            self.wf(),
        ensures
            paint::shows(
                frame,
                self@.ui,
                self@.scroll_animation,
                self@.cursor_visible,
                self@.requested_size.1 as int,
                self@.requested_size.0 as int,
            ),
    {
        paint::frame(
            &self.ui,
            &self.scroll_animation,
            self.cursor_visible,
            self.requested_size.1,
            self.requested_size.0,
        )
    }

    /// The selected part of the text that is being composed, in UTF-16 code units.
    pub fn selected_text_range(&self) -> (range: (usize, usize))
        ensures
            range == self@.marked_selection,
    {
        self.marked_selection
    }

    /// All of the text that is being composed, in UTF-16 code units, if there is
    /// any.
    pub fn marked_text_range(&self) -> (range: Option<(usize, usize)>)
        ensures
            range is Some <==> self@.marked_text.len() > 0,
            range matches Some((start, end)) ==> start == 0 && end == text::utf16_units(
                self@.marked_text,
            ),
    {
        if self.marked_text.as_str().unicode_len() == 0 {
            None
        } else {
            Some((0, text::utf16_len(self.marked_text.as_str())))
        }
    }

    /// The text that is being composed, whichever part was asked for, with its
    /// range in UTF-16 code units.
    pub fn text_for_range(&self) -> (part: (String, (usize, usize)))
        ensures
            part.0@ == self@.marked_text,
            part.1.0 == 0,
            part.1.1 == text::utf16_units(self@.marked_text),
    {
        (self.marked_text.clone(), (0, text::utf16_len(self.marked_text.as_str())))
    }

    /// Types text in place of what is being composed.
    pub fn replace_text_in_range(&mut self, text: &str)
        requires
            old(self).wf(),
        ensures
            final(self).wf(),
            final(self)@ == (EditorView {
                marked_text: Seq::empty(),
                marked_selection: (0, 0),
                ..old(self)@
            }).typed(text@),
            final(self)@ == old(self)@.uncomposed().typed(text@),
    {
        self.marked_text = String::new();
        self.marked_selection = (0, 0);
        assert(self@.marked_text =~= Seq::empty());
        self.send_text(text);
    }

    /// Goes on composing with another text. Where no part of it is selected the
    /// selection is at its end.
    pub fn replace_and_mark_text_in_range(
        &mut self,
        new_text: &str,
        new_selection: Option<(usize, usize)>,
    )
        requires
            old(self).wf(),
        ensures
            final(self).wf(),
            final(self)@.marked_text == new_text@,
            match new_selection {
                Some(selection) => final(self)@.marked_selection == selection,
                None => final(self)@.marked_selection.0 == text::utf16_units(new_text@)
                    && final(self)@.marked_selection.1 == text::utf16_units(new_text@),
            },
            final(self)@ == (EditorView {
                marked_text: final(self)@.marked_text,
                marked_selection: final(self)@.marked_selection,
                ..old(self)@
            }),
    {
        self.marked_text = new_text.to_owned();
        self.marked_selection = match new_selection {
            Some(selection) => selection,
            None => {
                let end: usize = text::utf16_len(new_text);
                (end, end)
            },
        };
    }

    /// Types what is being composed, if there is anything.
    pub fn commit_marked_text(&mut self)
        requires
            old(self).wf(),
        ensures
            final(self).wf(),
            final(self)@ == if old(self)@.marked_text.len() > 0 {
                (EditorView {
                    marked_text: Seq::empty(),
                    marked_selection: (0, 0),
                    ..old(self)@
                }).typed(old(self)@.marked_text)
            } else {
                old(self)@
            },
    {
        if self.marked_text.as_str().unicode_len() > 0 {
            let mut text = String::new();
            std::mem::swap(&mut text, &mut self.marked_text);
            self.marked_selection = (0, 0);
            assert(self@.marked_text =~= Seq::empty());
            self.send_text(text.as_str());
        }
    }
}

/// A place within the grid stands for itself. A row past the last stands for the last one,
/// and so does a column, each whatever the other is. Without cells there is none.
pub proof fn law_places_stand_for_the_nearest_cell<S>(
    editor: EditorView<S>,
    row: usize,
    col: usize,
)
    ensures
        ({
            let grid = editor.ui.grid;
            let cell = editor.nearest_cell(row, col);
            &&& cell is Some <==> grid.width > 0 && grid.height > 0
            &&& cell matches Some((near_row, near_col)) ==> {
                &&& row < grid.height ==> near_row == row
                &&& row >= grid.height ==> near_row + 1 == grid.height
                &&& col < grid.width ==> near_col == col
                &&& col >= grid.width ==> near_col + 1 == grid.width
            }
        }),
{
}

/// What is asked of a Neovim that has started comes after what was asked before. Before it
/// has, nothing is asked. Nothing else changes.
pub proof fn law_requests_are_added_at_the_end<S>(editor: EditorView<S>, request: RequestView)
    ensures
        ({
            let after = editor.asked(request);
            &&& editor.client is None ==> after == editor
            &&& editor.client matches Some(requests) ==> after.client == Some(
                requests.push(request),
            )
            &&& after == (EditorView { client: after.client, ..editor })
        }),
{
}

/// What the mouse does on a cell is reported for exactly that cell, with its button, action
/// and modifiers, if Neovim wants to know of the mouse. Otherwise nothing is.
pub proof fn law_the_mouse_is_reported_at_its_cell<S>(
    editor: EditorView<S>,
    button: Seq<char>,
    action: Seq<char>,
    row: usize,
    col: usize,
    held: Modifiers,
)
    ensures
        !editor.ui.mouse_enabled ==> editor.moused(button, action, Some((row, col)), held)
            == editor,
        editor.moused(button, action, None, held) == editor,
        editor.ui.mouse_enabled ==> (editor.client matches Some(requests) ==> editor.moused(
            button,
            action,
            Some((row, col)),
            held,
        ) == (EditorView {
            client: Some(
                requests.push(
                    RequestView::Mouse {
                        button,
                        action,
                        modifiers: keys::mouse_letters(held),
                        row,
                        col,
                    },
                ),
            ),
            ..editor
        })),
{
}

/// Text that is typed is sent as it is: what Neovim reads of the one request that is made is
/// that text. The cursor is shown, and no text makes no request.
pub proof fn law_typed_text_is_sent_once<S>(editor: EditorView<S>, text: Seq<char>)
    ensures
        ({
            let after = editor.typed(text);
            &&& after.cursor_visible
            &&& after == (EditorView {
                client: after.client,
                cursor_visible: true,
                ..editor
            })
            &&& text.len() == 0 || editor.client is None ==> after.client == editor.client
            &&& text.len() > 0 ==> (editor.client matches Some(requests) ==> {
                &&& after.client is Some
                &&& after.client->0.len() == requests.len() + 1
                &&& after.client->0.drop_last() == requests
                &&& after.client->0.last() matches RequestView::Input(input) && text::read_input(
                    input,
                ) == text
            })
        }),
{
    text::law_typed_text_arrives_as_it_is(text);
    let after = editor.typed(text);
    if text.len() > 0 {
        match editor.client {
            Some(requests) => {
                assert(after.client->0.drop_last() =~= requests);
            },
            None => {},
        }
    }
}

/// What Neovim draws comes out the same in however many reports it arrives, as long as the
/// frame ends with the last of them.
pub proof fn law_frames_may_arrive_in_parts<S>(
    editor: EditorView<S>,
    a: Vec<Value>,
    b: Vec<Value>,
    both: Vec<Value>,
    reduce_motion: bool,
    at_rest: S,
)
    requires
        both@ == a@ + b@,
        !has_flush(editor.pending_redraw + a@),
    ensures
        editor.received(NvimEvent::Redraw(a), reduce_motion, at_rest) == (EditorView {
            pending_redraw: editor.pending_redraw + a@,
            ..editor
        }),
        editor.received(NvimEvent::Redraw(a), reduce_motion, at_rest).received(
            NvimEvent::Redraw(b),
            reduce_motion,
            at_rest,
        ) == editor.received(NvimEvent::Redraw(both), reduce_motion, at_rest),
{
    let pending = editor.pending_redraw;
    assert((pending + a@) + b@ =~= pending + both@);
    let first = editor.received(NvimEvent::Redraw(a), reduce_motion, at_rest);
    let redraw = ui::redrawn(editor.ui, pending + both@);
    assert(first.moves(redraw, at_rest) == editor.moves(redraw, at_rest));
}

/// A frame applies all events that waited and those that came, in order. It shows the cursor
/// and takes the message away. Contents move smoothly unless the user wants no motion,
/// Neovim is busy, or what was on screen is not what moved.
pub proof fn law_frames_are_drawn_whole<S>(
    editor: EditorView<S>,
    events: Vec<Value>,
    reduce_motion: bool,
    at_rest: S,
)
    requires
        has_flush(editor.pending_redraw + events@),
    ensures
        ({
            let after = editor.received(NvimEvent::Redraw(events), reduce_motion, at_rest);
            let redraw = ui::redrawn(editor.ui, editor.pending_redraw + events@);
            let moves = scrolling::moves_of(
                editor.scroll_animation,
                redraw.result.scrolls,
                at_rest,
                redraw.result.scrolls.len(),
            );
            &&& after.ui == redraw.ui
            &&& after.pending_redraw.len() == 0
            &&& after.cursor_visible
            &&& after.status is None
            &&& reduce_motion || redraw.ui.busy || redraw.result.invalidated
                ==> after.scroll_animation is None
            &&& !reduce_motion && !redraw.ui.busy && !redraw.result.invalidated
                ==> after.scroll_animation == moves.animation
            &&& after.client == editor.client
            &&& after.requested_size == editor.requested_size
            &&& after.font_spec == editor.font_spec
            &&& after.font_families == editor.font_families
            &&& after.metrics_linespace == editor.metrics_linespace
            &&& after.marked_text == editor.marked_text
            &&& after.marked_selection == editor.marked_selection
            &&& after.allow_close == editor.allow_close
        }),
{
}

/// An error becomes the message, and so does what went wrong when Neovim ended; from then on
/// the editor may be closed. Nothing else changes, and nothing at all where the user chose
/// not to quit.
pub proof fn law_reports_change_the_message<S>(
    editor: EditorView<S>,
    message: String,
    reduce_motion: bool,
    at_rest: S,
)
    ensures
        editor.received(NvimEvent::Error(message), reduce_motion, at_rest) == (EditorView {
            status: Some(message@),
            ..editor
        }),
        editor.received(NvimEvent::CloseCancelled, reduce_motion, at_rest) == editor,
        editor.received(NvimEvent::Exited(None), reduce_motion, at_rest) == (EditorView {
            allow_close: true,
            ..editor
        }),
        editor.received(NvimEvent::Exited(Some(message)), reduce_motion, at_rest) == (EditorView {
            status: Some(message@),
            allow_close: true,
            ..editor
        }),
        editor.received(NvimEvent::Exited(None), reduce_motion, at_rest).may_close(),
{
}

/// A cursor whose mode gives it a time on and a time off changes between shown and hidden,
/// while Neovim is not busy and nothing moves; all others are shown. Nothing else changes.
/// It stays as it is for the time that its mode gives, and at least a tenth of a second.
pub proof fn law_blinking_cursors_come_and_go<S>(editor: EditorView<S>, cursor_moving: bool)
    ensures
        ({
            let mode = editor.ui.cursor();
            let after = editor.blinked(cursor_moving);
            let steady = mode.blink_on == 0 || mode.blink_off == 0 || editor.ui.busy
                || cursor_moving || editor.scroll_animation is Some;
            let time = if editor.cursor_visible {
                mode.blink_on
            } else {
                mode.blink_off
            };
            &&& steady ==> after.cursor_visible
            &&& !steady ==> after.cursor_visible == !editor.cursor_visible
            &&& after == (EditorView { cursor_visible: after.cursor_visible, ..editor })
            &&& time >= 100 ==> editor.blink_millis() == time
            &&& time < 100 ==> editor.blink_millis() == 100
        }),
{
}

/// Neovim is asked for another size exactly when there is other room than before, at least
/// one column and one row, and for exactly that size. Nothing moves any more then.
pub proof fn law_neovim_is_asked_for_the_room_there_is<S>(
    editor: EditorView<S>,
    cols: usize,
    rows: usize,
)
    ensures
        ({
            let after = editor.fitted(cols, rows);
            let size = after.requested_size;
            &&& cols > 0 ==> size.0 == cols
            &&& cols == 0 ==> size.0 == 1
            &&& rows > 0 ==> size.1 == rows
            &&& rows == 0 ==> size.1 == 1
            &&& size == editor.requested_size ==> after == editor
            &&& size != editor.requested_size ==> after.scroll_animation is None && (
            editor.client matches Some(requests) ==> after.client == Some(
                requests.push(RequestView::Resize(size.0, size.1)),
            ))
            &&& after == (EditorView {
                client: after.client,
                scroll_animation: after.scroll_animation,
                requested_size: size,
                ..editor
            })
        }),
{
}

/// Whatever is typed in its place, nothing is being composed any more, and nothing but that
/// has changed.
pub proof fn law_composing_ends_empty<S>(editor: EditorView<S>)
    ensures
        editor.uncomposed().marked_text.len() == 0,
        editor.uncomposed().marked_selection == (0usize, 0usize),
        editor.uncomposed() == (EditorView {
            marked_text: editor.uncomposed().marked_text,
            marked_selection: editor.uncomposed().marked_selection,
            ..editor
        }),
{
}

/// The cursor moves along with contents that move if it stands among them.
pub proof fn law_cursors_move_with_their_cells<S>(editor: EditorView<S>)
    ensures
        editor.cursor_moves_along() <==> (editor.scroll_animation matches Some(region)
            && region.top <= editor.ui.grid.cursor_row < region.bottom && region.left
            <= editor.ui.grid.cursor_col < region.right),
{
}

/// Until a frame ends nothing is answered. Then it is drawn anew, a title that changed is
/// told as it now is, and contents are put in their place at once or follow their moves.
pub proof fn law_frames_are_answered<S>(
    received: Received,
    editor: EditorView<S>,
    events: Seq<Value>,
    reduce_motion: bool,
    at_rest: S,
)
    requires
        answers_redraw(received, editor, events, reduce_motion, at_rest),
    ensures
        ({
            let pending = editor.pending_redraw + events;
            let redraw = ui::redrawn(editor.ui, pending);
            let at_once = reduce_motion || redraw.ui.busy || redraw.result.invalidated;
            let moves = scrolling::moves_of(
                editor.scroll_animation,
                redraw.result.scrolls,
                at_rest,
                redraw.result.scrolls.len(),
            );
            &&& received.notify == has_flush(pending)
            &&& !received.ended
            &&& !has_flush(pending) ==> received.motion is None && received.event is None
            &&& has_flush(pending) && !redraw.result.title_changed ==> received.event is None
            &&& has_flush(pending) && redraw.result.title_changed ==> (received.event matches Some(
                EditorEvent::Title(title),
            ) && title@ == redraw.ui.title)
            &&& has_flush(pending) && at_once ==> received.motion == Some(Motion::Snap)
            &&& has_flush(pending) && !at_once ==> (received.motion matches Some(
                Motion::Follow { snapped, stretches },
            ) && snapped == moves.snapped && stretches@ == moves.stretches)
        }),
{
}

/// A turn of the wheel goes by the way that it was turned.
pub proof fn law_turns_of_the_wheel_have_their_names(wheel: Wheel)
    ensures
        wheel_name(wheel) == if wheel is Up {
            seq!['u', 'p']
        } else if wheel is Down {
            seq!['d', 'o', 'w', 'n']
        } else if wheel is Left {
            seq!['l', 'e', 'f', 't']
        } else {
            seq!['r', 'i', 'g', 'h', 't']
        },
{
    reveal_strlit("up");
    reveal_strlit("down");
    reveal_strlit("left");
    reveal_strlit("right");
    assert("up"@ =~= seq!['u', 'p']);
    assert("down"@ =~= seq!['d', 'o', 'w', 'n']);
    assert("left"@ =~= seq!['l', 'e', 'f', 't']);
    assert("right"@ =~= seq!['r', 'i', 'g', 'h', 't']);
}

} // verus!
