//! The state of the user interface that Neovim describes, and how its redraw
//! events change it.

use crate::grid::Grid;
use crate::grid::GridView;
use crate::grid::ScrollRecord;
use crate::grid::ScrollView;
use crate::text::same_text;
use crate::value;
use crate::value::Value;
use std::collections::HashMap;
use vstd::prelude::*;

verus! {

broadcast use vstd::std_specs::hash::group_hash_axioms;

/// How text under a highlight looks. A colour that is not given is the default
/// one.
#[derive(Clone, Copy, Debug, PartialEq, Eq)]
pub struct Highlight {
    pub foreground: Option<u32>,
    pub background: Option<u32>,
    pub special: Option<u32>,
    pub reverse: bool,
    pub italic: bool,
    pub bold: bool,
    pub strikethrough: bool,
    pub underline: bool,
    pub undercurl: bool,
    pub underdouble: bool,
    pub underdotted: bool,
    pub underdashed: bool,
    pub dim: bool,
    pub blend: u8,
}

/// The highlight that sets nothing.
pub open spec fn plain_highlight() -> Highlight {
    Highlight {
        foreground: None,
        background: None,
        special: None,
        reverse: false,
        italic: false,
        bold: false,
        strikethrough: false,
        underline: false,
        undercurl: false,
        underdouble: false,
        underdotted: false,
        underdashed: false,
        dim: false,
        blend: 0,
    }
}

impl Default for Highlight {
    fn default() -> (highlight: Self)
        ensures
            highlight == plain_highlight(),
    {
        Highlight {
            foreground: None,
            background: None,
            special: None,
            reverse: false,
            italic: false,
            bold: false,
            strikethrough: false,
            underline: false,
            undercurl: false,
            underdouble: false,
            underdotted: false,
            underdashed: false,
            dim: false,
            blend: 0,
        }
    }
}

#[derive(Clone, Copy, Debug, PartialEq, Eq, Structural)]
pub enum CursorShape {
    Block,
    Horizontal,
    Vertical,
}

impl Default for CursorShape {
    fn default() -> (shape: Self)
        ensures
            shape == CursorShape::Block,
    {
        CursorShape::Block
    }
}

/// How the cursor looks in one of Neovim's modes.
#[derive(Clone, Copy, Debug, PartialEq, Eq)]
pub struct CursorMode {
    pub shape: CursorShape,
    pub cell_percentage: u8,
    pub blink_wait: u64,
    pub blink_on: u64,
    pub blink_off: u64,
    pub attr_id: u64,
}

/// A block that fills its cell and does not blink.
pub open spec fn plain_cursor() -> CursorMode {
    CursorMode {
        shape: CursorShape::Block,
        cell_percentage: 100,
        blink_wait: 0,
        blink_on: 0,
        blink_off: 0,
        attr_id: 0,
    }
}

impl Default for CursorMode {
    fn default() -> (mode: Self)
        ensures
            mode == plain_cursor(),
    {
        CursorMode {
            shape: CursorShape::Block,
            cell_percentage: 100,
            blink_wait: 0,
            blink_on: 0,
            blink_off: 0,
            attr_id: 0,
        }
    }
}

/// What a batch of redraw events did besides changing the state.
#[derive(Debug)]
pub struct RedrawResult {
    /// The batch ended a frame.
    pub flushed: bool,
    /// What is on screen can no longer be moved to its new place.
    pub invalidated: bool,
    pub title_changed: bool,
    pub scrolls: Vec<ScrollRecord>,
}

/// What a redraw result holds.
#[verifier::ext_equal]
pub struct RedrawView {
    pub flushed: bool,
    pub invalidated: bool,
    pub title_changed: bool,
    pub scrolls: Seq<ScrollView>,
}

/// What a list of scroll records holds.
pub open spec fn scrolls_view(scrolls: Seq<ScrollRecord>) -> Seq<ScrollView> {
    Seq::new(scrolls.len(), |i: int| scrolls[i]@)
}

impl View for RedrawResult {
    type V = RedrawView;

    open spec fn view(&self) -> RedrawView {
        RedrawView {
            flushed: self.flushed,
            invalidated: self.invalidated,
            title_changed: self.title_changed,
            scrolls: scrolls_view(self.scrolls@),
        }
    }
}

/// The result of no event.
pub open spec fn no_redraw() -> RedrawView {
    RedrawView {
        flushed: false,
        invalidated: false,
        title_changed: false,
        scrolls: Seq::empty(),
    }
}

impl Default for RedrawResult {
    fn default() -> (result: Self)
        ensures
            result@ == no_redraw(),
    {
        let result = RedrawResult {
            flushed: false,
            invalidated: false,
            title_changed: false,
            scrolls: Vec::new(),
        };
        assert(result@.scrolls =~= Seq::empty());
        result
    }
}

/// Session-wide state shared by every grid. The interface attaches without
/// `ext_multigrid`, so there is a single grid.
#[derive(Clone, Debug)]
pub struct Ui {
    pub grid: Grid,
    pub highlights: HashMap<u64, Highlight>,
    pub default_foreground: u32,
    pub default_background: u32,
    pub default_special: u32,
    pub cursor_modes: Vec<CursorMode>,
    pub mode_index: usize,
    pub cursor_style_enabled: bool,
    pub busy: bool,
    pub mouse_enabled: bool,
    pub title: String,
    pub guifont: String,
    pub linespace: i64,
}

/// What the state of the user interface holds.
#[verifier::ext_equal]
pub struct UiView {
    pub grid: GridView,
    pub highlights: Map<u64, Highlight>,
    pub default_foreground: u32,
    pub default_background: u32,
    pub default_special: u32,
    pub cursor_modes: Seq<CursorMode>,
    pub mode_index: usize,
    pub cursor_style_enabled: bool,
    pub busy: bool,
    pub mouse_enabled: bool,
    pub title: Seq<char>,
    pub guifont: Seq<char>,
    pub linespace: i64,
}

impl View for Ui {
    type V = UiView;

    open spec fn view(&self) -> UiView {
        UiView {
            grid: self.grid@,
            highlights: self.highlights@,
            default_foreground: self.default_foreground,
            default_background: self.default_background,
            default_special: self.default_special,
            cursor_modes: self.cursor_modes@,
            mode_index: self.mode_index,
            cursor_style_enabled: self.cursor_style_enabled,
            busy: self.busy,
            mouse_enabled: self.mouse_enabled,
            title: self.title@,
            guifont: self.guifont@,
            linespace: self.linespace,
        }
    }
}

/// The state before Neovim's first event.
pub open spec fn first_ui() -> UiView {
    UiView {
        grid: GridView {
            width: 0,
            height: 0,
            rows: Seq::empty(),
            cursor_row: 0,
            cursor_col: 0,
        },
        highlights: Map::empty(),
        default_foreground: 0xd8dee9,
        default_background: 0x1e222a,
        default_special: 0xd8dee9,
        cursor_modes: seq![plain_cursor()],
        mode_index: 0,
        cursor_style_enabled: true,
        busy: false,
        mouse_enabled: false,
        title: "Nuvi"@,
        guifont: Seq::empty(),
        linespace: 0,
    }
}

impl Default for Ui {
    fn default() -> (ui: Self)
        ensures
            ui.wf(),
            ui@ == first_ui(),
    {
        let ui = Ui {
            grid: Grid::default(),
            highlights: HashMap::new(),
            default_foreground: 0xd8dee9,
            default_background: 0x1e222a,
            default_special: 0xd8dee9,
            cursor_modes: vec![CursorMode::default()],
            mode_index: 0,
            cursor_style_enabled: true,
            busy: false,
            mouse_enabled: false,
            title: "Nuvi".to_owned(),
            guifont: String::new(),
            linespace: 0,
        };
        assert(ui@.grid.rows =~= Seq::empty());
        assert(ui@.cursor_modes =~= seq![plain_cursor()]);
        ui
    }
}

/// The number under a key, or another one where there is none.
pub open spec fn number_entry(map: Seq<(Value, Value)>, key: Seq<char>, otherwise: u64) -> u64 {
    match value::entry(map, key).u64_value() {
        Some(n) => n,
        None => otherwise,
    }
}

/// A percentage: at most a hundred.
pub open spec fn percentage(n: u64) -> u8 {
    if n < 100 {
        n as u8
    } else {
        100
    }
}

/// Whether the value under a key is the boolean true.
pub open spec fn flag_entry(map: Seq<(Value, Value)>, key: Seq<char>) -> bool {
    value::entry(map, key).bool_value() == Some(true)
}

/// The highlight that a map of attributes describes.
pub open spec fn highlight_of(attributes: Seq<(Value, Value)>) -> Highlight {
    Highlight {
        foreground: value::entry(attributes, "foreground"@).color_value(),
        background: value::entry(attributes, "background"@).color_value(),
        special: value::entry(attributes, "special"@).color_value(),
        reverse: flag_entry(attributes, "reverse"@),
        italic: flag_entry(attributes, "italic"@),
        bold: flag_entry(attributes, "bold"@),
        strikethrough: flag_entry(attributes, "strikethrough"@),
        underline: flag_entry(attributes, "underline"@),
        undercurl: flag_entry(attributes, "undercurl"@),
        underdouble: flag_entry(attributes, "underdouble"@),
        underdotted: flag_entry(attributes, "underdotted"@),
        underdashed: flag_entry(attributes, "underdashed"@),
        dim: flag_entry(attributes, "dim"@),
        blend: percentage(number_entry(attributes, "blend"@, 0)),
    }
}

/// The cursor that a map of a mode's properties describes.
pub open spec fn cursor_mode_of(mode: Seq<(Value, Value)>) -> CursorMode {
    let shape = value::entry(mode, "cursor_shape"@).str_value();
    CursorMode {
        shape: if shape == Some("horizontal"@) {
            CursorShape::Horizontal
        } else if shape == Some("vertical"@) {
            CursorShape::Vertical
        } else {
            CursorShape::Block
        },
        cell_percentage: percentage(number_entry(mode, "cell_percentage"@, 100)),
        blink_wait: number_entry(mode, "blinkwait"@, 0),
        blink_on: number_entry(mode, "blinkon"@, 0),
        blink_off: number_entry(mode, "blinkoff"@, 0),
        attr_id: number_entry(mode, "attr_id"@, 0),
    }
}

/// The cursors that the maps among the first `n` items describe.
pub open spec fn cursor_modes_of(items: Seq<Value>, n: nat) -> Seq<CursorMode>
    decreases n,
{
    if n == 0 {
        Seq::empty()
    } else {
        let before = cursor_modes_of(items, (n - 1) as nat);
        match items[n - 1].map_value() {
            Some(mode) => before.push(cursor_mode_of(mode)),
            None => before,
        }
    }
}

fn number(map: &[(Value, Value)], key: &str, otherwise: u64) -> (n: u64)
    ensures
        n == number_entry(map@, key@, otherwise),
{
    match value::map_get(map, key) {
        Some(found) => match found.as_u64() {
            Some(n) => n,
            None => otherwise,
        },
        None => otherwise,
    }
}

fn capped(n: u64) -> (percent: u8)
    ensures
        percent == percentage(n),
{
    if n < 100 {
        n as u8
    } else {
        100
    }
}

fn flag(map: &[(Value, Value)], key: &str) -> (set: bool)
    ensures
        set == flag_entry(map@, key@),
{
    match value::map_get(map, key) {
        Some(found) => match found.as_bool() {
            Some(set) => set,
            None => false,
        },
        None => false,
    }
}

fn color(map: &[(Value, Value)], key: &str) -> (color: Option<u32>)
    ensures
        color == value::entry(map@, key@).color_value(),
{
    match value::map_get(map, key) {
        Some(found) => value::value_color(found),
        None => None,
    }
}

/// Reads a map of highlight attributes.
fn read_highlight(attributes: &[(Value, Value)]) -> (highlight: Highlight)
    ensures
        highlight == highlight_of(attributes@),
{
    Highlight {
        foreground: color(attributes, "foreground"),
        background: color(attributes, "background"),
        special: color(attributes, "special"),
        reverse: flag(attributes, "reverse"),
        italic: flag(attributes, "italic"),
        bold: flag(attributes, "bold"),
        strikethrough: flag(attributes, "strikethrough"),
        underline: flag(attributes, "underline"),
        undercurl: flag(attributes, "undercurl"),
        underdouble: flag(attributes, "underdouble"),
        underdotted: flag(attributes, "underdotted"),
        underdashed: flag(attributes, "underdashed"),
        dim: flag(attributes, "dim"),
        blend: capped(number(attributes, "blend", 0)),
    }
}

/// Reads a map of a mode's cursor properties.
fn read_cursor_mode(mode: &[(Value, Value)]) -> (cursor: CursorMode)
    ensures
        cursor == cursor_mode_of(mode@),
{
    let shape: Option<&str> = match value::map_get(mode, "cursor_shape") {
        Some(found) => found.as_str(),
        None => None,
    };
    let shape = match shape {
        Some(name) => if same_text(name, "horizontal") {
            CursorShape::Horizontal
        } else if same_text(name, "vertical") {
            CursorShape::Vertical
        } else {
            CursorShape::Block
        },
        None => CursorShape::Block,
    };
    CursorMode {
        shape,
        cell_percentage: capped(number(mode, "cell_percentage", 100)),
        blink_wait: number(mode, "blinkwait", 0),
        blink_on: number(mode, "blinkon", 0),
        blink_off: number(mode, "blinkoff", 0),
        attr_id: number(mode, "attr_id", 0),
    }
}

/// Whether an event is about the one grid there is.
pub open spec fn on_grid(p: Seq<Value>) -> bool {
    value::param(p, 0).int_value() == Some(1i64)
}

/// The two sizes that an event gives after the number of its grid.
pub open spec fn size_params(p: Seq<Value>) -> Option<(usize, usize)> {
    match (value::param(p, 1).usize_value(), value::param(p, 2).usize_value()) {
        (Some(first), Some(second)) => Some((first, second)),
        _ => None,
    }
}

/// A value, or another one where there is none.
pub open spec fn or_else<T>(given: Option<T>, otherwise: T) -> T {
    match given {
        Some(value) => value,
        None => otherwise,
    }
}

impl UiView {
    /// The state after a highlight is defined: under a new number or an old one.
    pub open spec fn with_highlight(self, p: Seq<Value>) -> UiView {
        match (value::param(p, 0).u64_value(), value::param(p, 1).map_value()) {
            (Some(id), Some(attributes)) => UiView {
                highlights: self.highlights.insert(id, highlight_of(attributes)),
                ..self
            },
            _ => self,
        }
    }

    /// The state after the cursors of all modes are described. There is always
    /// one: where none is described, or cursor styles are off, a plain one.
    pub open spec fn with_cursor_modes(self, p: Seq<Value>) -> UiView {
        let enabled = or_else(value::param(p, 0).bool_value(), true);
        if !enabled {
            UiView {
                cursor_style_enabled: false,
                cursor_modes: seq![plain_cursor()],
                mode_index: 0,
                ..self
            }
        } else {
            match value::param(p, 1).array_value() {
                Some(items) => {
                    let modes = cursor_modes_of(items, items.len());
                    UiView {
                        cursor_style_enabled: true,
                        cursor_modes: if modes.len() == 0 {
                            seq![plain_cursor()]
                        } else {
                            modes
                        },
                        ..self
                    }
                },
                None => UiView { cursor_style_enabled: true, ..self },
            }
        }
    }

    /// The state after an option is set.
    pub open spec fn with_option(self, p: Seq<Value>) -> UiView {
        let name = value::param(p, 0).str_value();
        if name == Some("guifont"@) {
            UiView { guifont: or_else(value::param(p, 1).str_value(), self.guifont), ..self }
        } else if name == Some("linespace"@) {
            UiView { linespace: or_else(value::param(p, 1).i64_value(), self.linespace), ..self }
        } else {
            self
        }
    }

    /// The cursor of the current mode, the first one where that mode has none.
    pub open spec fn cursor(self) -> CursorMode {
        if self.mode_index < self.cursor_modes.len() {
            self.cursor_modes[self.mode_index as int]
        } else {
            self.cursor_modes[0]
        }
    }

    /// The state after one event.
    pub open spec fn event(self, name: Seq<char>, p: Seq<Value>) -> UiView {
        if name == "grid_resize"@ {
            match size_params(p) {
                Some((width, height)) if on_grid(p) => UiView {
                    grid: self.grid.resized(width, height),
                    ..self
                },
                _ => self,
            }
        } else if name == "grid_clear"@ {
            if on_grid(p) {
                UiView { grid: self.grid.cleared(), ..self }
            } else {
                self
            }
        } else if name == "grid_destroy"@ {
            if on_grid(p) {
                UiView { grid: self.grid.resized(0, 0), ..self }
            } else {
                self
            }
        } else if name == "grid_line"@ {
            if on_grid(p) {
                UiView { grid: self.grid.line(p), ..self }
            } else {
                self
            }
        } else if name == "grid_scroll"@ {
            match self.grid.scroll_region(p) {
                Some(region) if on_grid(p) => UiView { grid: self.grid.scrolled(region), ..self },
                _ => self,
            }
        } else if name == "grid_cursor_goto"@ {
            match size_params(p) {
                Some((row, col)) if on_grid(p) => UiView {
                    grid: GridView { cursor_row: row, cursor_col: col, ..self.grid },
                    ..self
                },
                _ => self,
            }
        } else if name == "default_colors_set"@ {
            UiView {
                default_foreground: or_else(
                    value::param(p, 0).color_value(),
                    self.default_foreground,
                ),
                default_background: or_else(
                    value::param(p, 1).color_value(),
                    self.default_background,
                ),
                default_special: or_else(value::param(p, 2).color_value(), self.default_special),
                ..self
            }
        } else if name == "hl_attr_define"@ {
            self.with_highlight(p)
        } else if name == "mode_info_set"@ {
            self.with_cursor_modes(p)
        } else if name == "mode_change"@ {
            UiView {
                mode_index: or_else(value::param(p, 1).usize_value(), self.mode_index),
                ..self
            }
        } else if name == "busy_start"@ {
            UiView { busy: true, ..self }
        } else if name == "busy_stop"@ {
            UiView { busy: false, ..self }
        } else if name == "mouse_on"@ {
            UiView { mouse_enabled: true, ..self }
        } else if name == "mouse_off"@ {
            UiView { mouse_enabled: false, ..self }
        } else if name == "set_title"@ {
            UiView { title: or_else(value::param(p, 0).str_value(), self.title), ..self }
        } else if name == "option_set"@ {
            self.with_option(p)
        } else {
            self
        }
    }
}

/// Whether an event changes the state and does nothing else.
pub open spec fn changes_state_alone(name: Seq<char>) -> bool {
    ||| name == "grid_cursor_goto"@
    ||| name == "default_colors_set"@
    ||| name == "hl_attr_define"@
    ||| name == "mode_info_set"@
    ||| name == "mode_change"@
    ||| name == "busy_start"@
    ||| name == "busy_stop"@
    ||| name == "mouse_on"@
    ||| name == "mouse_off"@
}

impl RedrawView {
    /// What a batch did, with one event more, given the state before the event.
    pub open spec fn event(self, ui: UiView, name: Seq<char>, p: Seq<Value>) -> RedrawView {
        if name == "grid_resize"@ {
            RedrawView {
                invalidated: self.invalidated || (on_grid(p) && size_params(p) is Some),
                ..self
            }
        } else if name == "grid_clear"@ || name == "grid_destroy"@ {
            RedrawView { invalidated: self.invalidated || on_grid(p), ..self }
        } else if name == "grid_line"@ {
            self
        } else if name == "grid_scroll"@ {
            if !on_grid(p) {
                self
            } else {
                match ui.grid.scroll_region(p) {
                    Some(region) => RedrawView {
                        scrolls: self.scrolls.push(ui.grid.scroll_record(region)),
                        ..self
                    },
                    None => RedrawView {
                        invalidated: self.invalidated || or_else(
                            value::param(p, 6).int_value(),
                            0i64,
                        ) != 0,
                        ..self
                    },
                }
            }
        } else if changes_state_alone(name) {
            self
        } else if name == "set_title"@ {
            RedrawView {
                title_changed: self.title_changed || ui.event(name, p).title != ui.title,
                ..self
            }
        } else if name == "option_set"@ {
            RedrawView {
                invalidated: self.invalidated || ui.with_option(p).guifont != ui.guifont
                    || ui.with_option(p).linespace != ui.linespace,
                ..self
            }
        } else {
            self
        }
    }
}

/// The state and what the batch did, part way through a batch of events.
#[verifier::ext_equal]
pub struct Redraw {
    pub ui: UiView,
    pub result: RedrawView,
}

impl Redraw {
    /// After one event more.
    pub open spec fn event(self, name: Seq<char>, p: Seq<Value>) -> Redraw {
        Redraw { ui: self.ui.event(name, p), result: self.result.event(self.ui, name, p) }
    }

    /// After the first `n` calls of an event: those that are parameter lists.
    pub open spec fn calls(self, name: Seq<char>, calls: Seq<Value>, n: nat) -> Redraw
        decreases n,
    {
        if n == 0 {
            self
        } else {
            let before = self.calls(name, calls, (n - 1) as nat);
            match calls[n - 1].array_value() {
                Some(p) => before.event(name, p),
                None => before,
            }
        }
    }

    /// After the first `n` entries of a batch. An entry is an event's name and
    /// then its calls.
    pub open spec fn batch(self, events: Seq<Value>, n: nat) -> Redraw
        decreases n,
    {
        if n == 0 {
            self
        } else {
            let before = self.batch(events, (n - 1) as nat);
            match event_name(events[n - 1]) {
                Some(name) => {
                    let entry = events[n - 1].array_value()->0;
                    let flushed = before.result.flushed || name == "flush"@;
                    Redraw {
                        ui: before.ui,
                        result: RedrawView { flushed, ..before.result },
                    }.calls(name, entry.skip(1), (entry.len() - 1) as nat)
                },
                None => before,
            }
        }
    }
}

/// The name of the event that an entry of a batch holds.
pub open spec fn event_name(event: Value) -> Option<Seq<char>> {
    match event.array_value() {
        Some(entry) => value::param(entry, 0).str_value(),
        None => None,
    }
}

/// The state after a batch of events and what the batch did.
pub open spec fn redrawn(ui: UiView, events: Seq<Value>) -> Redraw {
    Redraw { ui, result: no_redraw() }.batch(events, events.len())
}

/// Whether the cells of the grid size that a call of `grid_resize` asks for can
/// be counted.
pub open spec fn size_fits(p: Seq<Value>) -> bool {
    on_grid(p) ==> match size_params(p) {
        Some((width, height)) => width * height <= usize::MAX,
        None => true,
    }
}

/// Whether an entry of a batch asks for no grid that is too large.
pub open spec fn event_fits(event: Value) -> bool {
    event_name(event) == Some("grid_resize"@) ==> forall|i: int|
        1 <= i < (event.array_value()->0).len() ==> match (#[trigger] (event.array_value()->0)[i]).array_value() {
            Some(p) => size_fits(p),
            None => true,
        }
}

/// Whether a batch asks for no grid that is too large.
pub open spec fn batch_fits(events: Seq<Value>) -> bool {
    forall|i: int| 0 <= i < events.len() ==> event_fits(#[trigger] events[i])
}

impl Ui {
    /// Whether the grid is well formed and there is a cursor to fall back on.
    pub open spec fn wf(&self) -> bool {
        self.grid.wf() && self.cursor_modes@.len() > 0
    }

    /// The cursor of the current mode, the first one where that mode has none.
    pub fn cursor_mode(&self) -> (mode: &CursorMode)
        requires
            self.wf(),
        ensures
            *mode == self@.cursor(),
    {
        if self.mode_index < self.cursor_modes.len() {
            &self.cursor_modes[self.mode_index]
        } else {
            &self.cursor_modes[0]
        }
    }

    /// Applies a batch of redraw events, in order.
    pub fn apply_redraw(&mut self, args: &[Value]) -> (result: RedrawResult)
        requires
            old(self).wf(),
            batch_fits(args@),
        ensures
            final(self).wf(),
            (Redraw { ui: final(self)@, result: result@ }) == redrawn(old(self)@, args@),
    {
        let ghost start = Redraw { ui: self@, result: no_redraw() };
        let mut result = RedrawResult::default();
        let mut index: usize = 0;
        while index < args.len()
            invariant
                self.wf(),
                batch_fits(args@),
                index <= args@.len(),
                (Redraw { ui: self@, result: result@ }) == start.batch(args@, index as nat),
            decreases args@.len() - index,
        {
            assert(event_fits(args@[index as int]));
            let entry = match args[index].as_array() {
                Some(entry) => entry,
                None => {
                    index += 1;
                    continue ;
                },
            };
            let name = match value::str_at(entry, 0) {
                Some(name) => name,
                None => {
                    index += 1;
                    continue ;
                },
            };
            let ghost mut from = Redraw { ui: self@, result: result@ };
            if same_text(name, "flush") {
                result.flushed = true;
            }
            proof {
                from = Redraw { ui: self@, result: result@ };
            }
            let mut call: usize = 1;
            while call < entry.len()
                invariant
                    self.wf(),
                    index < args@.len(),
                    args@[index as int].array_value() == Some(entry@),
                    event_name(args@[index as int]) == Some(name@),
                    event_fits(args@[index as int]),
                    1 <= call <= entry@.len(),
                    (Redraw { ui: self@, result: result@ }) == from.calls(
                        name@,
                        entry@.skip(1),
                        (call - 1) as nat,
                    ),
                decreases entry@.len() - call,
            {
                assert(entry@.skip(1)[call - 1] == entry@[call as int]);
                if let Some(params) = entry[call].as_array() {
                    self.apply_event(name, params, &mut result);
                }
                call += 1;
            }
            index += 1;
        }
        result
    }

    /// Applies one call of an event.
    pub fn apply_event(&mut self, name: &str, p: &[Value], result: &mut RedrawResult)
        requires
            old(self).wf(),
            name@ == "grid_resize"@ ==> size_fits(p@),
        ensures
            final(self).wf(),
            (Redraw { ui: final(self)@, result: final(result)@ }) == (Redraw {
                ui: old(self)@,
                result: old(result)@,
            }).event(name@, p@),
    {
        let ghost ui = self@;
        let ghost done = result@;
        if same_text(name, "grid_resize") {
            if names_grid(p) {
                if let (Some(width), Some(height)) = (value::usize_at(p, 1), value::usize_at(p, 2)) {
                    self.grid.resize(width, height);
                    result.invalidated = true;
                }
            }
        } else if same_text(name, "grid_clear") {
            if names_grid(p) {
                self.grid.clear();
                result.invalidated = true;
            }
        } else if same_text(name, "grid_destroy") {
            if names_grid(p) {
                self.grid.resize(0, 0);
                result.invalidated = true;
            }
        } else if same_text(name, "grid_line") {
            if names_grid(p) {
                self.grid.line(p);
            }
        } else if same_text(name, "grid_scroll") {
            if names_grid(p) {
                match self.grid.scroll(p) {
                    Some(scroll) => {
                        result.scrolls.push(scroll);
                        assert(result@.scrolls =~= done.scrolls.push(scroll@));
                    },
                    None => if let Some(cols) = value::int_at(p, 6) {
                        if cols != 0 {
                            result.invalidated = true;
                        }
                    },
                }
            }
        } else if same_text(name, "grid_cursor_goto") {
            if names_grid(p) {
                if let (Some(row), Some(col)) = (value::usize_at(p, 1), value::usize_at(p, 2)) {
                    self.grid.cursor_row = row;
                    self.grid.cursor_col = col;
                }
            }
        } else if same_text(name, "default_colors_set") {
            if let Some(color) = value::color_at(p, 0) {
                self.default_foreground = color;
            }
            if let Some(color) = value::color_at(p, 1) {
                self.default_background = color;
            }
            if let Some(color) = value::color_at(p, 2) {
                self.default_special = color;
            }
        } else if same_text(name, "hl_attr_define") {
            self.define_highlight(p);
        } else if same_text(name, "mode_info_set") {
            self.set_cursor_modes(p);
        } else if same_text(name, "mode_change") {
            if let Some(index) = value::usize_at(p, 1) {
                self.mode_index = index;
            }
        } else if same_text(name, "busy_start") {
            self.busy = true;
        } else if same_text(name, "busy_stop") {
            self.busy = false;
        } else if same_text(name, "mouse_on") {
            self.mouse_enabled = true;
        } else if same_text(name, "mouse_off") {
            self.mouse_enabled = false;
        } else if same_text(name, "set_title") {
            if let Some(title) = value::str_at(p, 0) {
                if !same_text(self.title.as_str(), title) {
                    result.title_changed = true;
                }
                self.title = title.to_owned();
            }
        } else if same_text(name, "option_set") {
            if self.set_option(p) {
                result.invalidated = true;
            }
        }
    }

    /// Defines a highlight.
    pub fn define_highlight(&mut self, p: &[Value])
        requires
            old(self).wf(),
        ensures
            final(self).wf(),
            final(self)@ == old(self)@.with_highlight(p@),
    {
        if let (Some(id), Some(attributes)) = (value::u64_at(p, 0), value::map_at(p, 1)) {
            self.highlights.insert(id, read_highlight(attributes));
        }
    }

    /// Takes over the cursors of all modes.
    pub fn set_cursor_modes(&mut self, p: &[Value])
        requires
            old(self).wf(),
        ensures
            final(self).wf(),
            final(self)@ == old(self)@.with_cursor_modes(p@),
    {
        self.cursor_style_enabled = match p.get(0) {
            Some(enabled) => match enabled.as_bool() {
                Some(enabled) => enabled,
                None => true,
            },
            None => true,
        };
        if !self.cursor_style_enabled {
            self.cursor_modes = vec![CursorMode::default()];
            self.mode_index = 0;
            assert(self.cursor_modes@ =~= seq![plain_cursor()]);
            return ;
        }
        let items = match value::array_at(p, 1) {
            Some(items) => items,
            None => {
                return ;
            },
        };
        let mut modes: Vec<CursorMode> = Vec::new();
        let mut index: usize = 0;
        while index < items.len()
            invariant
                index <= items@.len(),
                modes@ == cursor_modes_of(items@, index as nat),
            decreases items@.len() - index,
        {
            if let Some(mode) = items[index].as_map() {
                modes.push(read_cursor_mode(mode));
            }
            index += 1;
        }
        if modes.is_empty() {
            modes.push(CursorMode::default());
            assert(modes@ =~= seq![plain_cursor()]);
        }
        self.cursor_modes = modes;
    }

    /// Sets an option. The result says whether that changed it.
    pub fn set_option(&mut self, p: &[Value]) -> (changed: bool)
        requires
            old(self).wf(),
        ensures
            final(self).wf(),
            final(self)@ == old(self)@.with_option(p@),
            changed == (final(self)@.guifont != old(self)@.guifont || final(self)@.linespace
                != old(self)@.linespace),
    {
        if let Some(name) = value::str_at(p, 0) {
            if same_text(name, "guifont") {
                if let Some(font) = value::str_at(p, 1) {
                    let changed = !same_text(self.guifont.as_str(), font);
                    self.guifont = font.to_owned();
                    return changed;
                }
            } else if same_text(name, "linespace") {
                let space: Option<i64> = match p.get(1) {
                    Some(space) => space.as_i64(),
                    None => None,
                };
                if let Some(space) = space {
                    let changed = self.linespace != space;
                    self.linespace = space;
                    return changed;
                }
            }
        }
        false
    }
}

/// Whether a batch asks for no grid whose cells cannot be counted.
pub fn redraw_fits(args: &[Value]) -> (fits: bool)
    ensures
        fits == batch_fits(args@),
{
    let mut index: usize = 0;
    while index < args.len()
        invariant
            index <= args@.len(),
            forall|i: int| 0 <= i < index ==> event_fits(#[trigger] args@[i]),
        decreases args@.len() - index,
    {
        if !entry_fits(&args[index]) {
            return false;
        }
        index += 1;
    }
    true
}

fn names_grid(p: &[Value]) -> (named: bool)
    ensures
        named == on_grid(p@),
{
    match value::int_at(p, 0) {
        Some(grid) => grid == 1,
        None => false,
    }
}

fn entry_fits(event: &Value) -> (fits: bool)
    ensures
        fits == event_fits(*event),
{
    let entry = match event.as_array() {
        Some(entry) => entry,
        None => {
            return true;
        },
    };
    match value::str_at(entry, 0) {
        Some(name) => if !same_text(name, "grid_resize") {
            return true;
        },
        None => {
            return true;
        },
    }
    let mut call: usize = 1;
    while call < entry.len()
        invariant
            event.array_value() == Some(entry@),
            event_name(*event) == Some("grid_resize"@),
            1 <= call <= entry@.len(),
            forall|i: int|
                1 <= i < call ==> match (#[trigger] entry@[i]).array_value() {
                    Some(p) => size_fits(p),
                    None => true,
                },
        decreases entry@.len() - call,
    {
        if let Some(p) = entry[call].as_array() {
            if names_grid(p) {
                if let (Some(width), Some(height)) = (value::usize_at(p, 1), value::usize_at(p, 2)) {
                    if width.checked_mul(height).is_none() {
                        assert(!size_fits(entry@[call as int].array_value()->0));
                        return false;
                    }
                }
            }
        }
        call += 1;
    }
    true
}

/// Events about another grid than the one there is change nothing.
pub proof fn law_other_grids_are_left_alone(redraw: Redraw, name: Seq<char>, p: Seq<Value>)
    requires
        !on_grid(p),
        name == "grid_resize"@ || name == "grid_clear"@ || name == "grid_destroy"@ || name
            == "grid_line"@ || name == "grid_scroll"@ || name == "grid_cursor_goto"@,
    ensures
        redraw.event(name, p) == redraw,
{
}

/// What two batches did, one after the other.
pub open spec fn merged(first: RedrawView, second: RedrawView) -> RedrawView {
    RedrawView {
        flushed: first.flushed || second.flushed,
        invalidated: first.invalidated || second.invalidated,
        title_changed: first.title_changed || second.title_changed,
        scrolls: first.scrolls + second.scrolls,
    }
}

/// With what was done before a batch put in front of what the batch did.
spec fn after(first: RedrawView, redraw: Redraw) -> Redraw {
    Redraw { ui: redraw.ui, result: merged(first, redraw.result) }
}

proof fn lemma_event_after(first: RedrawView, redraw: Redraw, name: Seq<char>, p: Seq<Value>)
    ensures
        after(first, redraw).event(name, p) == after(first, redraw.event(name, p)),
{
    let left = after(first, redraw).event(name, p);
    let right = after(first, redraw.event(name, p));
    assert(left.result.scrolls =~= right.result.scrolls);
}

proof fn lemma_calls_after(
    first: RedrawView,
    redraw: Redraw,
    name: Seq<char>,
    calls: Seq<Value>,
    n: nat,
)
    ensures
        after(first, redraw).calls(name, calls, n) == after(first, redraw.calls(name, calls, n)),
    decreases n,
{
    if n > 0 {
        lemma_calls_after(first, redraw, name, calls, (n - 1) as nat);
        let before = redraw.calls(name, calls, (n - 1) as nat);
        match calls[n - 1].array_value() {
            Some(p) => {
                lemma_event_after(first, before, name, p);
            },
            None => {},
        }
    }
}

proof fn lemma_batch_after(first: RedrawView, redraw: Redraw, events: Seq<Value>, n: nat)
    requires
        n <= events.len(),
    ensures
        after(first, redraw).batch(events, n) == after(first, redraw.batch(events, n)),
    decreases n,
{
    if n > 0 {
        lemma_batch_after(first, redraw, events, (n - 1) as nat);
        let before = redraw.batch(events, (n - 1) as nat);
        match event_name(events[n - 1]) {
            Some(name) => {
                let entry = events[n - 1].array_value()->0;
                let flushed = before.result.flushed || name == "flush"@;
                let from = Redraw {
                    ui: before.ui,
                    result: RedrawView { flushed, ..before.result },
                };
                lemma_calls_after(first, from, name, entry.skip(1), (entry.len() - 1) as nat);
            },
            None => {},
        }
    }
}

proof fn lemma_batch_parts(redraw: Redraw, a: Seq<Value>, b: Seq<Value>, n: nat)
    requires
        n <= b.len(),
    ensures
        redraw.batch(a + b, a.len()) == redraw.batch(a, a.len()),
        redraw.batch(a + b, a.len() + n) == redraw.batch(a, a.len()).batch(b, n),
    decreases n,
{
    lemma_batch_front(redraw, a, b, a.len());
    if n > 0 {
        lemma_batch_parts(redraw, a, b, (n - 1) as nat);
        assert((a + b)[a.len() + n - 1] == b[n - 1]);
    }
}

proof fn lemma_batch_front(redraw: Redraw, a: Seq<Value>, b: Seq<Value>, n: nat)
    requires
        n <= a.len(),
    ensures
        redraw.batch(a + b, n) == redraw.batch(a, n),
    decreases n,
{
    if n > 0 {
        lemma_batch_front(redraw, a, b, (n - 1) as nat);
        assert((a + b)[n - 1] == a[n - 1]);
    }
}

/// It makes no difference how Neovim divides its events into batches.
pub proof fn law_batches_can_be_divided(ui: UiView, a: Seq<Value>, b: Seq<Value>)
    ensures
        redrawn(ui, a + b).ui == redrawn(redrawn(ui, a).ui, b).ui,
        redrawn(ui, a + b).result == merged(
            redrawn(ui, a).result,
            redrawn(redrawn(ui, a).ui, b).result,
        ),
{
    let start = Redraw { ui, result: no_redraw() };
    let first = redrawn(ui, a);
    let fresh = Redraw { ui: first.ui, result: no_redraw() };
    lemma_batch_parts(start, a, b, b.len());
    lemma_batch_after(first.result, fresh, b, b.len());
    assert(first.result.scrolls + no_redraw().scrolls =~= first.result.scrolls);
    assert(after(first.result, fresh) == first);
    assert((a + b).len() == a.len() + b.len());
}

proof fn lemma_calls_keep_cursors(redraw: Redraw, name: Seq<char>, calls: Seq<Value>, n: nat)
    requires
        redraw.ui.cursor_modes.len() > 0,
    ensures
        redraw.calls(name, calls, n).ui.cursor_modes.len() > 0,
    decreases n,
{
    if n > 0 {
        lemma_calls_keep_cursors(redraw, name, calls, (n - 1) as nat);
    }
}

proof fn lemma_batch_keeps_cursors(redraw: Redraw, events: Seq<Value>, n: nat)
    requires
        redraw.ui.cursor_modes.len() > 0,
    ensures
        redraw.batch(events, n).ui.cursor_modes.len() > 0,
    decreases n,
{
    if n > 0 {
        lemma_batch_keeps_cursors(redraw, events, (n - 1) as nat);
        let before = redraw.batch(events, (n - 1) as nat);
        match event_name(events[n - 1]) {
            Some(name) => {
                let entry = events[n - 1].array_value()->0;
                let flushed = before.result.flushed || name == "flush"@;
                let from = Redraw {
                    ui: before.ui,
                    result: RedrawView { flushed, ..before.result },
                };
                lemma_calls_keep_cursors(from, name, entry.skip(1), (entry.len() - 1) as nat);
            },
            None => {},
        }
    }
}

/// The table of cursors is never empty, whatever events come.
pub proof fn law_there_is_always_a_cursor(ui: UiView, events: Seq<Value>)
    requires
        ui.cursor_modes.len() > 0,
    ensures
        redrawn(ui, events).ui.cursor_modes.len() > 0,
{
    lemma_batch_keeps_cursors(Redraw { ui, result: no_redraw() }, events, events.len());
}

/// A highlight that is defined is found under its number, with what its attributes say: a
/// flag holds where it is set to true, and what is not given is not set. No other highlight
/// changes.
pub proof fn law_highlights_are_what_was_defined(
    ui: UiView,
    p: Seq<Value>,
    id: u64,
    attributes: Seq<(Value, Value)>,
    other: u64,
)
    requires
        p.len() > 1,
        p[0].u64_value() == Some(id),
        p[1].map_value() == Some(attributes),
        other != id,
    ensures
        ({
            let after = ui.with_highlight(p);
            let defined = after.highlights[id];
            let is_set = |name: Seq<char>| value::entry(attributes, name) == Value::Boolean(true);
            let blend = value::entry(attributes, "blend"@).u64_value();
            &&& after.highlights.contains_key(id)
            &&& defined.foreground == value::entry(attributes, "foreground"@).color_value()
            &&& defined.background == value::entry(attributes, "background"@).color_value()
            &&& defined.special == value::entry(attributes, "special"@).color_value()
            &&& defined.reverse == is_set("reverse"@)
            &&& defined.italic == is_set("italic"@)
            &&& defined.bold == is_set("bold"@)
            &&& defined.strikethrough == is_set("strikethrough"@)
            &&& defined.underline == is_set("underline"@)
            &&& defined.undercurl == is_set("undercurl"@)
            &&& defined.underdouble == is_set("underdouble"@)
            &&& defined.underdotted == is_set("underdotted"@)
            &&& defined.underdashed == is_set("underdashed"@)
            &&& defined.dim == is_set("dim"@)
            &&& blend is None ==> defined.blend == 0
            &&& blend is Some && blend->0 <= 100 ==> defined.blend == blend->0
            &&& blend is Some && blend->0 > 100 ==> defined.blend == 100
            &&& after.highlights.contains_key(other) == ui.highlights.contains_key(other)
            &&& ui.highlights.contains_key(other) ==> after.highlights[other]
                == ui.highlights[other]
        }),
{
}

/// A highlight event without a number or without attributes does nothing.
pub proof fn law_incomplete_highlights_are_ignored(ui: UiView, p: Seq<Value>)
    requires
        p.len() <= 1 || p[0].u64_value() is None || p[1].map_value() is None,
    ensures
        ui.with_highlight(p) == ui,
{
}

proof fn lemma_cursor_modes_parts(a: Seq<Value>, b: Seq<Value>, n: nat)
    requires
        n <= b.len(),
    ensures
        cursor_modes_of(a + b, a.len()) == cursor_modes_of(a, a.len()),
        cursor_modes_of(a + b, a.len() + n) == cursor_modes_of(a, a.len()) + cursor_modes_of(b, n),
    decreases n,
{
    lemma_cursor_modes_front(a, b, a.len());
    if n > 0 {
        lemma_cursor_modes_parts(a, b, (n - 1) as nat);
        assert((a + b)[a.len() + n - 1] == b[n - 1]);
        assert(cursor_modes_of(a + b, a.len() + n) =~= cursor_modes_of(a, a.len())
            + cursor_modes_of(b, n));
    } else {
        assert(cursor_modes_of(a, a.len()) + cursor_modes_of(b, 0) =~= cursor_modes_of(a, a.len()));
    }
}

proof fn lemma_cursor_modes_front(a: Seq<Value>, b: Seq<Value>, n: nat)
    requires
        n <= a.len(),
    ensures
        cursor_modes_of(a + b, n) == cursor_modes_of(a, n),
    decreases n,
{
    if n > 0 {
        lemma_cursor_modes_front(a, b, (n - 1) as nat);
        assert((a + b)[n - 1] == a[n - 1]);
    }
}

/// The cursors are described in the order of the modes: those of two lists one after the
/// other are those of the first and then those of the second.
pub proof fn law_cursors_are_listed_in_order(a: Seq<Value>, b: Seq<Value>)
    ensures
        cursor_modes_of(a + b, (a + b).len()) == cursor_modes_of(a, a.len()) + cursor_modes_of(
            b,
            b.len(),
        ),
{
    lemma_cursor_modes_parts(a, b, b.len());
}

/// A cursor is what the properties of its mode say: a block of the whole cell that does not
/// blink, where they say nothing else. What is no map of properties describes none.
pub proof fn law_cursors_are_what_was_described(item: Value)
    ensures
        ({
            let listed = cursor_modes_of(seq![item], 1);
            match item.map_value() {
                None => listed.len() == 0,
                Some(mode) => {
                    let shape = value::entry(mode, "cursor_shape"@).str_value();
                    let part = value::entry(mode, "cell_percentage"@).u64_value();
                    let wait = value::entry(mode, "blinkwait"@).u64_value();
                    let on = value::entry(mode, "blinkon"@).u64_value();
                    let off = value::entry(mode, "blinkoff"@).u64_value();
                    let look = value::entry(mode, "attr_id"@).u64_value();
                    &&& listed.len() == 1
                    &&& listed[0].shape == CursorShape::Horizontal <==> shape == Some(
                        "horizontal"@,
                    )
                    &&& listed[0].shape == CursorShape::Vertical <==> shape == Some("vertical"@)
                    &&& part is None || part->0 > 100 ==> listed[0].cell_percentage == 100
                    &&& part is Some && part->0 <= 100 ==> listed[0].cell_percentage == part->0
                    &&& listed[0].blink_wait == or_else(wait, 0)
                    &&& listed[0].blink_on == or_else(on, 0)
                    &&& listed[0].blink_off == or_else(off, 0)
                    &&& listed[0].attr_id == or_else(look, 0)
                },
            }
        }),
{
    reveal_strlit("horizontal");
    reveal_strlit("vertical");
    assert("horizontal"@.len() != "vertical"@.len());
    assert(seq![item][0] == item);
    assert(cursor_modes_of(seq![item], 0).len() == 0);
}

/// Where cursor styles are on the cursors are those that are listed, or a plain one where
/// none is. Where they are off there is a plain one, for the first mode. Without a list the
/// cursors stay.
pub proof fn law_there_is_a_cursor_for_every_setting(ui: UiView, p: Seq<Value>)
    ensures
        ({
            let after = ui.with_cursor_modes(p);
            let off = p.len() > 0 && p[0] == Value::Boolean(false);
            &&& after.cursor_style_enabled == !off
            &&& off ==> after.cursor_modes == seq![plain_cursor()] && after.mode_index == 0
            &&& !off ==> after.mode_index == ui.mode_index
            &&& !off && (p.len() < 2 || p[1] !is Array) ==> after.cursor_modes == ui.cursor_modes
            &&& !off && p.len() > 1 && p[1] is Array ==> {
                let listed = cursor_modes_of((p[1]->Array_0)@, (p[1]->Array_0)@.len());
                &&& listed.len() > 0 ==> after.cursor_modes == listed
                &&& listed.len() == 0 ==> after.cursor_modes == seq![plain_cursor()]
            }
        }),
{
}

/// The cursor is that of the current mode, or the first one where there is none for it.
pub proof fn law_the_cursor_is_that_of_the_mode(ui: UiView)
    ensures
        ui.mode_index < ui.cursor_modes.len() ==> ui.cursor() == ui.cursor_modes[ui.mode_index as int],
        ui.mode_index >= ui.cursor_modes.len() ==> ui.cursor() == ui.cursor_modes[0],
{
}

/// Each event leaves alone what it is not about.
pub proof fn law_events_change_their_own_part(ui: UiView, name: Seq<char>, p: Seq<Value>)
    ensures
        ({
            let after = ui.event(name, p);
            &&& name != "grid_resize"@ && name != "grid_clear"@ && name != "grid_destroy"@ && name
                != "grid_line"@ && name != "grid_scroll"@ && name != "grid_cursor_goto"@
                ==> after.grid == ui.grid
            &&& name != "default_colors_set"@ ==> after.default_foreground == ui.default_foreground
                && after.default_background == ui.default_background && after.default_special
                == ui.default_special
            &&& name != "hl_attr_define"@ ==> after.highlights == ui.highlights
            &&& name != "mode_info_set"@ ==> after.cursor_modes == ui.cursor_modes
                && after.cursor_style_enabled == ui.cursor_style_enabled
            &&& name != "mode_info_set"@ && name != "mode_change"@ ==> after.mode_index
                == ui.mode_index
            &&& name != "busy_start"@ && name != "busy_stop"@ ==> after.busy == ui.busy
            &&& name != "mouse_on"@ && name != "mouse_off"@ ==> after.mouse_enabled
                == ui.mouse_enabled
            &&& name != "set_title"@ ==> after.title == ui.title
            &&& name != "option_set"@ ==> after.guifont == ui.guifont && after.linespace
                == ui.linespace
        }),
{
}

/// Whether a value is given for something, or else that something stays as it was.
pub open spec fn given_or_kept<T>(given: Option<T>, after: T, before: T) -> bool {
    match given {
        Some(value) => after == value,
        None => after == before,
    }
}

proof fn lemma_event_names_differ()
    ensures
        "grid_resize"@.len() == 11,
        "grid_clear"@.len() == 10,
        "grid_destroy"@.len() == 12,
        "grid_line"@.len() == 9,
        "grid_scroll"@.len() == 11 && "grid_scroll"@[5] == 's',
        "grid_resize"@[5] == 'r',
        "grid_cursor_goto"@.len() == 16,
        "default_colors_set"@.len() == 18,
        "hl_attr_define"@.len() == 14,
        "mode_info_set"@.len() == 13,
        "mode_change"@.len() == 11 && "mode_change"@[5] == 'c',
        "busy_start"@.len() == 10 && "busy_start"@[0] == 'b',
        "grid_clear"@[0] == 'g',
        "busy_stop"@.len() == 9 && "busy_stop"@[0] == 'b',
        "grid_line"@[0] == 'g',
        "mouse_on"@.len() == 8,
        "mouse_off"@.len() == 9 && "mouse_off"@[0] == 'm',
        "set_title"@.len() == 9 && "set_title"@[0] == 's',
        "option_set"@.len() == 10 && "option_set"@[0] == 'o',
{
    reveal_strlit("grid_resize");
    reveal_strlit("grid_clear");
    reveal_strlit("grid_destroy");
    reveal_strlit("grid_line");
    reveal_strlit("grid_scroll");
    reveal_strlit("grid_cursor_goto");
    reveal_strlit("default_colors_set");
    reveal_strlit("hl_attr_define");
    reveal_strlit("mode_info_set");
    reveal_strlit("mode_change");
    reveal_strlit("busy_start");
    reveal_strlit("busy_stop");
    reveal_strlit("mouse_on");
    reveal_strlit("mouse_off");
    reveal_strlit("set_title");
    reveal_strlit("option_set");
}

/// What the events on the grid do to it, if they are about the one grid there is: resize
/// it, clear it, take away all its cells, write a line, move a region, or move the cursor.
pub proof fn law_grid_events_do_what_they_say(ui: UiView, p: Seq<Value>)
    requires
        p.len() > 0,
        p[0] == Value::Integer(1),
    ensures
        value::param(p, 1).usize_value() is Some && value::param(p, 2).usize_value() is Some ==> ui.event("grid_resize"@, p).grid
            == ui.grid.resized(value::param(p, 1).usize_value()->0, value::param(p, 2).usize_value()->0),
        value::param(p, 1).usize_value() is None || value::param(p, 2).usize_value() is None ==> ui.event("grid_resize"@, p)
            == ui && ui.event("grid_cursor_goto"@, p) == ui,
        ui.event("grid_clear"@, p).grid == ui.grid.cleared(),
        ui.event("grid_destroy"@, p).grid.width == 0,
        ui.event("grid_destroy"@, p).grid.height == 0,
        ui.event("grid_destroy"@, p).grid.rows.len() == 0,
        ui.event("grid_line"@, p).grid == ui.grid.line(p),
        ui.grid.scroll_region(p) matches Some(region) ==> ui.event("grid_scroll"@, p).grid
            == ui.grid.scrolled(region),
        ui.grid.scroll_region(p) is None ==> ui.event("grid_scroll"@, p) == ui,
        value::param(p, 1).usize_value() is Some && value::param(p, 2).usize_value() is Some ==> {
            let after = ui.event("grid_cursor_goto"@, p).grid;
            &&& after.cursor_row == value::param(p, 1).usize_value()->0
            &&& after.cursor_col == value::param(p, 2).usize_value()->0
            &&& after.rows == ui.grid.rows
            &&& after.width == ui.grid.width
            &&& after.height == ui.grid.height
        },
{
    lemma_event_names_differ();
}

/// What the other events set: each a value of its own, which stays where none is given.
pub proof fn law_other_events_set_what_they_say(ui: UiView, p: Seq<Value>)
    ensures
        ({
            let colors = ui.event("default_colors_set"@, p);
            &&& given_or_kept(value::param(p, 0).color_value(), colors.default_foreground, ui.default_foreground)
            &&& given_or_kept(value::param(p, 1).color_value(), colors.default_background, ui.default_background)
            &&& given_or_kept(value::param(p, 2).color_value(), colors.default_special, ui.default_special)
        }),
        ui.event("hl_attr_define"@, p) == ui.with_highlight(p),
        ui.event("mode_info_set"@, p) == ui.with_cursor_modes(p),
        given_or_kept(
            value::param(p, 1).usize_value(),
            ui.event("mode_change"@, p).mode_index,
            ui.mode_index,
        ),
        ui.event("busy_start"@, p).busy,
        !ui.event("busy_stop"@, p).busy,
        ui.event("mouse_on"@, p).mouse_enabled,
        !ui.event("mouse_off"@, p).mouse_enabled,
        given_or_kept(value::param(p, 0).str_value(), ui.event("set_title"@, p).title, ui.title),
        value::param(p, 0).str_value() == Some("guifont"@) ==> given_or_kept(
            value::param(p, 1).str_value(),
            ui.event("option_set"@, p).guifont,
            ui.guifont,
        ) && ui.event("option_set"@, p).linespace == ui.linespace,
        value::param(p, 0).str_value() == Some("linespace"@) ==> given_or_kept(
            value::param(p, 1).i64_value(),
            ui.event("option_set"@, p).linespace,
            ui.linespace,
        ) && ui.event("option_set"@, p).guifont == ui.guifont,
        value::param(p, 0).str_value() != Some("guifont"@) && value::param(p, 0).str_value() != Some("linespace"@) ==> ui.event(
            "option_set"@,
            p,
        ) == ui,
{
    lemma_event_names_differ();
    reveal_strlit("guifont");
    reveal_strlit("linespace");
    assert("guifont"@.len() != "linespace"@.len());
}

/// What a batch reports of an event: a record for each move of a region, that the title or
/// an option is another one than before, and that what is on screen cannot be moved to its
/// place. What was reported before stays reported.
pub proof fn law_events_report_what_they_did(
    ui: UiView,
    before: RedrawView,
    name: Seq<char>,
    p: Seq<Value>,
)
    ensures
        ({
            let after = before.event(ui, name, p);
            let moved = name == "grid_scroll"@ && on_grid(p) && ui.grid.scroll_region(p) is Some;
            let now = ui.event(name, p);
            &&& after.flushed == before.flushed
            &&& moved ==> after.scrolls == before.scrolls.push(
                ui.grid.scroll_record(ui.grid.scroll_region(p)->0),
            )
            &&& !moved ==> after.scrolls == before.scrolls
            &&& after.title_changed <==> before.title_changed || now.title != ui.title
            &&& before.invalidated ==> after.invalidated
            &&& now.guifont != ui.guifont || now.linespace != ui.linespace ==> after.invalidated
            &&& now.grid.width != ui.grid.width || now.grid.height != ui.grid.height
                ==> after.invalidated
            &&& (name == "grid_clear"@ || name == "grid_destroy"@) && on_grid(p)
                ==> after.invalidated
            &&& name == "grid_resize"@ && on_grid(p) && size_params(p) is Some ==> after.invalidated
            &&& moved ==> after.invalidated == before.invalidated
            &&& name == "grid_scroll"@ && on_grid(p) && value::param(p, 6).int_value() is Some
                && value::param(p, 6).int_value()->0 != 0 ==> after.invalidated
            &&& name != "grid_resize"@ && name != "grid_clear"@ && name != "grid_destroy"@ && name
                != "grid_scroll"@ && name != "option_set"@ ==> after.invalidated
                == before.invalidated
            &&& name == "option_set"@ && now.guifont == ui.guifont && now.linespace == ui.linespace
                ==> after.invalidated == before.invalidated
            &&& name != "option_set"@ && !on_grid(p) ==> after == before || name == "set_title"@
            &&& name == "grid_resize"@ && size_params(p) is None ==> after == before
            &&& name == "grid_scroll"@ && (value::param(p, 6).int_value() is None || value::param(
                p,
                6,
            ).int_value()->0 == 0) ==> after.invalidated == before.invalidated
        }),
{
    lemma_event_names_differ();
}

proof fn lemma_calls_parts(redraw: Redraw, name: Seq<char>, a: Seq<Value>, b: Seq<Value>, n: nat)
    requires
        n <= b.len(),
    ensures
        redraw.calls(name, a + b, a.len() + n) == redraw.calls(name, a, a.len()).calls(name, b, n),
    decreases n,
{
    if n > 0 {
        lemma_calls_parts(redraw, name, a, b, (n - 1) as nat);
        assert((a + b)[a.len() + n - 1] == b[n - 1]);
    } else {
        lemma_calls_front(redraw, name, a, b, a.len());
    }
}

proof fn lemma_calls_front(redraw: Redraw, name: Seq<char>, a: Seq<Value>, b: Seq<Value>, n: nat)
    requires
        n <= a.len(),
    ensures
        redraw.calls(name, a + b, n) == redraw.calls(name, a, n),
    decreases n,
{
    if n > 0 {
        lemma_calls_front(redraw, name, a, b, (n - 1) as nat);
        assert((a + b)[n - 1] == a[n - 1]);
    }
}

/// The calls of an event are made one after the other, each with its own parameters. What
/// is no list of parameters is passed over.
pub proof fn law_calls_are_made_in_order(
    redraw: Redraw,
    name: Seq<char>,
    a: Seq<Value>,
    b: Seq<Value>,
    call: Value,
)
    ensures
        redraw.calls(name, a + b, (a + b).len()) == redraw.calls(name, a, a.len()).calls(
            name,
            b,
            b.len(),
        ),
        redraw.calls(name, Seq::empty(), 0) == redraw,
        call matches Value::Array(p) ==> redraw.calls(name, seq![call], 1) == redraw.event(name, p@),
        call !is Array ==> redraw.calls(name, seq![call], 1) == redraw,
{
    lemma_calls_parts(redraw, name, a, b, b.len());
    assert(redraw.calls(name, seq![call], 0) == redraw);
    assert(seq![call][0] == call);
}

/// An entry of a batch makes the calls that follow the name of its event, and the one that
/// ends a frame is noted. What is no entry of that form does nothing.
pub proof fn law_batches_make_their_calls(ui: UiView, event: Value, entry: Seq<Value>)
    requires
        event.array_value() == Some(entry) || event !is Array,
    ensures
        event is Array && entry.len() > 0 && entry[0] is Text ==> {
            let name = entry[0].str_value()->0;
            let noted = RedrawView { flushed: name == "flush"@, ..no_redraw() };
            redrawn(ui, seq![event]) == (Redraw { ui, result: noted }).calls(
                name,
                entry.skip(1),
                (entry.len() - 1) as nat,
            )
        },
        event !is Array || entry.len() == 0 || entry[0] !is Text ==> redrawn(ui, seq![event])
            == (Redraw { ui, result: no_redraw() }),
{
    let start = Redraw { ui, result: no_redraw() };
    assert(start.batch(seq![event], 0) == start);
    assert(seq![event][0] == event);
}

/// There is one grid, and its number is 1.
pub proof fn law_there_is_one_grid(p: Seq<Value>)
    ensures
        on_grid(p) <==> p.len() > 0 && p[0] == Value::Integer(1),
{
    if p.len() > 0 {
        match p[0] {
            Value::Integer(n) => {
                value::law_numbers_are_read_as_they_are(n);
            },
            _ => {},
        }
    }
}

/// The plain cursor is a block of the whole cell that does not blink and has no highlight.
pub proof fn law_the_plain_cursor_is_a_block()
    ensures
        plain_cursor().shape == CursorShape::Block,
        plain_cursor().cell_percentage == 100,
        plain_cursor().blink_wait == 0 && plain_cursor().blink_on == 0,
        plain_cursor().blink_off == 0 && plain_cursor().attr_id == 0,
{
}

} // verus!
