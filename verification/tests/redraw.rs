use nuvi::grid::Cell;
use nuvi::grid::Grid;
use nuvi::ui::redraw_fits;
use nuvi::ui::CursorMode;
use nuvi::ui::CursorShape;
use nuvi::ui::Ui;
use nuvi::value::color_at;
use nuvi::value::int_at;
use nuvi::value::usize_at;
use nuvi::value::Value;

fn num(n: i128) -> Value {
    Value::Integer(n)
}

fn text(text: &str) -> Value {
    Value::Text(text.to_string())
}

fn array(items: Vec<Value>) -> Value {
    Value::Array(items)
}

#[test]
fn redraw_preserves_cells_and_scrolls_regions() {
    let redraw = vec![
        array(vec![
            text("grid_resize"),
            array(vec![num(1), num(4), num(3)]),
        ]),
        array(vec![
            text("grid_line"),
            array(vec![
                num(1),
                num(1),
                num(0),
                array(vec![
                    array(vec![text("a"), num(7)]),
                    array(vec![text("b")]),
                    array(vec![text("c"), num(8), num(2)]),
                ]),
                Value::Boolean(false),
            ]),
        ]),
        array(vec![
            text("grid_scroll"),
            array(vec![
                num(1),
                num(0),
                num(3),
                num(0),
                num(4),
                num(-1),
                num(0),
            ]),
        ]),
        array(vec![text("set_title"), array(vec![text("main.rs — nuvi")])]),
        array(vec![text("flush"), array(vec![])]),
    ];

    let mut ui = Ui::default();
    assert!(redraw_fits(&redraw));
    let result = ui.apply_redraw(&redraw);
    assert!(result.flushed);
    assert!(result.title_changed);
    assert_eq!(ui.title, "main.rs — nuvi");
    assert_eq!(result.scrolls.len(), 1);
    assert_eq!(result.scrolls[0].evicted.len(), 1);
    assert_eq!(ui.grid.cell(2, 0), Some(&Cell::new("a", 7)));
    assert_eq!(ui.grid.cell(2, 1), Some(&Cell::new("b", 7)));
    assert_eq!(ui.grid.cell(2, 2), Some(&Cell::new("c", 8)));
    assert_eq!(ui.grid.cell(2, 3), Some(&Cell::new("c", 8)));
}

fn numbered_grid() -> Grid {
    let mut grid = Grid::default();
    grid.resize(4, 3);
    for row in 0..grid.height {
        for col in 0..grid.width {
            grid.cells[row * grid.width + col] = Cell::new(&format!("{row}{col}"), 0);
        }
    }
    grid
}

#[test]
fn scroll_moves_subregions_and_records_evicted_cells() {
    let mut up = numbered_grid();
    let record = up
        .scroll(&[num(1), num(0), num(3), num(1), num(3), num(1), num(0)])
        .unwrap();
    assert_eq!(record.evicted[0][0].as_str(), "01");
    assert_eq!(record.evicted[0][1].as_str(), "02");
    assert_eq!(up.cell(0, 1).unwrap().as_str(), "11");
    assert_eq!(up.cell(1, 2).unwrap().as_str(), "22");
    assert_eq!(up.cell(2, 1).unwrap(), &Cell::default());
    assert_eq!(up.cell(0, 0).unwrap().as_str(), "00");
    assert_eq!(up.cell(2, 3).unwrap().as_str(), "23");

    let mut down = numbered_grid();
    let record = down
        .scroll(&[num(1), num(0), num(3), num(1), num(3), num(-1), num(0)])
        .unwrap();
    assert_eq!(record.evicted[0][0].as_str(), "21");
    assert_eq!(record.evicted[0][1].as_str(), "22");
    assert_eq!(down.cell(0, 1).unwrap(), &Cell::default());
    assert_eq!(down.cell(1, 1).unwrap().as_str(), "01");
    assert_eq!(down.cell(2, 2).unwrap().as_str(), "12");
}

#[test]
fn wide_and_combining_cells_remain_distinct() {
    let mut grid = Grid::default();
    grid.resize(4, 1);
    grid.line(&[
        num(1),
        num(0),
        num(0),
        array(vec![
            array(vec![text("界"), num(1)]),
            array(vec![text("")]),
            array(vec![text("e\u{301}"), num(2)]),
        ]),
    ]);

    assert_eq!(grid.cell(0, 0).unwrap().as_str(), "界");
    assert_eq!(grid.cell(0, 1).unwrap().as_str(), "");
    assert_eq!(grid.cell(0, 2).unwrap().as_str(), "e\u{301}");
}

fn event(name: &str, params: Vec<Value>) -> Value {
    array(vec![text(name), array(params)])
}

fn map(entries: Vec<(&str, Value)>) -> Value {
    Value::Entries(entries.into_iter().map(|(k, v)| (text(k), v)).collect())
}

fn row_text(ui: &Ui, row: usize) -> String {
    (0..ui.grid.width)
        .map(|col| ui.grid.cell(row, col).unwrap().as_str().to_string())
        .collect::<Vec<_>>()
        .join("|")
}

fn line(row: i128, col: i128, cells: Vec<Value>) -> Value {
    event(
        "grid_line",
        vec![num(1), num(row), num(col), array(cells), Value::Boolean(false)],
    )
}

#[test]
fn growing_and_shrinking_changes_nothing() {
    let before = numbered_grid();
    let mut grid = numbered_grid();
    grid.resize(9, 5);
    assert_eq!(grid.cell(2, 3).unwrap().as_str(), "23");
    assert_eq!(grid.cell(2, 4).unwrap(), &Cell::default());
    assert_eq!(grid.cell(4, 8).unwrap(), &Cell::default());
    assert_eq!(grid.cell(5, 0), None);
    grid.resize(4, 3);
    assert_eq!(grid.cells, before.cells);
}

#[test]
fn shrinking_drops_what_no_longer_fits() {
    let mut grid = numbered_grid();
    grid.resize(2, 2);
    let texts: Vec<&str> = grid.cells.iter().map(|cell| cell.as_str()).collect();
    assert_eq!(texts, vec!["00", "01", "10", "11"]);
    grid.resize(0, 0);
    assert!(grid.cells.is_empty());
}

#[test]
fn scrolling_stays_in_its_region_and_loses_nothing() {
    let mut grid = numbered_grid();
    let record = grid
        .scroll(&[num(1), num(1), num(9), num(0), num(9), num(1), num(0)])
        .unwrap();
    assert_eq!((record.top, record.bottom, record.left, record.right), (1, 3, 0, 4));
    assert_eq!(record.rows, 1);
    assert_eq!(grid.cell(0, 2).unwrap().as_str(), "02");
    assert_eq!(grid.cell(1, 2).unwrap().as_str(), "22");
    assert_eq!(grid.cell(2, 2).unwrap(), &Cell::default());
    assert_eq!(record.evicted[0][2].as_str(), "12");
}

#[test]
fn a_scroll_further_than_its_region_evicts_it_all() {
    let mut grid = numbered_grid();
    let record = grid
        .scroll(&[num(1), num(0), num(3), num(0), num(4), num(-40), num(0)])
        .unwrap();
    assert_eq!(record.rows, -40);
    assert_eq!(record.evicted.len(), 3);
    assert_eq!(record.evicted[0][0].as_str(), "00");
    assert_eq!(record.evicted[2][3].as_str(), "23");
    assert!(grid.cells.iter().all(|cell| *cell == Cell::default()));
}

#[test]
fn two_scrolls_the_same_way_amount_to_one() {
    let region = |rows: i128| vec![num(1), num(0), num(3), num(1), num(3), num(rows), num(0)];
    let mut twice = numbered_grid();
    let first = twice.scroll(&region(1)).unwrap();
    let second = twice.scroll(&region(1)).unwrap();
    let mut once = numbered_grid();
    let both = once.scroll(&region(2)).unwrap();
    assert_eq!(twice.cells, once.cells);
    let mut evicted = first.evicted;
    evicted.extend(second.evicted);
    assert_eq!(evicted, both.evicted);
}

#[test]
fn empty_regions_do_not_scroll() {
    for params in [
        vec![num(1), num(3), num(3), num(0), num(4), num(1), num(0)],
        vec![num(1), num(0), num(3), num(4), num(4), num(1), num(0)],
        vec![num(1), num(0), num(3), num(0), num(4), num(0), num(0)],
        vec![num(1), num(0), num(3), num(0), num(4), num(1), num(2)],
        vec![num(1), num(0), num(3), num(0), num(4), num(1)],
        vec![num(1), num(-1), num(3), num(0), num(4), num(1), num(0)],
    ] {
        let mut grid = numbered_grid();
        assert_eq!(grid.scroll(&params), None);
        assert_eq!(grid.cells, numbered_grid().cells);
    }
}

#[test]
fn scrolls_by_columns_invalidate() {
    let mut ui = Ui::default();
    ui.apply_redraw(&[event("grid_resize", vec![num(1), num(4), num(3)])]);
    let sideways = event(
        "grid_scroll",
        vec![num(1), num(0), num(3), num(0), num(4), num(1), num(2)],
    );
    let result = ui.apply_redraw(&[sideways]);
    assert!(result.invalidated);
    assert!(result.scrolls.is_empty());
    let nowhere = event(
        "grid_scroll",
        vec![num(1), num(0), num(3), num(0), num(4), num(0), num(0)],
    );
    assert!(!ui.apply_redraw(&[nowhere]).invalidated);
}

#[test]
fn lines_keep_highlights_and_stop_at_the_edge() {
    let mut ui = Ui::default();
    ui.apply_redraw(&[event("grid_resize", vec![num(1), num(5), num(2)])]);
    ui.apply_redraw(&[line(
        1,
        2,
        vec![
            array(vec![text("x"), num(3)]),
            num(7),
            array(vec![num(1)]),
            array(vec![text("y")]),
            array(vec![text("z"), num(4), num(0)]),
            array(vec![text("w"), Value::Nil, num(u64::MAX as i128)]),
        ],
    )]);
    assert_eq!(row_text(&ui, 0), " | | | | ");
    assert_eq!(row_text(&ui, 1), " | |x|y|w");
    let highlights: Vec<u64> = ui.grid.cells[5..].iter().map(|cell| cell.highlight).collect();
    assert_eq!(highlights, vec![0, 0, 3, 3, 4]);
    let before = ui.grid.cells.len();
    ui.apply_redraw(&[line(2, 0, vec![array(vec![text("q")])])]);
    assert_eq!(ui.grid.cells.len(), before);
    assert_eq!(row_text(&ui, 1), " | |x|y|w");
}

#[test]
fn other_grids_and_unknown_events_change_nothing() {
    let mut ui = Ui::default();
    ui.apply_redraw(&[event("grid_resize", vec![num(1), num(2), num(1)])]);
    ui.apply_redraw(&[line(0, 0, vec![array(vec![text("a")])])]);
    let result = ui.apply_redraw(&[
        event("grid_resize", vec![num(2), num(9), num(9)]),
        event("grid_clear", vec![num(2)]),
        event("grid_destroy", vec![num(2)]),
        event("grid_cursor_goto", vec![num(2), num(5), num(5)]),
        event("win_viewport", vec![num(1)]),
        num(4),
        array(vec![]),
        array(vec![num(4)]),
        array(vec![text("grid_clear"), num(1)]),
    ]);
    assert!(!result.flushed && !result.invalidated && !result.title_changed);
    assert_eq!(row_text(&ui, 0), "a| ");
    assert_eq!((ui.grid.cursor_row, ui.grid.cursor_col), (0, 0));
}

#[test]
fn clearing_and_destroying_the_grid() {
    let mut ui = Ui::default();
    ui.apply_redraw(&[event("grid_resize", vec![num(1), num(2), num(1)])]);
    ui.apply_redraw(&[line(0, 0, vec![array(vec![text("a"), num(9)])])]);
    assert!(ui.apply_redraw(&[event("grid_clear", vec![num(1)])]).invalidated);
    assert_eq!(ui.grid.cells, vec![Cell::default(), Cell::default()]);
    assert!(ui.apply_redraw(&[event("grid_destroy", vec![num(1)])]).invalidated);
    assert_eq!((ui.grid.width, ui.grid.height), (0, 0));
}

#[test]
fn cursor_colours_modes_and_options_are_taken_over() {
    let mut ui = Ui::default();
    let result = ui.apply_redraw(&[
        event("grid_cursor_goto", vec![num(1), num(3), num(4)]),
        event("default_colors_set", vec![num(0x112233), num(-1), num(0x1_0000_0005)]),
        event("mode_change", vec![text("insert"), num(2)]),
        event("busy_start", vec![]),
        event("mouse_on", vec![]),
        event("option_set", vec![text("linespace"), num(-3)]),
    ]);
    assert!(result.invalidated);
    assert_eq!((ui.grid.cursor_row, ui.grid.cursor_col), (3, 4));
    assert_eq!(ui.default_foreground, 0x112233);
    assert_eq!(ui.default_background, 0x1e222a);
    assert_eq!(ui.default_special, 5);
    assert_eq!(ui.mode_index, 2);
    assert!(ui.busy && ui.mouse_enabled);
    assert_eq!(ui.linespace, -3);
    let again = ui.apply_redraw(&[
        event("option_set", vec![text("linespace"), num(-3)]),
        event("option_set", vec![text("emoji"), Value::Boolean(true)]),
        event("set_title", vec![text("Nuvi")]),
        event("busy_stop", vec![]),
        event("mouse_off", vec![]),
    ]);
    assert!(!again.invalidated && !again.title_changed);
    assert!(!ui.busy && !ui.mouse_enabled);
    assert!(
        ui.apply_redraw(&[event("option_set", vec![text("guifont"), text("Menlo:h12")])])
            .invalidated
    );
    assert_eq!(ui.guifont, "Menlo:h12");
}

#[test]
fn highlights_are_defined_and_blends_capped() {
    let mut ui = Ui::default();
    ui.apply_redraw(&[event(
        "hl_attr_define",
        vec![
            num(7),
            map(vec![
                ("foreground", num(0xff0000)),
                ("foreground", num(0x00ff00)),
                ("bold", Value::Boolean(true)),
                ("italic", num(1)),
                ("undercurl", Value::Boolean(true)),
                ("blend", num(250)),
            ]),
        ],
    )]);
    let highlight = ui.highlights[&7];
    assert_eq!(highlight.foreground, Some(0xff0000));
    assert_eq!(highlight.background, None);
    assert!(highlight.bold && !highlight.italic && highlight.undercurl);
    assert_eq!(highlight.blend, 100);
    ui.apply_redraw(&[event("hl_attr_define", vec![num(7), map(vec![("blend", num(99))])])]);
    assert_eq!(ui.highlights[&7].blend, 99);
    assert_eq!(ui.highlights[&7].foreground, None);
    ui.apply_redraw(&[event("hl_attr_define", vec![num(8), num(1)])]);
    assert!(!ui.highlights.contains_key(&8));
}

#[test]
fn the_table_of_cursors_is_never_empty() {
    let mut ui = Ui::default();
    ui.apply_redraw(&[event(
        "mode_info_set",
        vec![
            Value::Boolean(true),
            array(vec![
                map(vec![
                    ("cursor_shape", text("vertical")),
                    ("cell_percentage", num(25)),
                    ("blinkwait", num(700)),
                    ("blinkon", num(400)),
                    ("blinkoff", num(250)),
                    ("attr_id", num(5)),
                ]),
                num(1),
                map(vec![("cursor_shape", text("horizontal")), ("cell_percentage", num(120))]),
            ]),
        ],
    )]);
    assert_eq!(ui.cursor_modes.len(), 2);
    let mode = *ui.cursor_mode();
    assert_eq!(mode.shape, CursorShape::Vertical);
    assert_eq!(mode.cell_percentage, 25);
    assert_eq!((mode.blink_wait, mode.blink_on, mode.blink_off), (700, 400, 250));
    assert_eq!(mode.attr_id, 5);
    ui.apply_redraw(&[event("mode_change", vec![text("replace"), num(1)])]);
    assert_eq!(ui.cursor_mode().shape, CursorShape::Horizontal);
    assert_eq!(ui.cursor_mode().cell_percentage, 100);
    ui.apply_redraw(&[event("mode_change", vec![text("none"), num(40)])]);
    assert_eq!(ui.cursor_mode().shape, CursorShape::Vertical);

    ui.apply_redraw(&[event("mode_info_set", vec![Value::Boolean(true), array(vec![])])]);
    assert_eq!(ui.cursor_modes, vec![CursorMode::default()]);
    ui.apply_redraw(&[event("mode_info_set", vec![Value::Boolean(false)])]);
    assert_eq!(ui.cursor_modes, vec![CursorMode::default()]);
    assert_eq!(ui.mode_index, 0);
    assert!(!ui.cursor_style_enabled);
}

#[test]
fn batches_can_be_divided() {
    let events = || {
        vec![
            event("grid_resize", vec![num(1), num(3), num(2)]),
            line(0, 0, vec![array(vec![text("a"), num(1), num(3)])]),
            event("grid_scroll", vec![num(1), num(0), num(2), num(0), num(3), num(-1), num(0)]),
            event("set_title", vec![text("t")]),
            event("flush", vec![]),
        ]
    };
    let mut whole = Ui::default();
    let all = whole.apply_redraw(&events());
    for at in 0..5 {
        let mut parts = Ui::default();
        let first = parts.apply_redraw(&events()[..at]);
        let second = parts.apply_redraw(&events()[at..]);
        assert_eq!(parts.grid.cells, whole.grid.cells);
        assert_eq!(parts.title, whole.title);
        assert_eq!(first.flushed || second.flushed, all.flushed);
        assert_eq!(first.invalidated || second.invalidated, all.invalidated);
        assert_eq!(first.scrolls.len() + second.scrolls.len(), all.scrolls.len());
    }
}

#[test]
fn grids_that_are_too_large_are_told_apart() {
    let huge = i64::MAX as i128;
    assert!(!redraw_fits(&[event("grid_resize", vec![num(1), num(huge), num(huge)])]));
    assert!(redraw_fits(&[event("grid_resize", vec![num(2), num(huge), num(huge)])]));
    assert!(redraw_fits(&[event("grid_resize", vec![num(1), num(200), num(100)])]));
    assert!(redraw_fits(&[event("grid_clear", vec![num(1), num(huge), num(huge)])]));
    let second_call = array(vec![
        text("grid_resize"),
        array(vec![num(1), num(2), num(2)]),
        array(vec![num(1), num(huge), num(huge)]),
    ]);
    assert!(!redraw_fits(&[num(1), second_call]));
}

#[test]
fn cells_hold_and_copy_their_text() {
    let long = "e".to_string() + &"\u{301}".repeat(40);
    let cell = Cell::new(&long, 3);
    assert_eq!(cell.as_str(), long);
    assert_eq!(cell.clone(), cell);
    assert_eq!(cell.clone().as_str(), long);
    assert_eq!(Cell::default().as_str(), " ");
    assert_eq!(Cell::default().highlight, 0);
    assert_ne!(Cell::new("a", 0), Cell::new("b", 0));
}

fn taken_over(value: &nvim_rs::Value) -> Value {
    match value {
        nvim_rs::Value::Nil => Value::Nil,
        nvim_rs::Value::Boolean(flag) => Value::Boolean(*flag),
        nvim_rs::Value::Integer(n) => match (n.as_i64(), n.as_u64()) {
            (Some(n), _) => num(n as i128),
            (None, Some(n)) => num(n as i128),
            (None, None) => Value::Opaque,
        },
        nvim_rs::Value::String(string) => match string.as_str() {
            Some(string) => text(string),
            None => Value::Opaque,
        },
        nvim_rs::Value::Array(items) => array(items.iter().map(taken_over).collect()),
        nvim_rs::Value::Map(entries) => Value::Entries(
            entries
                .iter()
                .map(|(key, value)| (taken_over(key), taken_over(value)))
                .collect(),
        ),
        _ => Value::Opaque,
    }
}

#[test]
fn values_are_read_as_the_client_library_reads_them() {
    let values = vec![
        nvim_rs::Value::Nil,
        nvim_rs::Value::Boolean(true),
        nvim_rs::Value::Boolean(false),
        nvim_rs::Value::from(0u64),
        nvim_rs::Value::from(u64::MAX),
        nvim_rs::Value::from(i64::MIN),
        nvim_rs::Value::from(i64::MAX),
        nvim_rs::Value::from(i64::MAX as u64 + 1),
        nvim_rs::Value::from(-1i64),
        nvim_rs::Value::from(1.5f64),
        nvim_rs::Value::from("text"),
        nvim_rs::Value::from(""),
        nvim_rs::Value::Binary(vec![1, 2]),
        nvim_rs::Value::Array(vec![nvim_rs::Value::from(3)]),
        nvim_rs::Value::Map(vec![(nvim_rs::Value::from("k"), nvim_rs::Value::from(4))]),
    ];
    for theirs in &values {
        let ours = taken_over(theirs);
        assert_eq!(ours.as_bool(), theirs.as_bool());
        assert_eq!(ours.as_u64(), theirs.as_u64());
        assert_eq!(ours.as_i64(), theirs.as_i64());
        assert_eq!(ours.as_str(), theirs.as_str());
        assert_eq!(
            ours.as_array().map(|items| items.len()),
            theirs.as_array().map(|items| items.len())
        );
        assert_eq!(
            ours.as_map().map(|entries| entries.len()),
            theirs.as_map().map(|entries| entries.len())
        );
        let listed = [taken_over(theirs)];
        assert_eq!(usize_at(&listed, 0), theirs.as_u64().map(|n| n as usize));
        assert_eq!(
            int_at(&listed, 0),
            theirs.as_i64().or_else(|| theirs.as_u64().map(|n| n as i64))
        );
        assert_eq!(color_at(&listed, 0), theirs.as_u64().map(|n| n as u32));
        assert_eq!(usize_at(&listed, 1), None);
        assert_eq!(int_at(&listed, 1), None);
    }
}
