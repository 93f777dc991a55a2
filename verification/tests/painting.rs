use nuvi::grid::Cell;
use nuvi::grid::ScrollRecord;
use nuvi::paint::background_runs;
use nuvi::paint::frame;
use nuvi::paint::glyph_runs;
use nuvi::paint::powerline_path;
use nuvi::paint::powerline_separator;
use nuvi::paint::Across;
use nuvi::paint::BackgroundRun;
use nuvi::paint::CellRect;
use nuvi::paint::CursorPaint;
use nuvi::paint::Down;
use nuvi::paint::Glyph;
use nuvi::paint::PowerlineSeparator;
use nuvi::paint::ResolvedHighlight;
use nuvi::scrolling::absorb_scroll;
use nuvi::scrolling::absorb_scrolls;
use nuvi::scrolling::ScrollAnimation;
use nuvi::scrolling::ScrollStep;
use nuvi::ui::CursorMode;
use nuvi::ui::Highlight;
use nuvi::ui::Ui;

#[derive(Clone, Copy, Debug, PartialEq)]
struct Spring {
    position: f32,
    velocity: f32,
}

const AT_REST: Spring = Spring {
    position: 0.0,
    velocity: 0.0,
};

fn row(text: &str) -> Vec<Cell> {
    vec![Cell::new(text, 0)]
}

#[test]
fn recognizes_powerline_separators() {
    assert_eq!(
        powerline_separator("\u{e0b0}"),
        Some(PowerlineSeparator::HardRight)
    );
    assert_eq!(
        powerline_separator("\u{e0b1}"),
        Some(PowerlineSeparator::SoftRight)
    );
    assert_eq!(
        powerline_separator("\u{e0b2}"),
        Some(PowerlineSeparator::HardLeft)
    );
    assert_eq!(
        powerline_separator("\u{e0b3}"),
        Some(PowerlineSeparator::SoftLeft)
    );
    assert_eq!(
        powerline_separator("\u{e0ba}"),
        Some(PowerlineSeparator::AngledLower)
    );
    assert_eq!(
        powerline_separator("\u{e0bb}"),
        Some(PowerlineSeparator::AngledThin)
    );
    assert_eq!(
        powerline_separator("\u{e0bc}"),
        Some(PowerlineSeparator::AngledUpper)
    );
    assert_eq!(
        powerline_separator("\u{e0bd}"),
        Some(PowerlineSeparator::AngledThin)
    );
    assert_eq!(powerline_separator("x"), None);
}

#[test]
fn longer_texts_are_no_separators() {
    assert_eq!(powerline_separator(""), None);
    assert_eq!(powerline_separator("\u{e0b0}\u{e0b0}"), None);
    assert_eq!(powerline_separator("\u{e0b4}"), None);
}

#[test]
fn separators_have_outlines() {
    let hard = powerline_path(PowerlineSeparator::HardRight);
    assert!(!hard.stroked);
    assert_eq!(
        hard.points,
        vec![
            (Across::BeforeLeft, Down::Top),
            (Across::Right, Down::Middle),
            (Across::BeforeLeft, Down::Bottom),
        ]
    );
    let thin = powerline_path(PowerlineSeparator::AngledThin);
    assert!(thin.stroked);
    assert_eq!(
        thin.points,
        vec![(Across::Left, Down::Bottom), (Across::Right, Down::Top)]
    );
    let lower = powerline_path(PowerlineSeparator::AngledLower);
    assert!(!lower.stroked);
    assert_eq!(lower.points[0], (Across::BeyondRight, Down::Top));
    assert!(powerline_path(PowerlineSeparator::SoftLeft).stroked);
    assert!(powerline_path(PowerlineSeparator::SoftRight).stroked);
    assert!(!powerline_path(PowerlineSeparator::HardLeft).stroked);
    assert!(!powerline_path(PowerlineSeparator::AngledUpper).stroked);
}

#[test]
fn scroll_retarget_preserves_velocity_and_trailing_order() {
    let mut up = ScrollAnimation {
        top: 0,
        bottom: 10,
        left: 0,
        right: 1,
        direction: 1,
        spring: Spring {
            position: 1.0,
            velocity: -3.0,
        },
        trailing: vec![row("a")],
    };
    let next = ScrollRecord {
        top: 0,
        bottom: 10,
        left: 0,
        right: 1,
        rows: 1,
        evicted: vec![row("b")],
    };
    assert!(up.compatible(&next));
    let rows = up.absorb(next);
    up.spring.position += rows as f32;
    assert_eq!(up.spring.position, 2.0);
    assert_eq!(up.spring.velocity, -3.0);
    assert_eq!(up.trailing[0][0].as_str(), "a");
    assert_eq!(up.trailing[1][0].as_str(), "b");

    let mut down = ScrollAnimation {
        direction: -1,
        spring: Spring {
            position: -1.0,
            velocity: 3.0,
        },
        trailing: vec![row("b")],
        ..up
    };
    let rows = down.absorb(ScrollRecord {
        top: 0,
        bottom: 10,
        left: 0,
        right: 1,
        rows: -1,
        evicted: vec![row("a")],
    });
    down.spring.position += rows as f32;
    assert_eq!(down.spring.position, -2.0);
    assert_eq!(down.spring.velocity, 3.0);
    assert_eq!(down.trailing[0][0].as_str(), "a");
    assert_eq!(down.trailing[1][0].as_str(), "b");
}

fn scroll(rows: i64, bottom: usize) -> ScrollRecord {
    let count = (rows.unsigned_abs() as usize).min(bottom);
    ScrollRecord {
        top: 0,
        bottom,
        left: 0,
        right: 1,
        rows,
        evicted: (0..count).map(|n| row(&n.to_string())).collect(),
    }
}

#[test]
fn moves_begin_extend_and_end_animations() {
    let mut animation: Option<ScrollAnimation<Spring>> = None;
    assert_eq!(
        absorb_scroll(&mut animation, scroll(3, 20), AT_REST),
        ScrollStep::Started(3)
    );
    assert_eq!(
        absorb_scroll(&mut animation, scroll(5, 20), AT_REST),
        ScrollStep::Extended(5)
    );
    let current = animation.as_ref().unwrap();
    assert_eq!(current.trailing.len(), 8);
    assert_eq!(current.direction, 1);
    assert!(current.contains(0, 0) && current.contains(19, 0));
    assert!(!current.contains(20, 0) && !current.contains(0, 1));
    // Too many rows would trail.
    assert_eq!(
        absorb_scroll(&mut animation, scroll(1, 20), AT_REST),
        ScrollStep::Snapped
    );
    assert!(animation.is_none());
    // The other way.
    absorb_scroll(&mut animation, scroll(2, 20), AT_REST);
    assert_eq!(
        absorb_scroll(&mut animation, scroll(-2, 20), AT_REST),
        ScrollStep::Snapped
    );
    assert!(animation.is_none());
    // Too far, as far as the region is high, and not at all.
    for (rows, bottom) in [(9, 20), (4, 4), (0, 20), (i64::MIN, 20)] {
        let mut record = scroll(0, bottom);
        record.rows = rows;
        record.evicted = (0..(rows.unsigned_abs().min(bottom as u64)))
            .map(|_| row("x"))
            .collect();
        assert_eq!(
            absorb_scroll(&mut animation, record, AT_REST),
            ScrollStep::Snapped
        );
    }
}

#[test]
fn lists_of_moves_tell_how_far_the_spring_is_stretched() {
    let mut animation: Option<ScrollAnimation<Spring>> = None;
    let absorbed = absorb_scrolls(
        &mut animation,
        vec![scroll(1, 20), scroll(2, 20), scroll(-1, 20), scroll(-3, 20), scroll(-2, 20)],
        AT_REST,
    );
    assert!(absorbed.snapped);
    assert_eq!(absorbed.stretches, vec![-3, -2]);
    assert_eq!(animation.as_ref().unwrap().trailing.len(), 5);
    let absorbed = absorb_scrolls(&mut animation, vec![scroll(-1, 20)], AT_REST);
    assert!(!absorbed.snapped);
    assert_eq!(absorbed.stretches, vec![-1]);
}

fn look(background: u32) -> ResolvedHighlight {
    ResolvedHighlight {
        foreground: 1,
        background,
        special: 1,
        bold: false,
        italic: false,
        underline: false,
        undercurl: false,
        strikethrough: false,
        dim: false,
        blend: 0,
    }
}

#[test]
fn highlights_are_resolved() {
    let mut ui = Ui::default();
    ui.highlights.insert(
        3,
        Highlight {
            foreground: Some(0x111111),
            reverse: true,
            underdotted: true,
            dim: true,
            blend: 30,
            ..Highlight::default()
        },
    );
    let resolved = ui.resolved(3);
    assert_eq!(resolved.foreground, 0x1e222a);
    assert_eq!(resolved.background, 0x111111);
    assert_eq!(resolved.special, 0xd8dee9);
    assert!(resolved.underline && resolved.dim && !resolved.undercurl);
    assert_eq!(resolved.blend, 30);
    let plain = ui.resolved(99);
    assert_eq!(plain.foreground, 0xd8dee9);
    assert_eq!(plain.background, 0x1e222a);
    assert!(!plain.underline);
}

#[test]
fn equal_backgrounds_are_drawn_together() {
    let mut see_through = look(2);
    see_through.blend = 40;
    let runs = background_runs(&[look(1), look(1), look(2), see_through, look(1)]);
    let run = |start, end, color, blend| BackgroundRun {
        start,
        end,
        color,
        blend,
    };
    assert_eq!(
        runs,
        vec![run(0, 2, 1, 0), run(2, 3, 2, 0), run(3, 4, 2, 40), run(4, 5, 1, 0)]
    );
    assert!(background_runs(&[]).is_empty());
}

#[test]
fn text_is_drawn_in_runs_and_separators_apart() {
    let mut under = look(1);
    under.underline = true;
    let cells: Vec<Cell> = ["a", "b", "\u{e0b0}", " ", " ", "c", " "]
        .iter()
        .map(|text| Cell::new(text, 0))
        .collect();
    let looks = vec![look(1), look(1), look(1), look(1), under, look(1), look(2)];
    let glyphs = glyph_runs(&cells, &looks);
    assert_eq!(
        glyphs,
        vec![
            Glyph::Text {
                start: 0,
                text: "ab".into(),
                highlight: look(1),
            },
            Glyph::Separator {
                col: 2,
                separator: PowerlineSeparator::HardRight,
                foreground: 1,
                dim: false,
            },
            Glyph::Text {
                start: 4,
                text: " ".into(),
                highlight: under,
            },
            Glyph::Text {
                start: 5,
                text: "c".into(),
                highlight: look(1),
            },
        ]
    );
    let empty = [Cell::new("", 0)];
    assert!(glyph_runs(&empty, &[under]).is_empty());
}

#[test]
fn everything_seen_is_drawn() {
    let mut struck = look(1);
    struck.strikethrough = true;
    let texts = [" ", "x", " ", "\u{e0b2}", "", " ", " ", "y"];
    let cells: Vec<Cell> = texts.iter().map(|text| Cell::new(text, 0)).collect();
    let looks = vec![
        look(1),
        look(1),
        look(2),
        look(1),
        look(1),
        look(1),
        struck,
        look(1),
    ];
    let drawn: Vec<(usize, String)> = glyph_runs(&cells, &looks)
        .iter()
        .map(|glyph| match glyph {
            Glyph::Separator { col, .. } => (*col, "separator".to_string()),
            Glyph::Text { start, text, .. } => (*start, text.clone()),
        })
        .collect();
    assert_eq!(
        drawn,
        vec![
            (0, " x".to_string()),
            (3, "separator".to_string()),
            (6, " ".to_string()),
            (7, "y".to_string()),
        ]
    );
}

fn lettered(width: usize, height: usize) -> Ui {
    let mut ui = Ui::default();
    ui.grid.resize(width, height);
    for at in 0..width * height {
        ui.grid.cells[at] = Cell::new(&format!("{}", at % 10), 0);
    }
    ui
}

fn drawn_text(glyphs: &[Glyph]) -> String {
    let mut all = String::new();
    for glyph in glyphs {
        if let Glyph::Text { text, .. } = glyph {
            all.push_str(text);
        }
    }
    all
}

#[test]
fn every_cell_is_drawn_once() {
    let ui = lettered(4, 3);
    let still: Option<ScrollAnimation<Spring>> = None;
    let drawn = frame(&ui, &still, true, 2, 3);
    assert!(drawn.scroll.is_none());
    let strips: Vec<(i128, usize, String)> = drawn
        .still
        .iter()
        .map(|strip| (strip.row, strip.start_col, drawn_text(&strip.glyphs)))
        .collect();
    assert_eq!(strips, vec![(0, 0, "012".to_string()), (1, 0, "456".to_string())]);
    assert_eq!(
        drawn.cursor,
        Some(CursorPaint {
            color: 0xd8dee9,
            masked: false,
        })
    );
}

#[test]
fn moving_cells_are_drawn_apart_with_those_on_their_way_out() {
    let mut ui = lettered(4, 4);
    ui.grid.cursor_row = 2;
    ui.grid.cursor_col = 1;
    let up = Some(ScrollAnimation {
        top: 1,
        bottom: 4,
        left: 1,
        right: 3,
        direction: 1,
        spring: AT_REST,
        trailing: vec![
            vec![Cell::new("p", 0), Cell::new("q", 0)],
            vec![Cell::new("r", 0), Cell::new("s", 0)],
        ],
    });
    let drawn = frame(&ui, &up, true, 3, 9);
    let layer = drawn.scroll.as_ref().unwrap();
    assert_eq!(
        layer.mask,
        CellRect {
            top: 1,
            bottom: 3,
            left: 1,
            right: 3,
        }
    );
    let moving: Vec<(i128, usize, String)> = layer
        .strips
        .iter()
        .map(|strip| (strip.row, strip.start_col, drawn_text(&strip.glyphs)))
        .collect();
    assert_eq!(
        moving,
        vec![
            (1, 1, "56".to_string()),
            (2, 1, "90".to_string()),
            (-1, 1, "pq".to_string()),
            (0, 1, "rs".to_string()),
        ]
    );
    let still: Vec<(i128, usize, String)> = drawn
        .still
        .iter()
        .map(|strip| (strip.row, strip.start_col, drawn_text(&strip.glyphs)))
        .collect();
    assert_eq!(
        still,
        vec![
            (0, 0, "0123".to_string()),
            (1, 0, "4".to_string()),
            (1, 3, "7".to_string()),
            (2, 0, "8".to_string()),
            (2, 3, "1".to_string()),
        ]
    );
    assert!(drawn.cursor.unwrap().masked);

    let down = up.map(|animation| ScrollAnimation {
        direction: -1,
        ..animation
    });
    let drawn = frame(&ui, &down, false, 4, 4);
    let layer = drawn.scroll.as_ref().unwrap();
    let trailing: Vec<i128> = layer.strips[3..].iter().map(|strip| strip.row).collect();
    assert_eq!(trailing, vec![4, 5]);
    assert_eq!(drawn.cursor, None);
    // Out of view altogether.
    assert!(frame(&ui, &down, true, 1, 4).scroll.is_none());
    assert!(frame(&ui, &down, true, 4, 1).scroll.is_none());
}

#[test]
fn the_cursor_takes_the_background_of_its_highlight() {
    let mut ui = lettered(2, 2);
    ui.highlights.insert(
        4,
        Highlight {
            background: Some(0xabcdef),
            ..Highlight::default()
        },
    );
    ui.cursor_modes = vec![CursorMode {
        attr_id: 4,
        ..CursorMode::default()
    }];
    assert_eq!(ui.cursor_color(), 0xabcdef);
    ui.busy = true;
    let none: Option<ScrollAnimation<Spring>> = None;
    assert_eq!(frame(&ui, &none, true, 2, 2).cursor, None);
    ui.busy = false;
    assert_eq!(frame(&ui, &none, true, 2, 2).cursor.unwrap().color, 0xabcdef);
    ui.grid.cursor_col = 2;
    assert_eq!(frame(&ui, &none, true, 2, 2).cursor, None);
}
