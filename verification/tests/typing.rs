use nuvi::fonts::grid_font;
use nuvi::fonts::installed_font_families;
use nuvi::fonts::parse_guifont;
use nuvi::fonts::settle_font;
use nuvi::fonts::FontDefaults;
use nuvi::fonts::FontOption;
use nuvi::fonts::ParsedFont;
use nuvi::keys::encode_key;
use nuvi::keys::modifiers;
use nuvi::keys::mouse_button;
use nuvi::keys::Keystroke;
use nuvi::keys::Modifiers;
use nuvi::keys::MouseButton;
use nuvi::text::escape;
use nuvi::text::is_blank;
use nuvi::text::is_whitespace;
use nuvi::text::join;
use nuvi::text::lines;
use nuvi::text::same_ignoring_case;
use nuvi::text::same_text;
use nuvi::text::trim;
use nuvi::text::utf16_len;

fn read_numbers(options: Vec<FontOption<String>>) -> Vec<FontOption<Option<f32>>> {
    options
        .into_iter()
        .map(|option| match option {
            FontOption::Height(text) => FontOption::Height(text.parse().ok()),
            FontOption::Width(text) => FontOption::Width(text.parse().ok()),
            FontOption::Weight(text) => FontOption::Weight(
                text.parse::<f32>().ok().map(|weight| weight.clamp(100.0, 900.0)),
            ),
            FontOption::Bold => FontOption::Bold,
            FontOption::Italic => FontOption::Italic,
        })
        .collect()
}

fn parsed(value: &str) -> ParsedFont<f32> {
    let request = parse_guifont(value);
    settle_font(
        request.families,
        &read_numbers(request.options),
        FontDefaults {
            size: 15.0,
            width: 0.0,
            weight: 400.0,
            bold: 700.0,
        },
    )
}

#[test]
fn parses_neovim_guifont() {
    assert_eq!(
        parsed(r"TX-02-Variable,FiraCode\ Nerd\ Font:h17:w-1.4:W450:i"),
        ParsedFont {
            families: vec!["TX-02-Variable".into(), "FiraCode Nerd Font".into()],
            size: 17.0,
            width: -1.4,
            weight: 450.0,
            italic: true,
        }
    );
}

#[test]
fn promotes_the_first_installed_guifont() {
    assert_eq!(
        installed_font_families(
            vec!["SF Mono".into(), "Menlo".into(), "monospace".into()],
            &["Menlo".into(), "Monaco".into()],
        ),
        vec!["Menlo"]
    );
}

#[test]
fn guifont_edge_cases() {
    let plain = |families: Vec<&str>| ParsedFont {
        families: families.into_iter().map(String::from).collect(),
        size: 15.0,
        width: 0.0,
        weight: 400.0,
        italic: false,
    };
    assert_eq!(parsed(""), plain(vec!["Menlo"]));
    assert_eq!(parsed(",,"), plain(vec!["Menlo"]));
    assert_eq!(parsed("A_B,\\_C\\"), plain(vec!["A B", "\\ C\\"]));
    assert_eq!(
        parsed(":h20,Menlo:hx:h:b:W1:W2000:h9"),
        ParsedFont {
            families: vec!["Menlo".into()],
            size: 9.0,
            width: 0.0,
            weight: 900.0,
            italic: false,
        }
    );
    assert_eq!(parsed("Menlo:W450:b").weight, 700.0);
    assert_eq!(parsed("Menlo:b:W1").weight, 100.0);
    assert_eq!(parsed("Menlo:bb:ii"), plain(vec!["Menlo"]));
}

#[test]
fn fonts_are_found_whatever_their_case() {
    assert_eq!(
        installed_font_families(vec!["sf MONO".into(), "X".into()], &["SF Mono".into()]),
        vec!["sf MONO"]
    );
    assert_eq!(
        installed_font_families(vec!["Ä".into()], &["ä".into()]),
        vec!["Menlo"]
    );
    assert_eq!(installed_font_families(vec![], &[]), vec!["Menlo"]);
}

#[test]
fn the_first_family_is_drawn_with() {
    let font = grid_font(&["A".into(), "B".into(), "C".into()]);
    assert_eq!(font.family, "A");
    assert_eq!(font.fallbacks, vec!["B", "C"]);
    let font = grid_font(&[]);
    assert_eq!(font.family, "Menlo");
    assert!(font.fallbacks.is_empty());
}

#[test]
fn raw_chords_and_text_take_separate_paths() {
    let plain = Keystroke {
        key: "a".into(),
        key_char: Some("a".into()),
        modifiers: Modifiers::none(),
    };
    let option = Keystroke {
        key: "s".into(),
        key_char: Some("ß".into()),
        modifiers: Modifiers {
            alt: true,
            ..Modifiers::none()
        },
    };
    let enter = Keystroke {
        key: "enter".into(),
        key_char: Some("\n".into()),
        modifiers: Modifiers::none(),
    };

    assert_eq!(encode_key(&plain), None);
    assert_eq!(
        encode_key(&Keystroke {
            key: "f".into(),
            key_char: Some("f".into()),
            modifiers: Modifiers::none(),
        }),
        None
    );
    assert_eq!(encode_key(&option).as_deref(), Some("<M-s>"));
    assert_eq!(encode_key(&enter).as_deref(), Some("<CR>"));
}

fn press(key: &str, held: Modifiers) -> Option<String> {
    encode_key(&Keystroke {
        key: key.into(),
        key_char: None,
        modifiers: held,
    })
}

#[test]
fn keys_have_names() {
    let none = Modifiers::none();
    let names = [
        ("enter", "<CR>"),
        ("backspace", "<BS>"),
        ("delete", "<Del>"),
        ("escape", "<Esc>"),
        ("tab", "<Tab>"),
        ("up", "<Up>"),
        ("down", "<Down>"),
        ("left", "<Left>"),
        ("right", "<Right>"),
        ("pageup", "<PageUp>"),
        ("pagedown", "<PageDown>"),
        ("home", "<Home>"),
        ("end", "<End>"),
        ("insert", "<Insert>"),
        ("f1", "<f1>"),
        ("f12", "<f12>"),
    ];
    for (key, name) in names {
        assert_eq!(press(key, none).as_deref(), Some(name));
    }
    assert_eq!(press("f1x", none), None);
    assert_eq!(press("space", none), None);
    let all = Modifiers {
        control: true,
        alt: true,
        shift: true,
        platform: true,
        function: true,
    };
    assert_eq!(press("up", all).as_deref(), Some("<C-M-S-D-Up>"));
    assert_eq!(press("x", all).as_deref(), Some("<C-M-S-D-x>"));
    let shift = Modifiers { shift: true, ..none };
    assert_eq!(press("x", shift), None);
    assert_eq!(press("tab", shift).as_deref(), Some("<S-Tab>"));
    assert_eq!(modifiers(all), "CASD");
    assert_eq!(modifiers(none), "");
    assert_eq!(modifiers(shift), "S");
}

#[test]
fn mouse_buttons_have_names() {
    assert_eq!(mouse_button(MouseButton::Left), "left");
    assert_eq!(mouse_button(MouseButton::Right), "right");
    assert_eq!(mouse_button(MouseButton::Middle), "middle");
    assert_eq!(mouse_button(MouseButton::Navigate), "x1");
}

#[test]
fn typed_text_arrives_as_it_is() {
    assert_eq!(escape("a<b"), "a<LT>b");
    assert_eq!(escape("<LT>"), "<LT>LT>");
    assert_eq!(escape("ß→\n"), "ß→\n");
    assert_eq!(escape(""), "");
    for text in ["a<b", "<LT>", "<<>>", "plain", "<CR>"] {
        assert_eq!(escape(text), text.replace('<', "<LT>"));
        assert_eq!(escape(text).replace("<LT>", "<"), text);
    }
}

#[test]
fn white_space_is_that_of_unicode() {
    for c in '\0'..=char::MAX {
        assert_eq!(is_whitespace(c), c.is_whitespace());
    }
}

#[test]
fn texts_are_trimmed_and_cut_into_lines() {
    for text in [
        "", " ", "a", " a ", "\u{2003}a b\t", "\n\n", "a\nb", "a\r\nb\r\n", "a\rb", "\r\n", "a\n\nb",
        "x\r", "\u{85}y\u{3000}",
    ] {
        assert_eq!(trim(text), text.trim());
        assert_eq!(is_blank(text), text.chars().all(char::is_whitespace));
        let expected: Vec<&str> = text.lines().collect();
        assert_eq!(lines(text), expected);
        assert_eq!(utf16_len(text), text.encode_utf16().count());
    }
    assert_eq!(utf16_len("a😀é"), 4);
}

#[test]
fn lines_come_back_as_they_were_joined() {
    let parts: Vec<String> = vec!["/one".into(), "".into(), "/two three".into()];
    let joined = join(&parts, "\n");
    assert_eq!(joined, "/one\n\n/two three");
    assert_eq!(lines(&joined), parts);
    assert_eq!(join(&[], "\n"), "");
    assert_eq!(join(&["a".into(), "b".into()], ", "), "a, b");
}

#[test]
fn texts_are_compared() {
    assert!(same_text("héllo", "héllo"));
    assert!(!same_text("a", "ab"));
    assert!(!same_text("a", "b"));
    assert!(same_ignoring_case("aBc-Ä", "AbC-Ä"));
    assert!(!same_ignoring_case("ä", "Ä"));
    assert!(!same_ignoring_case("a", "ab"));
    assert!(!same_ignoring_case("@", "`"));
}
