//! Key presses and mouse buttons in the notation that Neovim takes.

use crate::text;
use crate::text::same_text;
use vstd::prelude::*;
use vstd::string::*;

verus! {

/// The modifier keys that are held.
#[derive(Clone, Copy, Debug, PartialEq, Eq)]
pub struct Modifiers {
    pub control: bool,
    pub alt: bool,
    pub shift: bool,
    /// The command key.
    pub platform: bool,
    pub function: bool,
}

impl Modifiers {
    /// No key is held.
    pub fn none() -> (modifiers: Self)
        ensures
            modifiers == (Modifiers {
                control: false,
                alt: false,
                shift: false,
                platform: false,
                function: false,
            }),
    {
        Modifiers { control: false, alt: false, shift: false, platform: false, function: false }
    }
}

/// A key press.
#[derive(Debug, PartialEq, Eq)]
pub struct Keystroke {
    /// The name of the key.
    pub key: String,
    /// The text that it types.
    pub key_char: Option<String>,
    pub modifiers: Modifiers,
}

/// A button of the mouse.
#[derive(Clone, Copy, Debug, PartialEq, Eq)]
pub enum MouseButton {
    Left,
    Right,
    Middle,
    /// One of the buttons that go back and forward.
    Navigate,
}

/// Whether a character is a decimal digit.
pub open spec fn is_digit(c: char) -> bool {
    '0' <= c <= '9'
}

/// Whether a key is a function key: an `f` and a number.
pub open spec fn is_function_key(key: Seq<char>) -> bool {
    &&& key.len() > 1
    &&& key[0] == 'f'
    &&& forall|i: int| 1 <= i < key.len() ==> is_digit(#[trigger] key[i])
}

/// Neovim's name for a key that types no text.
pub open spec fn special_name(key: Seq<char>) -> Option<Seq<char>> {
    if key == "enter"@ {
        Some("CR"@)
    } else if key == "backspace"@ {
        Some("BS"@)
    } else if key == "delete"@ {
        Some("Del"@)
    } else if key == "escape"@ {
        Some("Esc"@)
    } else if key == "tab"@ {
        Some("Tab"@)
    } else if key == "up"@ {
        Some("Up"@)
    } else if key == "down"@ {
        Some("Down"@)
    } else if key == "left"@ {
        Some("Left"@)
    } else if key == "right"@ {
        Some("Right"@)
    } else if key == "pageup"@ {
        Some("PageUp"@)
    } else if key == "pagedown"@ {
        Some("PageDown"@)
    } else if key == "home"@ {
        Some("Home"@)
    } else if key == "end"@ {
        Some("End"@)
    } else if key == "insert"@ {
        Some("Insert"@)
    } else if is_function_key(key) {
        Some(key)
    } else {
        None
    }
}

/// A list with one item more, if a condition holds.
pub open spec fn push_if<T>(items: Seq<T>, added: bool, item: T) -> Seq<T> {
    if added {
        items.push(item)
    } else {
        items
    }
}

/// The letters that stand for the modifiers before a key's name.
pub open spec fn chord_letters(held: Modifiers) -> Seq<Seq<char>> {
    let control = push_if(Seq::<Seq<char>>::empty(), held.control, "C"@);
    let alt = push_if(control, held.alt, "M"@);
    let shift = push_if(alt, held.shift, "S"@);
    push_if(shift, held.platform, "D"@)
}

/// A key press in Neovim's notation, such as `<C-S-Up>`. A press that types text
/// has none: the text is sent instead.
pub open spec fn chord_of(key: Seq<char>, held: Modifiers) -> Option<Seq<char>> {
    let special = special_name(key);
    if special is None && !held.control && !held.alt && !held.platform {
        None
    } else {
        let name = match special {
            Some(name) => name,
            None => key,
        };
        Some("<"@ + text::joined(chord_letters(held).push(name), "-"@) + ">"@)
    }
}

fn function_key(key: &str) -> (function: bool)
    ensures
        function == is_function_key(key@),
{
    let chars = text::chars_of(key);
    if chars.len() < 2 || chars[0] != 'f' {
        return false;
    }
    let mut at: usize = 1;
    while at < chars.len()
        invariant
            chars@ == key@,
            1 <= at <= chars@.len(),
            forall|i: int| 1 <= i < at ==> is_digit(#[trigger] key@[i]),
        decreases chars@.len() - at,
    {
        if !('0' <= chars[at] && chars[at] <= '9') {
            assert(!is_digit(key@[at as int]));
            return false;
        }
        at += 1;
    }
    true
}

fn special_key(key: &str) -> (name: Option<&str>)
    ensures
        match name {
            Some(found) => special_name(key@) == Some(found@),
            None => special_name(key@) is None,
        },
{
    if same_text(key, "enter") {
        Some("CR")
    } else if same_text(key, "backspace") {
        Some("BS")
    } else if same_text(key, "delete") {
        Some("Del")
    } else if same_text(key, "escape") {
        Some("Esc")
    } else if same_text(key, "tab") {
        Some("Tab")
    } else if same_text(key, "up") {
        Some("Up")
    } else if same_text(key, "down") {
        Some("Down")
    } else if same_text(key, "left") {
        Some("Left")
    } else if same_text(key, "right") {
        Some("Right")
    } else if same_text(key, "pageup") {
        Some("PageUp")
    } else if same_text(key, "pagedown") {
        Some("PageDown")
    } else if same_text(key, "home") {
        Some("Home")
    } else if same_text(key, "end") {
        Some("End")
    } else if same_text(key, "insert") {
        Some("Insert")
    } else if function_key(key) {
        Some(key)
    } else {
        None
    }
}

fn push_part(parts: &mut Vec<String>, added: bool, part: &str)
    ensures
        text::strings_view(final(parts)@) == push_if(
            text::strings_view(old(parts)@),
            added,
            part@,
        ),
{
    let ghost before = text::strings_view(parts@);
    if added {
        parts.push(part.to_owned());
        assert(text::strings_view(parts@) =~= before.push(part@));
    }
}

/// Writes a key press in Neovim's notation. There is nothing to write where the
/// press types text.
pub fn encode_key(key: &Keystroke) -> (chord: Option<String>)
    ensures
        match chord {
            Some(written) => chord_of(key.key@, key.modifiers) == Some(written@),
            None => chord_of(key.key@, key.modifiers) is None,
        },
{
    let special = special_key(key.key.as_str());
    let held: Modifiers = key.modifiers;
    let modified = held.control || held.alt || held.platform;
    if special.is_none() && !modified {
        return None;
    }
    let mut parts: Vec<String> = Vec::new();
    assert(text::strings_view(parts@) =~= Seq::empty());
    push_part(&mut parts, held.control, "C");
    push_part(&mut parts, held.alt, "M");
    push_part(&mut parts, held.shift, "S");
    push_part(&mut parts, held.platform, "D");
    let name: &str = match special {
        Some(name) => name,
        None => key.key.as_str(),
    };
    push_part(&mut parts, true, name);
    let mut chord = "<".to_owned();
    let inner = text::join(parts.as_slice(), "-");
    chord.append(inner.as_str());
    chord.append(">");
    Some(chord)
}

/// The letters that stand for the modifiers of a mouse action.
pub open spec fn mouse_letters(held: Modifiers) -> Seq<char> {
    let control = push_if(Seq::<char>::empty(), held.control, 'C');
    let alt = push_if(control, held.alt, 'A');
    let shift = push_if(alt, held.shift, 'S');
    push_if(shift, held.platform, 'D')
}

/// Writes the modifiers of a mouse action.
pub fn modifiers(held: Modifiers) -> (letters: String)
    ensures
        letters@ == mouse_letters(held),
{
    let mut letters = String::new();
    if held.control {
        letters.push('C');
    }
    if held.alt {
        letters.push('A');
    }
    if held.shift {
        letters.push('S');
    }
    if held.platform {
        letters.push('D');
    }
    letters
}

/// Neovim's name for a button of the mouse.
pub open spec fn button_name(button: MouseButton) -> Seq<char> {
    match button {
        MouseButton::Left => "left"@,
        MouseButton::Right => "right"@,
        MouseButton::Middle => "middle"@,
        MouseButton::Navigate => "x1"@,
    }
}

/// Names a button of the mouse.
pub fn mouse_button(button: MouseButton) -> (name: &'static str)
    ensures
        name@ == button_name(button),
{
    match button {
        MouseButton::Left => "left",
        MouseButton::Right => "right",
        MouseButton::Middle => "middle",
        MouseButton::Navigate => "x1",
    }
}

/// A key press is sent as a chord or as the text that it types, never as both:
/// without a modifier only a key that has a name of its own is a chord, and a
/// modifier other than shift always makes one.
pub proof fn law_chords_and_text_are_apart(key: Seq<char>, held: Modifiers)
    ensures
        chord_of(key, held) is Some <==> special_name(key) is Some || held.control || held.alt
            || held.platform,
{
}

/// A modifier's letter and a hyphen, if the modifier is held.
pub open spec fn held_letter(held: bool, letter: char) -> Seq<char> {
    if held {
        seq![letter, '-']
    } else {
        Seq::empty()
    }
}

/// Texts each followed by a hyphen.
spec fn hyphened(parts: Seq<Seq<char>>) -> Seq<char>
    decreases parts.len(),
{
    if parts.len() == 0 {
        Seq::empty()
    } else {
        hyphened(parts.drop_last()) + parts.last() + seq!['-']
    }
}

proof fn lemma_joined_is_hyphened(parts: Seq<Seq<char>>, name: Seq<char>)
    ensures
        text::joined(parts.push(name), "-"@) == hyphened(parts) + name,
    decreases parts.len(),
{
    reveal_strlit("-");
    assert("-"@ =~= seq!['-']);
    let all = parts.push(name);
    assert(all.drop_last() =~= parts);
    if parts.len() > 0 {
        let front = parts.drop_last();
        lemma_joined_is_hyphened(front, parts.last());
        assert(front.push(parts.last()) =~= parts);
        assert(text::joined(all, "-"@) =~= hyphened(parts) + name);
    } else {
        assert(text::joined(all, "-"@) =~= hyphened(parts) + name);
    }
}

proof fn lemma_hyphened_push(parts: Seq<Seq<char>>, held: bool, part: Seq<char>, letter: char)
    requires
        part == seq![letter],
    ensures
        hyphened(push_if(parts, held, part)) == hyphened(parts) + held_letter(held, letter),
{
    if held {
        assert(parts.push(part).drop_last() =~= parts);
    }
    assert(hyphened(push_if(parts, held, part)) =~= hyphened(parts) + held_letter(held, letter));
}

/// A chord is written between angle brackets: the letters of the modifiers that are held,
/// control, alt, shift and command in that order and each with a hyphen, and the name of the
/// key.
pub proof fn law_chords_name_modifiers_and_key(key: Seq<char>, held: Modifiers)
    requires
        chord_of(key, held) is Some,
    ensures
        chord_of(key, held)->0 == seq!['<'] + held_letter(held.control, 'C') + held_letter(
            held.alt,
            'M',
        ) + held_letter(held.shift, 'S') + held_letter(held.platform, 'D') + (match special_name(
            key,
        ) {
            Some(name) => name,
            None => key,
        }) + seq!['>'],
{
    reveal_strlit("<");
    reveal_strlit(">");
    reveal_strlit("C");
    reveal_strlit("M");
    reveal_strlit("S");
    reveal_strlit("D");
    assert("<"@ =~= seq!['<']);
    assert(">"@ =~= seq!['>']);
    assert("C"@ =~= seq!['C']);
    assert("M"@ =~= seq!['M']);
    assert("S"@ =~= seq!['S']);
    assert("D"@ =~= seq!['D']);
    let none = Seq::<Seq<char>>::empty();
    let control = push_if(none, held.control, "C"@);
    let alt = push_if(control, held.alt, "M"@);
    let shift = push_if(alt, held.shift, "S"@);
    lemma_hyphened_push(none, held.control, "C"@, 'C');
    lemma_hyphened_push(control, held.alt, "M"@, 'M');
    lemma_hyphened_push(alt, held.shift, "S"@, 'S');
    lemma_hyphened_push(shift, held.platform, "D"@, 'D');
    let name = match special_name(key) {
        Some(name) => name,
        None => key,
    };
    lemma_joined_is_hyphened(chord_letters(held), name);
    assert(hyphened(none) =~= Seq::empty());
    assert(chord_of(key, held)->0 =~= seq!['<'] + held_letter(held.control, 'C') + held_letter(
        held.alt,
        'M',
    ) + held_letter(held.shift, 'S') + held_letter(held.platform, 'D') + name + seq!['>']);
}

/// The keys that type no text, with Neovim's names for them.
pub open spec fn named_keys() -> Seq<(Seq<char>, Seq<char>)> {
    seq![
        ("enter"@, "CR"@),
        ("backspace"@, "BS"@),
        ("delete"@, "Del"@),
        ("escape"@, "Esc"@),
        ("tab"@, "Tab"@),
        ("up"@, "Up"@),
        ("down"@, "Down"@),
        ("left"@, "Left"@),
        ("right"@, "Right"@),
        ("pageup"@, "PageUp"@),
        ("pagedown"@, "PageDown"@),
        ("home"@, "Home"@),
        ("end"@, "End"@),
        ("insert"@, "Insert"@),
    ]
}

/// Each of the keys that type no text goes by its own name, a function key by the one that
/// it has, and no other key has one.
pub proof fn law_keys_go_by_their_names(key: Seq<char>)
    ensures
        forall|i: int|
            0 <= i < named_keys().len() ==> special_name((#[trigger] named_keys()[i]).0) == Some(
                named_keys()[i].1,
            ),
        (forall|i: int| 0 <= i < named_keys().len() ==> (#[trigger] named_keys()[i]).0 != key) ==> (
        special_name(key) == if key.len() >= 2 && key[0] == 'f' && forall|i: int|
            1 <= i < key.len() ==> '0' <= #[trigger] key[i] && key[i] <= '9' {
            Some(key)
        } else {
            None
        }),
{
    reveal_strlit("enter");
    reveal_strlit("backspace");
    reveal_strlit("delete");
    reveal_strlit("escape");
    reveal_strlit("tab");
    reveal_strlit("up");
    reveal_strlit("down");
    reveal_strlit("left");
    reveal_strlit("right");
    reveal_strlit("pageup");
    reveal_strlit("pagedown");
    reveal_strlit("home");
    reveal_strlit("end");
    reveal_strlit("insert");
    let keys = named_keys();
    assert("enter"@[0] == 'e' && "enter"@.len() == 5);
    assert("right"@[0] == 'r' && "right"@.len() == 5);
    assert("delete"@[0] == 'd' && "delete"@.len() == 6);
    assert("escape"@[0] == 'e' && "escape"@.len() == 6);
    assert("pageup"@[0] == 'p' && "pageup"@.len() == 6);
    assert("insert"@[0] == 'i' && "insert"@.len() == 6);
    assert("tab"@[0] == 't' && "tab"@.len() == 3);
    assert("end"@[0] == 'e' && "end"@.len() == 3);
    assert("down"@[0] == 'd' && "down"@.len() == 4);
    assert("left"@[0] == 'l' && "left"@.len() == 4);
    assert("home"@[0] == 'h' && "home"@.len() == 4);
    assert("up"@.len() == 2 && "backspace"@.len() == 9 && "pagedown"@.len() == 8);
    assert(keys[0].0 == "enter"@ && keys[1].0 == "backspace"@ && keys[2].0 == "delete"@);
    assert(keys[3].0 == "escape"@ && keys[4].0 == "tab"@ && keys[5].0 == "up"@);
    assert(keys[6].0 == "down"@ && keys[7].0 == "left"@ && keys[8].0 == "right"@);
    assert(keys[9].0 == "pageup"@ && keys[10].0 == "pagedown"@ && keys[11].0 == "home"@);
    assert(keys[12].0 == "end"@ && keys[13].0 == "insert"@);
}

/// A letter, if the modifier that it stands for is held.
pub open spec fn letter_if(held: bool, letter: char) -> Seq<char> {
    if held {
        seq![letter]
    } else {
        Seq::empty()
    }
}

/// The modifiers of a mouse action are a letter for each that is held: control, alt, shift
/// and command in that order.
pub proof fn law_mouse_actions_name_modifiers(held: Modifiers)
    ensures
        mouse_letters(held) == letter_if(held.control, 'C') + letter_if(held.alt, 'A') + letter_if(
            held.shift,
            'S',
        ) + letter_if(held.platform, 'D'),
{
    assert(mouse_letters(held) =~= letter_if(held.control, 'C') + letter_if(held.alt, 'A')
        + letter_if(held.shift, 'S') + letter_if(held.platform, 'D'));
}

/// Each button of the mouse has a name of its own.
pub proof fn law_buttons_have_their_names(button: MouseButton)
    ensures
        button_name(button) == if button is Left {
            seq!['l', 'e', 'f', 't']
        } else if button is Right {
            seq!['r', 'i', 'g', 'h', 't']
        } else if button is Middle {
            seq!['m', 'i', 'd', 'd', 'l', 'e']
        } else {
            seq!['x', '1']
        },
{
    reveal_strlit("left");
    reveal_strlit("right");
    reveal_strlit("middle");
    reveal_strlit("x1");
    assert("left"@ =~= seq!['l', 'e', 'f', 't']);
    assert("right"@ =~= seq!['r', 'i', 'g', 'h', 't']);
    assert("middle"@ =~= seq!['m', 'i', 'd', 'd', 'l', 'e']);
    assert("x1"@ =~= seq!['x', '1']);
}

} // verus!
