//! Neovim's `guifont` option, and which of the fonts that it lists is used.

use crate::text;
use vstd::prelude::*;
use vstd::string::*;

verus! {

/// The system's monospace font, for when none is asked for or installed.
pub const DEFAULT_FONT: &'static str = "Menlo";

/// An option after a font's name. Numbers are of type `N`: the text that spells
/// one, or what that text was read as.
#[derive(Clone, Copy, Debug, PartialEq, Eq)]
pub enum FontOption<N> {
    /// The size in points.
    Height(N),
    /// What is added to the width of a cell.
    Width(N),
    Weight(N),
    Bold,
    Italic,
}

/// The fonts that are asked for, in order of preference, and all their options.
#[derive(Debug, PartialEq, Eq)]
pub struct FontRequest {
    pub families: Vec<String>,
    pub options: Vec<FontOption<String>>,
}

/// A list of fonts with what its options amount to.
#[derive(Debug, PartialEq, Eq)]
pub struct ParsedFont<N> {
    pub families: Vec<String>,
    pub size: N,
    pub width: N,
    pub weight: N,
    pub italic: bool,
}

/// The name of a font family, up to a character. A backslash before a space is
/// left out, and an underscore stands for a space.
pub open spec fn family_name(written: Seq<char>, n: nat) -> Seq<char>
    decreases n,
{
    if n == 0 {
        Seq::empty()
    } else {
        let before = family_name(written, (n - 1) as nat);
        if written[n - 1] == '\\' && n < written.len() && written[n as int] == ' ' {
            before
        } else if written[n - 1] == '_' {
            before.push(' ')
        } else {
            before.push(written[n - 1])
        }
    }
}

/// The option that a text is, if it is one.
pub open spec fn option_of(written: Seq<char>) -> Option<FontOption<Seq<char>>> {
    if written.len() > 0 && written[0] == 'h' {
        Some(FontOption::Height(written.skip(1)))
    } else if written.len() > 0 && written[0] == 'w' {
        Some(FontOption::Width(written.skip(1)))
    } else if written.len() > 0 && written[0] == 'W' {
        Some(FontOption::Weight(written.skip(1)))
    } else if written =~= seq!['b'] {
        Some(FontOption::Bold)
    } else if written =~= seq!['i'] {
        Some(FontOption::Italic)
    } else {
        None
    }
}

/// The options among the first `n` parts of a font. The first part is its name.
pub open spec fn options_of(parts: Seq<Seq<char>>, n: nat) -> Seq<FontOption<Seq<char>>>
    decreases n,
{
    if n <= 1 {
        Seq::empty()
    } else {
        let before = options_of(parts, (n - 1) as nat);
        match option_of(parts[n - 1]) {
            Some(option) => before.push(option),
            None => before,
        }
    }
}

/// What a request holds.
#[verifier::ext_equal]
pub struct RequestView {
    pub families: Seq<Seq<char>>,
    pub options: Seq<FontOption<Seq<char>>>,
}

/// An option with its number's text as a sequence of characters.
pub open spec fn option_view(option: FontOption<String>) -> FontOption<Seq<char>> {
    match option {
        FontOption::Height(number) => FontOption::Height(number@),
        FontOption::Width(number) => FontOption::Width(number@),
        FontOption::Weight(number) => FontOption::Weight(number@),
        FontOption::Bold => FontOption::Bold,
        FontOption::Italic => FontOption::Italic,
    }
}

/// What a list of options holds.
pub open spec fn options_view(options: Seq<FontOption<String>>) -> Seq<FontOption<Seq<char>>> {
    Seq::new(options.len(), |i: int| option_view(options[i]))
}

impl View for FontRequest {
    type V = RequestView;

    open spec fn view(&self) -> RequestView {
        RequestView {
            families: text::strings_view(self.families@),
            options: options_view(self.options@),
        }
    }
}

/// What the first `n` fonts of a list ask for. Each is a name and then options,
/// between colons.
pub open spec fn request_of(fonts: Seq<Seq<char>>, n: nat) -> RequestView
    decreases n,
{
    if n == 0 {
        RequestView { families: Seq::empty(), options: Seq::empty() }
    } else {
        let before = request_of(fonts, (n - 1) as nat);
        let parts = text::split_on(fonts[n - 1], ':');
        RequestView {
            families: if parts[0].len() > 0 {
                before.families.push(family_name(parts[0], parts[0].len()))
            } else {
                before.families
            },
            options: before.options + options_of(parts, parts.len()),
        }
    }
}

/// What a value of `guifont` asks for: fonts between commas, the default one
/// where none is named.
pub open spec fn requested(value: Seq<char>) -> RequestView {
    let fonts = text::split_on(value, ',');
    let request = request_of(fonts, fonts.len());
    if request.families.len() == 0 {
        RequestView { families: seq![DEFAULT_FONT@], ..request }
    } else {
        request
    }
}

fn read_family(written: &[char]) -> (name: String)
    ensures
        name@ == family_name(written@, written@.len()),
{
    let mut name = String::new();
    let mut at: usize = 0;
    while at < written.len()
        invariant
            at <= written@.len(),
            name@ == family_name(written@, at as nat),
        decreases written@.len() - at,
    {
        let c: char = written[at];
        if c == '\\' && at + 1 < written.len() && written[at + 1] == ' ' {
        } else if c == '_' {
            name.push(' ');
        } else {
            name.push(c);
        }
        at += 1;
    }
    name
}

fn read_option(written: &[char]) -> (option: Option<FontOption<String>>)
    ensures
        match option {
            Some(found) => option_of(written@) == Some(option_view(found)),
            None => option_of(written@) is None,
        },
{
    if written.len() == 0 {
        return None;
    }
    let first: char = written[0];
    assert(written@.skip(1) =~= written@.subrange(1, written@.len() as int));
    if first == 'h' || first == 'w' || first == 'W' {
        let number = text::text_of(vstd::slice::slice_subrange(written, 1, written.len()));
        if first == 'h' {
            Some(FontOption::Height(number))
        } else if first == 'w' {
            Some(FontOption::Width(number))
        } else {
            Some(FontOption::Weight(number))
        }
    } else if written.len() == 1 && first == 'b' {
        Some(FontOption::Bold)
    } else if written.len() == 1 && first == 'i' {
        Some(FontOption::Italic)
    } else {
        None
    }
}

/// Reads a value of `guifont`: fonts between commas, each a name and options
/// between colons.
pub fn parse_guifont(value: &str) -> (request: FontRequest)
    ensures
        request@ == requested(value@),
{
    let chars = text::chars_of(value);
    let fonts = text::split_chars(chars.as_slice(), ',');
    let ghost listed = text::split_on(value@, ',');
    let mut families: Vec<String> = Vec::new();
    let mut options: Vec<FontOption<String>> = Vec::new();
    let mut index: usize = 0;
    assert(text::strings_view(families@) =~= Seq::empty());
    assert(options_view(options@) =~= Seq::empty());
    while index < fonts.len()
        invariant
            text::lists_view(fonts@) == listed,
            index <= fonts@.len(),
            text::strings_view(families@) == request_of(listed, index as nat).families,
            options_view(options@) == request_of(listed, index as nat).options,
        decreases fonts@.len() - index,
    {
        let ghost before = request_of(listed, index as nat);
        assert(fonts@[index as int]@ == listed[index as int]);
        let parts = text::split_chars(fonts[index].as_slice(), ':');
        let ghost cut = text::split_on(listed[index as int], ':');
        assert(parts@[0]@ == cut[0]);
        if parts[0].len() > 0 {
            let family = read_family(parts[0].as_slice());
            families.push(family);
            assert(text::strings_view(families@) =~= before.families.push(family@));
        }
        let mut part: usize = 1;
        assert(before.options + options_of(cut, 1) =~= before.options);
        while part < parts.len()
            invariant
                text::lists_view(parts@) == cut,
                1 <= part <= parts@.len(),
                options_view(options@) == before.options + options_of(cut, part as nat),
            decreases parts@.len() - part,
        {
            let ghost so_far = options_view(options@);
            assert(parts@[part as int]@ == cut[part as int]);
            if let Some(option) = read_option(parts[part].as_slice()) {
                options.push(option);
                assert(options_view(options@) =~= so_far.push(option_view(option)));
            }
            part += 1;
            assert(options_view(options@) =~= before.options + options_of(cut, part as nat));
        }
        index += 1;
    }
    if families.is_empty() {
        families.push(DEFAULT_FONT.to_owned());
        assert(text::strings_view(families@) =~= seq![DEFAULT_FONT@]);
    }
    FontRequest { families, options }
}

/// The number that the last of some options gives, if one gives any.
pub open spec fn last_number<N>(
    options: Seq<FontOption<Option<N>>>,
    read: spec_fn(FontOption<Option<N>>) -> Option<N>,
    otherwise: N,
) -> N
    decreases options.len(),
{
    if options.len() == 0 {
        otherwise
    } else {
        match read(options.last()) {
            Some(number) => number,
            None => last_number(options.drop_last(), read, otherwise),
        }
    }
}

/// The size that an option gives.
pub open spec fn size_given<N>(option: FontOption<Option<N>>) -> Option<N> {
    match option {
        FontOption::Height(size) => size,
        _ => None,
    }
}

/// The width that an option gives.
pub open spec fn width_given<N>(option: FontOption<Option<N>>) -> Option<N> {
    match option {
        FontOption::Width(width) => width,
        _ => None,
    }
}

/// The weight that an option gives.
pub open spec fn weight_given<N>(option: FontOption<Option<N>>, bold: N) -> Option<N> {
    match option {
        FontOption::Weight(weight) => weight,
        FontOption::Bold => Some(bold),
        _ => None,
    }
}

/// The numbers that a font has where no option gives one, and the weight that
/// the bold option stands for.
#[derive(Clone, Copy, Debug, PartialEq, Eq)]
pub struct FontDefaults<N> {
    pub size: N,
    pub width: N,
    pub weight: N,
    pub bold: N,
}

/// Works out what options amount to, once their numbers are read. A number that
/// could not be read is `None`; such an option is passed over. Of several that
/// set the same thing the last counts.
pub fn settle_font<N: Copy>(
    families: Vec<String>,
    options: &[FontOption<Option<N>>],
    defaults: FontDefaults<N>,
) -> (font: ParsedFont<N>)
    ensures
        font.families == families,
        font.size == last_number(options@, |o: FontOption<Option<N>>| size_given(o), defaults.size),
        font.width == last_number(
            options@,
            |o: FontOption<Option<N>>| width_given(o),
            defaults.width,
        ),
        font.weight == last_number(
            options@,
            |o: FontOption<Option<N>>| weight_given(o, defaults.bold),
            defaults.weight,
        ),
        font.italic <==> exists|i: int|
            0 <= i < options@.len() && #[trigger] options@[i] == FontOption::<Option<N>>::Italic,
{
    let ghost to_size = |o: FontOption<Option<N>>| size_given(o);
    let ghost to_width = |o: FontOption<Option<N>>| width_given(o);
    let ghost to_weight = |o: FontOption<Option<N>>| weight_given(o, defaults.bold);
    let mut size: N = defaults.size;
    let mut width: N = defaults.width;
    let mut weight: N = defaults.weight;
    let mut italic: bool = false;
    let mut at: usize = 0;
    while at < options.len()
        invariant
            at <= options@.len(),
            to_size == (|o: FontOption<Option<N>>| size_given(o)),
            to_width == (|o: FontOption<Option<N>>| width_given(o)),
            to_weight == (|o: FontOption<Option<N>>| weight_given(o, defaults.bold)),
            size == last_number(options@.take(at as int), to_size, defaults.size),
            width == last_number(options@.take(at as int), to_width, defaults.width),
            weight == last_number(options@.take(at as int), to_weight, defaults.weight),
            italic <==> exists|i: int|
                0 <= i < at && #[trigger] options@[i] == FontOption::<Option<N>>::Italic,
        decreases options@.len() - at,
    {
        assert(options@.take(at + 1).drop_last() =~= options@.take(at as int));
        match &options[at] {
            FontOption::Height(Some(number)) => {
                size = *number;
            },
            FontOption::Width(Some(number)) => {
                width = *number;
            },
            FontOption::Weight(Some(number)) => {
                weight = *number;
            },
            FontOption::Bold => {
                weight = defaults.bold;
            },
            FontOption::Italic => {
                italic = true;
                assert(options@[at as int] == FontOption::<Option<N>>::Italic);
            },
            _ => {},
        }
        at += 1;
    }
    assert(options@.take(options@.len() as int) =~= options@);
    ParsedFont { families, size, width, weight, italic }
}

/// Whether a family is installed. Case does not matter in ASCII letters.
pub open spec fn is_installed(family: Seq<char>, installed: Seq<Seq<char>>) -> bool {
    exists|i: int| 0 <= i < installed.len() && text::same_but_for_case(#[trigger] installed[i], family)
}

/// Those of the first `n` families that are installed.
pub open spec fn installed_of(
    configured: Seq<Seq<char>>,
    installed: Seq<Seq<char>>,
    n: nat,
) -> Seq<Seq<char>>
    decreases n,
{
    if n == 0 {
        Seq::empty()
    } else {
        let before = installed_of(configured, installed, (n - 1) as nat);
        if is_installed(configured[n - 1], installed) {
            before.push(configured[n - 1])
        } else {
            before
        }
    }
}

/// The families to use: those that are installed, in order, or else the default
/// one.
pub open spec fn usable_families(
    configured: Seq<Seq<char>>,
    installed: Seq<Seq<char>>,
) -> Seq<Seq<char>> {
    let usable = installed_of(configured, installed, configured.len());
    if usable.len() == 0 {
        seq![DEFAULT_FONT@]
    } else {
        usable
    }
}

fn has_family(family: &str, installed: &[String]) -> (found: bool)
    ensures
        found == is_installed(family@, text::strings_view(installed@)),
{
    let mut at: usize = 0;
    while at < installed.len()
        invariant
            at <= installed@.len(),
            forall|i: int|
                0 <= i < at ==> !text::same_but_for_case(
                    #[trigger] text::strings_view(installed@)[i],
                    family@,
                ),
        decreases installed@.len() - at,
    {
        if text::same_ignoring_case(installed[at].as_str(), family) {
            assert(text::same_but_for_case(text::strings_view(installed@)[at as int], family@));
            return true;
        }
        at += 1;
    }
    false
}

/// Keeps those of the families that are installed, and falls back on the default
/// one where none is.
pub fn installed_font_families(configured: Vec<String>, installed: &[String]) -> (usable: Vec<
    String,
>)
    ensures
        text::strings_view(usable@) == usable_families(
            text::strings_view(configured@),
            text::strings_view(installed@),
        ),
{
    let ghost wanted = text::strings_view(configured@);
    let ghost present = text::strings_view(installed@);
    let mut usable: Vec<String> = Vec::new();
    let mut at: usize = 0;
    assert(text::strings_view(usable@) =~= Seq::empty());
    while at < configured.len()
        invariant
            wanted == text::strings_view(configured@),
            present == text::strings_view(installed@),
            at <= configured@.len(),
            text::strings_view(usable@) == installed_of(wanted, present, at as nat),
        decreases configured@.len() - at,
    {
        let ghost before = text::strings_view(usable@);
        if has_family(configured[at].as_str(), installed) {
            usable.push(configured[at].clone());
            assert(text::strings_view(usable@) =~= before.push(wanted[at as int]));
        }
        at += 1;
    }
    if usable.is_empty() {
        usable.push(DEFAULT_FONT.to_owned());
        assert(text::strings_view(usable@) =~= seq![DEFAULT_FONT@]);
    }
    usable
}

/// The font to draw with, and those that stand in for the characters it lacks.
#[derive(Debug, PartialEq, Eq)]
pub struct GridFont {
    pub family: String,
    pub fallbacks: Vec<String>,
}

/// Takes the first family as the font to draw with, the default one where there
/// is none.
pub fn grid_font(families: &[String]) -> (font: GridFont)
    ensures
        families@.len() == 0 ==> font.family@ == DEFAULT_FONT@ && font.fallbacks@.len() == 0,
        families@.len() > 0 ==> font.family@ == families@[0]@ && text::strings_view(
            font.fallbacks@,
        ) == text::strings_view(families@).skip(1),
{
    let mut fallbacks: Vec<String> = Vec::new();
    if families.len() == 0 {
        return GridFont { family: DEFAULT_FONT.to_owned(), fallbacks };
    }
    let mut at: usize = 1;
    let ghost rest = text::strings_view(families@).skip(1);
    assert(text::strings_view(fallbacks@) =~= rest.take(0));
    while at < families.len()
        invariant
            1 <= at <= families@.len(),
            rest == text::strings_view(families@).skip(1),
            text::strings_view(fallbacks@) == rest.take(at - 1),
        decreases families@.len() - at,
    {
        let ghost before = text::strings_view(fallbacks@);
        fallbacks.push(families[at].clone());
        assert(text::strings_view(fallbacks@) =~= before.push(rest[at - 1]));
        at += 1;
        assert(rest.take(at - 1) =~= before.push(rest[at - 2]));
    }
    assert(rest.take(rest.len() as int) =~= rest);
    GridFont { family: families[0].clone(), fallbacks }
}

proof fn lemma_installed_of(
    configured: Seq<Seq<char>>,
    installed: Seq<Seq<char>>,
    first: int,
    n: nat,
)
    requires
        0 <= first < configured.len(),
        n <= configured.len(),
        forall|i: int| 0 <= i < first ==> !is_installed(#[trigger] configured[i], installed),
        is_installed(configured[first], installed),
    ensures
        n <= first ==> installed_of(configured, installed, n).len() == 0,
        n > first ==> installed_of(configured, installed, n).len() > 0 && installed_of(
            configured,
            installed,
            n,
        )[0] == configured[first],
    decreases n,
{
    if n > 0 {
        lemma_installed_of(configured, installed, first, (n - 1) as nat);
    }
}

/// Of the fonts that are asked for, the first that is installed is used.
pub proof fn law_first_installed_font_is_used(
    configured: Seq<Seq<char>>,
    installed: Seq<Seq<char>>,
    first: int,
)
    requires
        0 <= first < configured.len(),
        forall|i: int| 0 <= i < first ==> !is_installed(#[trigger] configured[i], installed),
        is_installed(configured[first], installed),
    ensures
        usable_families(configured, installed)[0] == configured[first],
{
    lemma_installed_of(configured, installed, first, configured.len());
}

proof fn lemma_usable_are_installed(
    configured: Seq<Seq<char>>,
    installed: Seq<Seq<char>>,
    n: nat,
)
    requires
        n <= configured.len(),
    ensures
        forall|i: int|
            0 <= i < installed_of(configured, installed, n).len() ==> is_installed(
                #[trigger] installed_of(configured, installed, n)[i],
                installed,
            ),
    decreases n,
{
    if n > 0 {
        lemma_usable_are_installed(configured, installed, (n - 1) as nat);
        let before = installed_of(configured, installed, (n - 1) as nat);
        let now = installed_of(configured, installed, n);
        assert forall|i: int| 0 <= i < now.len() implies is_installed(
            #[trigger] now[i],
            installed,
        ) by {
            if i < before.len() {
                assert(now[i] == before[i]);
            }
        }
    }
}

/// There is always a font to use. All that are used are installed, unless none is that
/// was asked for: that leaves the default one.
pub proof fn law_there_is_always_a_font(configured: Seq<Seq<char>>, installed: Seq<Seq<char>>)
    ensures
        usable_families(configured, installed).len() > 0,
        usable_families(configured, installed) == seq![DEFAULT_FONT@] || forall|i: int|
            0 <= i < usable_families(configured, installed).len() ==> is_installed(
                #[trigger] usable_families(configured, installed)[i],
                installed,
            ),
{
    lemma_usable_are_installed(configured, installed, configured.len());
}

/// A name as it may be written in a list of fonts, up to a character: each of its spaces as
/// a space, as an underscore, or as a backslash and a space.
pub open spec fn spelled(name: Seq<char>, ways: Seq<int>, n: nat) -> Seq<char>
    decreases n,
{
    if n == 0 {
        Seq::empty()
    } else {
        let before = spelled(name, ways, (n - 1) as nat);
        if name[n - 1] != ' ' || ways[n - 1] == 0 {
            before.push(name[n - 1])
        } else if ways[n - 1] == 1 {
            before.push('_')
        } else {
            before.push('\\').push(' ')
        }
    }
}

proof fn lemma_spelled_front(name: Seq<char>, ways: Seq<int>, n: nat, m: nat)
    requires
        n <= m <= name.len(),
    ensures
        spelled(name, ways, n).len() <= spelled(name, ways, m).len(),
        spelled(name, ways, m).take(spelled(name, ways, n).len() as int) == spelled(name, ways, n),
        n < m ==> spelled(name, ways, n).len() < spelled(name, ways, m).len(),
        n < m && name[n as int] != ' ' ==> spelled(name, ways, m)[spelled(name, ways, n).len() as int]
            == name[n as int],
    decreases m,
{
    let short = spelled(name, ways, n);
    let long = spelled(name, ways, m);
    if n == m {
        assert(long.take(short.len() as int) =~= short);
    } else {
        lemma_spelled_front(name, ways, n, (m - 1) as nat);
        let before = spelled(name, ways, (m - 1) as nat);
        assert(long.take(short.len() as int) =~= before.take(short.len() as int));
    }
}

proof fn lemma_family_read(name: Seq<char>, ways: Seq<int>, n: nat)
    requires
        n <= name.len(),
        ways.len() == name.len(),
        !name.contains('_'),
        forall|i: int|
            0 <= i < name.len() - 1 && #[trigger] name[i] == '\\' ==> name[i + 1] != ' ',
    ensures
        family_name(spelled(name, ways, name.len()), spelled(name, ways, n).len()) == name.take(
            n as int,
        ),
    decreases n,
{
    let written = spelled(name, ways, name.len());
    if n == 0 {
        assert(name.take(0) =~= Seq::empty());
    } else {
        lemma_family_read(name, ways, (n - 1) as nat);
        let before = spelled(name, ways, (n - 1) as nat);
        let now = spelled(name, ways, n);
        let k = before.len() as int;
        let c = name[n - 1];
        lemma_spelled_front(name, ways, n, name.len());
        assert(name.contains(c));
        assert(name.take(n - 1).push(c) =~= name.take(n as int));
        assert forall|i: int| 0 <= i < now.len() implies now[i] == written[i] by {
            assert(written.take(now.len() as int)[i] == written[i]);
        }
        if c != ' ' || ways[n - 1] == 0 {
            assert(written[k] == c);
            assert(now.len() == k + 1);
            if c == '\\' && k + 1 < written.len() {
                assert(n < name.len());
                assert(name[n as int] != ' ');
            }
        } else if ways[n - 1] == 1 {
            assert(written[k] == '_');
            assert(now.len() == k + 1);
        } else {
            assert(written[k] == '\\');
            assert(written[k + 1] == ' ');
            assert(now.len() == k + 2);
            assert(family_name(written, (k + 1) as nat) == name.take(n - 1));
        }
    }
}

/// A family is named as it is written: its spaces as they are, as underscores, or after
/// backslashes, and everything else as it is.
pub proof fn law_family_names_are_read_as_written(name: Seq<char>, ways: Seq<int>)
    requires
        ways.len() == name.len(),
        !name.contains('_'),
        forall|i: int|
            0 <= i < name.len() - 1 && #[trigger] name[i] == '\\' ==> name[i + 1] != ' ',
    ensures
        family_name(spelled(name, ways, name.len()), spelled(name, ways, name.len()).len()) == name,
{
    lemma_family_read(name, ways, name.len());
    assert(name.take(name.len() as int) =~= name);
}

proof fn lemma_family_unmarked(name: Seq<char>, n: nat)
    requires
        n <= name.len(),
        !name.contains('_'),
        !name.contains('\\'),
    ensures
        family_name(name, n) == name.take(n as int),
    decreases n,
{
    if n > 0 {
        lemma_family_unmarked(name, (n - 1) as nat);
        assert(name.contains(name[n - 1]));
        assert(name.take(n - 1).push(name[n - 1]) =~= name.take(n as int));
    } else {
        assert(name.take(0) =~= Seq::empty());
    }
}

/// A family that is written without backslashes and underscores is named exactly as it is
/// written, spaces included.
pub proof fn law_plain_family_names_stay(name: Seq<char>)
    requires
        !name.contains('_'),
        !name.contains('\\'),
    ensures
        family_name(name, name.len()) == name,
{
    lemma_family_unmarked(name, name.len());
    assert(name.take(name.len() as int) =~= name);
}

/// What a list of fonts asks for, before the default font stands in.
pub open spec fn asked_for(value: Seq<char>) -> RequestView {
    request_of(text::split_on(value, ','), text::split_on(value, ',').len())
}

proof fn lemma_request_front(a: Seq<Seq<char>>, b: Seq<Seq<char>>, n: nat)
    requires
        n <= a.len(),
    ensures
        request_of(a + b, n) == request_of(a, n),
    decreases n,
{
    if n > 0 {
        lemma_request_front(a, b, (n - 1) as nat);
        assert((a + b)[n - 1] == a[n - 1]);
    }
}

proof fn lemma_request_parts(a: Seq<Seq<char>>, b: Seq<Seq<char>>, n: nat)
    requires
        n <= b.len(),
    ensures
        request_of(a + b, a.len() + n).families == request_of(a, a.len()).families + request_of(
            b,
            n,
        ).families,
        request_of(a + b, a.len() + n).options == request_of(a, a.len()).options + request_of(
            b,
            n,
        ).options,
    decreases n,
{
    let first = request_of(a, a.len());
    if n == 0 {
        lemma_request_front(a, b, a.len());
        assert(first.families + request_of(b, 0).families =~= first.families);
        assert(first.options + request_of(b, 0).options =~= first.options);
    } else {
        lemma_request_parts(a, b, (n - 1) as nat);
        assert((a + b)[a.len() + n - 1] == b[n - 1]);
        assert(request_of(a + b, a.len() + n).families =~= first.families + request_of(
            b,
            n,
        ).families);
        assert(request_of(a + b, a.len() + n).options =~= first.options + request_of(b, n).options);
    }
}

/// A list of fonts asks for what stands before a comma and then for what stands after it.
/// Only where no font is named the default one stands in.
pub proof fn law_font_lists_are_read_in_order(a: Seq<char>, b: Seq<char>, value: Seq<char>)
    ensures
        asked_for(a.push(',') + b).families == asked_for(a).families + asked_for(b).families,
        asked_for(a.push(',') + b).options == asked_for(a).options + asked_for(b).options,
        requested(value).options == asked_for(value).options,
        asked_for(value).families.len() > 0 ==> requested(value).families == asked_for(
            value,
        ).families,
        asked_for(value).families.len() == 0 ==> requested(value).families == seq!["Menlo"@],
{
    text::lemma_split_at_separator(a, ',', b);
    lemma_request_parts(
        text::split_on(a, ','),
        text::split_on(b, ','),
        text::split_on(b, ',').len(),
    );
}

proof fn lemma_options_push(parts: Seq<Seq<char>>, last: Seq<char>, n: nat)
    requires
        n <= parts.len(),
    ensures
        options_of(parts.push(last), n) == options_of(parts, n),
    decreases n,
{
    if n > 1 {
        lemma_options_push(parts, last, (n - 1) as nat);
        assert(parts.push(last)[n - 1] == parts[n - 1]);
    }
}

/// A font is a name, which may be missing, and then its options in order: those that have a
/// meaning.
pub proof fn law_fonts_are_a_name_and_options(
    name: Seq<char>,
    options: Seq<Seq<char>>,
    option: Seq<char>,
)
    requires
        !name.contains(',') && !name.contains(':'),
        !option.contains(',') && !option.contains(':'),
        forall|i: int|
            0 <= i < options.len() ==> !(#[trigger] options[i]).contains(',')
                && !options[i].contains(':'),
    ensures
        asked_for(name).families == if name.len() > 0 {
            seq![family_name(name, name.len())]
        } else {
            Seq::empty()
        },
        asked_for(name).options.len() == 0,
        ({
            let fewer = asked_for(text::joined(seq![name] + options, seq![':']));
            let more = asked_for(text::joined((seq![name] + options).push(option), seq![':']));
            &&& more.families == fewer.families
            &&& more.families == asked_for(name).families
            &&& option_of(option) is None ==> more.options == fewer.options
            &&& option_of(option) matches Some(read) ==> more.options == fewer.options.push(read)
        }),
{
    let fewer = seq![name] + options;
    let more = fewer.push(option);
    assert forall|i: int| 0 <= i < fewer.len() implies !(#[trigger] fewer[i]).contains(',')
        && !fewer[i].contains(':') by {
        if i > 0 {
            assert(fewer[i] == options[i - 1]);
        }
    }
    assert forall|i: int| 0 <= i < more.len() implies !(#[trigger] more[i]).contains(',')
        && !more[i].contains(':') by {
        if i < fewer.len() {
            assert(more[i] == fewer[i]);
        }
    }
    lemma_single_font(seq![name]);
    lemma_single_font(fewer);
    lemma_single_font(more);
    assert(text::joined(seq![name], seq![':']) == name);
    lemma_options_push(fewer, option, fewer.len());
    assert(more[0] == name && fewer[0] == name);
    assert(more[more.len() - 1] == option);
}

/// A font of the list on its own.
proof fn lemma_single_font(parts: Seq<Seq<char>>)
    requires
        parts.len() > 0,
        forall|i: int|
            0 <= i < parts.len() ==> !(#[trigger] parts[i]).contains(',') && !parts[i].contains(':'),
    ensures
        asked_for(text::joined(parts, seq![':'])).families == if parts[0].len() > 0 {
            seq![family_name(parts[0], parts[0].len())]
        } else {
            Seq::empty()
        },
        asked_for(text::joined(parts, seq![':'])).options == options_of(parts, parts.len()),
{
    let font = text::joined(parts, seq![':']);
    text::lemma_joined_lacks(parts, ':', ',');
    text::lemma_split_last_piece(Seq::empty(), ',', font);
    text::lemma_split_joined(parts, ':');
    let list = text::split_on(font, ',');
    assert(list == seq![font]);
    assert(request_of(list, 0).families.len() == 0);
    assert(asked_for(font).families =~= if parts[0].len() > 0 {
        seq![family_name(parts[0], parts[0].len())]
    } else {
        Seq::empty()
    });
    assert(asked_for(font).options =~= options_of(parts, parts.len()));
}

/// An `h`, `w` or `W` is followed by a number; a `b` and an `i` stand alone. Nothing else is
/// an option.
pub proof fn law_options_are_told_by_their_letter(option: Seq<char>, number: Seq<char>)
    ensures
        option_of(seq!['h'] + number) == Some(FontOption::Height(number)),
        option_of(seq!['w'] + number) == Some(FontOption::Width(number)),
        option_of(seq!['W'] + number) == Some(FontOption::Weight(number)),
        option_of(seq!['b']) == Some(FontOption::<Seq<char>>::Bold),
        option_of(seq!['i']) == Some(FontOption::<Seq<char>>::Italic),
        option_of(option) is Some ==> option.len() > 0 && (option[0] == 'h' || option[0] == 'w'
            || option[0] == 'W' || option == seq!['b'] || option == seq!['i']),
{
    assert((seq!['h'] + number).skip(1) =~= number);
    assert((seq!['w'] + number).skip(1) =~= number);
    assert((seq!['W'] + number).skip(1) =~= number);
}

/// Of several options that give the same thing the last counts, and where none does, what
/// there is otherwise.
pub proof fn law_last_option_counts<N>(
    options: Seq<FontOption<Option<N>>>,
    read: spec_fn(FontOption<Option<N>>) -> Option<N>,
    otherwise: N,
    index: int,
)
    requires
        -1 <= index < options.len(),
        index >= 0 ==> read(options[index]) is Some,
        forall|i: int| index < i < options.len() ==> read(#[trigger] options[i]) is None,
    ensures
        index >= 0 ==> read(options[index]) == Some(last_number(options, read, otherwise)),
        index < 0 ==> last_number(options, read, otherwise) == otherwise,
    decreases options.len(),
{
    if options.len() > 0 && index < options.len() - 1 {
        let front = options.drop_last();
        assert(read(options[options.len() - 1]) is None);
        assert forall|i: int| index < i < front.len() implies read(#[trigger] front[i]) is None by {
            assert(front[i] == options[i]);
        }
        law_last_option_counts(front, read, otherwise, index);
    }
}

/// A size is given by a height, a width by a width, and a weight by a weight or, as the one
/// that stands for it, by bold; and by no other option.
pub proof fn law_options_give_one_thing_each<N>(option: FontOption<Option<N>>, bold: N)
    ensures
        option matches FontOption::Height(number) ==> size_given(option) == number,
        option !is Height ==> size_given(option) is None,
        option matches FontOption::Width(number) ==> width_given(option) == number,
        option !is Width ==> width_given(option) is None,
        option matches FontOption::Weight(number) ==> weight_given(option, bold) == number,
        option is Bold ==> weight_given(option, bold) == Some(bold),
        option !is Weight && option !is Bold ==> weight_given(option, bold) is None,
{
}

proof fn lemma_installed_front(
    a: Seq<Seq<char>>,
    b: Seq<Seq<char>>,
    installed: Seq<Seq<char>>,
    n: nat,
)
    requires
        n <= a.len(),
    ensures
        installed_of(a + b, installed, n) == installed_of(a, installed, n),
    decreases n,
{
    if n > 0 {
        lemma_installed_front(a, b, installed, (n - 1) as nat);
        assert((a + b)[n - 1] == a[n - 1]);
    }
}

proof fn lemma_installed_parts(
    a: Seq<Seq<char>>,
    b: Seq<Seq<char>>,
    installed: Seq<Seq<char>>,
    n: nat,
)
    requires
        n <= b.len(),
    ensures
        installed_of(a + b, installed, a.len() + n) == installed_of(a, installed, a.len())
            + installed_of(b, installed, n),
    decreases n,
{
    let first = installed_of(a, installed, a.len());
    if n == 0 {
        lemma_installed_front(a, b, installed, a.len());
        assert(first + installed_of(b, installed, 0) =~= first);
    } else {
        lemma_installed_parts(a, b, installed, (n - 1) as nat);
        assert((a + b)[a.len() + n - 1] == b[n - 1]);
        assert(installed_of(a + b, installed, a.len() + n) =~= first + installed_of(
            b,
            installed,
            n,
        ));
    }
}

/// All fonts that are asked for and installed are used, in the order in which they are asked
/// for. One is installed where one of that name is, whatever the case of its letters.
pub proof fn law_installed_fonts_are_used_in_order(
    a: Seq<Seq<char>>,
    b: Seq<Seq<char>>,
    font: Seq<char>,
    installed: Seq<Seq<char>>,
)
    ensures
        installed_of(a + b, installed, (a + b).len()) == installed_of(a, installed, a.len())
            + installed_of(b, installed, b.len()),
        installed_of(seq![font], installed, 1) == if exists|i: int|
            0 <= i < installed.len() && text::same_but_for_case(#[trigger] installed[i], font) {
            seq![font]
        } else {
            Seq::empty()
        },
        installed_of(a, installed, a.len()).len() > 0 ==> usable_families(a, installed)
            == installed_of(a, installed, a.len()),
        installed_of(a, installed, a.len()).len() == 0 ==> usable_families(a, installed)
            == seq!["Menlo"@],
{
    lemma_installed_parts(a, b, installed, b.len());
    assert(seq![font][0] == font);
    assert(installed_of(seq![font], installed, 0) =~= Seq::empty());
    assert(installed_of(seq![font], installed, 1) =~= if is_installed(font, installed) {
        seq![font]
    } else {
        Seq::empty()
    });
}

} // verus!
