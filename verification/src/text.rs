//! Text handling shared by the other modules, and the compact strings that
//! grid cells are made of.

use compact_str::CompactString;
use vstd::prelude::*;
use vstd::string::*;
use vstd::utf8::*;

verus! {

/// Whether two strings hold the same characters.
pub fn same_text(a: &str, b: &str) -> (same: bool)
    ensures
        same == (a@ == b@),
{
    let left: &[u8] = a.as_bytes();
    let right: &[u8] = b.as_bytes();
    proof {
        encode_utf8_decode_utf8(a@);
        encode_utf8_decode_utf8(b@);
    }
    if left.len() != right.len() {
        return false;
    }
    let mut at: usize = 0;
    while at < left.len()
        invariant
            left@.len() == right@.len(),
            at <= left@.len(),
            left@ == encode_utf8(a@),
            right@ == encode_utf8(b@),
            forall|k: int| 0 <= k < at ==> left@[k] == right@[k],
        decreases left@.len() - at,
    {
        if left[at] != right[at] {
            return false;
        }
        at += 1;
    }
    assert(left@ =~= right@);
    true
}

/// `String::push` appends one character.
pub assume_specification[ String::push ](string: &mut String, c: char)
    ensures
        final(string)@ == old(string)@.push(c),
;

/// The characters of a string, one by one.
pub fn chars_of(text: &str) -> (chars: Vec<char>)
    ensures
        chars@ == text@,
{
    let mut chars: Vec<char> = Vec::new();
    for c in iter: text.chars()
        invariant
            chars@ == text@.take(iter.index() as int),
            iter.seq() == text@,
    {
        chars.push(c);
        assert(text@.take(iter.index() + 1) =~= text@.take(iter.index() as int).push(c));
    }
    assert(text@.take(text@.len() as int) =~= text@);
    chars
}

/// The string that a run of characters spells.
pub fn text_of(chars: &[char]) -> (text: String)
    ensures
        text@ == chars@,
{
    let mut text = String::new();
    let mut at: usize = 0;
    while at < chars.len()
        invariant
            at <= chars@.len(),
            text@ == chars@.take(at as int),
        decreases chars@.len() - at,
    {
        text.push(chars[at]);
        assert(chars@.take(at + 1) =~= chars@.take(at as int).push(chars@[at as int]));
        at += 1;
    }
    assert(chars@.take(chars@.len() as int) =~= chars@);
    text
}

/// Whether a character is white space in the sense of Unicode.
pub open spec fn is_space(c: char) -> bool {
    ||| '\u{9}' <= c <= '\u{d}'
    ||| c == ' '
    ||| c == '\u{85}'
    ||| c == '\u{a0}'
    ||| c == '\u{1680}'
    ||| '\u{2000}' <= c <= '\u{200a}'
    ||| c == '\u{2028}'
    ||| c == '\u{2029}'
    ||| c == '\u{202f}'
    ||| c == '\u{205f}'
    ||| c == '\u{3000}'
}

/// Whether a character is white space in the sense of Unicode.
pub fn is_whitespace(c: char) -> (space: bool)
    ensures
        space == is_space(c),
{
    ('\u{9}' <= c && c <= '\u{d}') || c == ' ' || c == '\u{85}' || c == '\u{a0}' || c == '\u{1680}'
        || ('\u{2000}' <= c && c <= '\u{200a}') || c == '\u{2028}' || c == '\u{2029}' || c
        == '\u{202f}' || c == '\u{205f}' || c == '\u{3000}'
}

/// Whether a string holds nothing but white space.
pub open spec fn all_space(text: Seq<char>) -> bool {
    forall|i: int| 0 <= i < text.len() ==> is_space(#[trigger] text[i])
}

/// Whether a string holds nothing but white space.
pub fn is_blank(text: &str) -> (blank: bool)
    ensures
        blank == all_space(text@),
{
    for c in iter: text.chars()
        invariant
            iter.seq() == text@,
            forall|i: int| 0 <= i < iter.index() ==> is_space(#[trigger] text@[i]),
    {
        if !is_whitespace(c) {
            assert(!is_space(text@[iter.index() as int]));
            return false;
        }
    }
    true
}

/// A string without the white space at its start.
pub open spec fn trimmed_start(text: Seq<char>) -> Seq<char>
    decreases text.len(),
{
    if text.len() > 0 && is_space(text[0]) {
        trimmed_start(text.drop_first())
    } else {
        text
    }
}

/// A string without the white space at its end.
pub open spec fn trimmed_end(text: Seq<char>) -> Seq<char>
    decreases text.len(),
{
    if text.len() > 0 && is_space(text.last()) {
        trimmed_end(text.drop_last())
    } else {
        text
    }
}

/// A string without the white space at both ends.
pub open spec fn trimmed(text: Seq<char>) -> Seq<char> {
    trimmed_end(trimmed_start(text))
}

/// Strips the white space at both ends of a string.
pub fn trim(text: &str) -> (stripped: String)
    ensures
        stripped@ == trimmed(text@),
{
    let chars = chars_of(text);
    let mut start: usize = 0;
    assert(text@.skip(0) =~= text@);
    while start < chars.len() && is_whitespace(chars[start])
        invariant
            chars@ == text@,
            start <= chars@.len(),
            trimmed_start(text@) == trimmed_start(text@.skip(start as int)),
        decreases chars@.len() - start,
    {
        assert(text@.skip(start as int).drop_first() =~= text@.skip(start + 1));
        start += 1;
    }
    let ghost rest = text@.skip(start as int);
    assert(trimmed_start(text@) == rest);
    let mut end: usize = chars.len();
    assert(rest.take(end - start) =~= rest);
    while start < end && is_whitespace(chars[end - 1])
        invariant
            chars@ == text@,
            start <= end <= chars@.len(),
            rest == text@.skip(start as int),
            trimmed_end(rest) == trimmed_end(rest.take(end - start)),
        decreases end,
    {
        assert(rest.take(end - start).last() == chars@[end - 1]);
        assert(rest.take(end - start).drop_last() =~= rest.take(end - 1 - start));
        end -= 1;
    }
    assert(rest.take(end - start).len() > 0 ==> rest.take(end - start).last() == chars@[end - 1]);
    assert(chars@.subrange(start as int, end as int) =~= rest.take(end - start));
    text_of(vstd::slice::slice_subrange(chars.as_slice(), start, end))
}

/// The number of code units that characters take in UTF-16.
pub open spec fn utf16_units(text: Seq<char>) -> nat
    decreases text.len(),
{
    if text.len() == 0 {
        0
    } else {
        utf16_units(text.drop_first()) + if text[0] as u32 >= 0x10000 {
            2nat
        } else {
            1nat
        }
    }
}

/// UTF-16 takes no more code units than UTF-8 takes bytes.
proof fn lemma_utf16_within_utf8(text: Seq<char>)
    ensures
        utf16_units(text) <= encode_utf8(text).len(),
    decreases text.len(),
{
    if text.len() > 0 {
        lemma_utf16_within_utf8(text.drop_first());
        char_is_scalar(text[0]);
    }
}

/// Counts the code units that a string takes in UTF-16.
pub fn utf16_len(text: &str) -> (units: usize)
    ensures
        units == utf16_units(text@),
{
    let bytes: &[u8] = text.as_bytes();
    let most: usize = bytes.len();
    proof {
        lemma_utf16_within_utf8(text@);
        assert(text@.skip(0) =~= text@);
    }
    let mut units: usize = 0;
    for c in iter: text.chars()
        invariant
            iter.seq() == text@,
            utf16_units(text@) <= most,
            units + utf16_units(text@.skip(iter.index() as int)) == utf16_units(text@),
    {
        assert(text@.skip(iter.index() as int).drop_first() =~= text@.skip(iter.index() + 1));
        units += if c as u32 >= 0x10000 {
            2
        } else {
            1
        };
    }
    units
}

/// The pieces between the separators of a sequence: one more than there are
/// separators.
pub open spec fn split_on<T>(items: Seq<T>, separator: T) -> Seq<Seq<T>>
    decreases items.len(),
{
    if items.len() == 0 {
        seq![Seq::empty()]
    } else {
        let before = split_on(items.drop_last(), separator);
        if items.last() == separator {
            before.push(Seq::empty())
        } else {
            before.drop_last().push(before.last().push(items.last()))
        }
    }
}

/// There is always a piece.
pub proof fn lemma_split_has_pieces<T>(items: Seq<T>, separator: T)
    ensures
        split_on(items, separator).len() > 0,
    decreases items.len(),
{
    if items.len() > 0 {
        lemma_split_has_pieces(items.drop_last(), separator);
    }
}

/// The contents of a list of lists.
pub open spec fn lists_view<T>(lists: Seq<Vec<T>>) -> Seq<Seq<T>> {
    Seq::new(lists.len(), |i: int| lists[i]@)
}

/// The contents of a list of strings.
pub open spec fn strings_view(strings: Seq<String>) -> Seq<Seq<char>> {
    Seq::new(strings.len(), |i: int| strings[i]@)
}

/// Cuts a run of characters at each separator.
pub fn split_chars(chars: &[char], separator: char) -> (pieces: Vec<Vec<char>>)
    ensures
        lists_view(pieces@) == split_on(chars@, separator),
        pieces@.len() > 0,
{
    let mut pieces: Vec<Vec<char>> = Vec::new();
    let mut piece: Vec<char> = Vec::new();
    let mut at: usize = 0;
    assert(chars@.take(0) =~= Seq::empty());
    assert(lists_view(pieces@).push(piece@) =~= seq![Seq::empty()]);
    while at < chars.len()
        invariant
            at <= chars@.len(),
            lists_view(pieces@).push(piece@) == split_on(chars@.take(at as int), separator),
        decreases chars@.len() - at,
    {
        let ghost before = lists_view(pieces@);
        let ghost last = piece@;
        assert(chars@.take(at + 1).drop_last() =~= chars@.take(at as int));
        assert(before.push(last).drop_last() =~= before);
        let c: char = chars[at];
        if c == separator {
            let mut done: Vec<char> = Vec::new();
            std::mem::swap(&mut done, &mut piece);
            pieces.push(done);
            assert(lists_view(pieces@) =~= before.push(last));
        } else {
            piece.push(c);
        }
        at += 1;
    }
    assert(chars@.take(chars@.len() as int) =~= chars@);
    let ghost before = lists_view(pieces@);
    let ghost last = piece@;
    pieces.push(piece);
    assert(lists_view(pieces@) =~= before.push(last));
    pieces
}

/// Cuts a run of bytes at each separator.
pub fn split_bytes(bytes: &[u8], separator: u8) -> (pieces: Vec<Vec<u8>>)
    ensures
        lists_view(pieces@) == split_on(bytes@, separator),
        pieces@.len() > 0,
{
    let mut pieces: Vec<Vec<u8>> = Vec::new();
    let mut piece: Vec<u8> = Vec::new();
    let mut at: usize = 0;
    assert(bytes@.take(0) =~= Seq::empty());
    assert(lists_view(pieces@).push(piece@) =~= seq![Seq::empty()]);
    while at < bytes.len()
        invariant
            at <= bytes@.len(),
            lists_view(pieces@).push(piece@) == split_on(bytes@.take(at as int), separator),
        decreases bytes@.len() - at,
    {
        let ghost before = lists_view(pieces@);
        let ghost last = piece@;
        assert(bytes@.take(at + 1).drop_last() =~= bytes@.take(at as int));
        assert(before.push(last).drop_last() =~= before);
        let byte: u8 = bytes[at];
        if byte == separator {
            let mut done: Vec<u8> = Vec::new();
            std::mem::swap(&mut done, &mut piece);
            pieces.push(done);
            assert(lists_view(pieces@) =~= before.push(last));
        } else {
            piece.push(byte);
        }
        at += 1;
    }
    assert(bytes@.take(bytes@.len() as int) =~= bytes@);
    let ghost before = lists_view(pieces@);
    let ghost last = piece@;
    pieces.push(piece);
    assert(lists_view(pieces@) =~= before.push(last));
    pieces
}

/// A line without the carriage return that is part of its ending.
pub open spec fn without_return(line: Seq<char>) -> Seq<char> {
    if line.len() > 0 && line.last() == '\r' {
        line.drop_last()
    } else {
        line
    }
}

/// The lines of a text. A line ends with a line feed, or with a carriage return
/// and a line feed; the last one may lack that.
pub open spec fn lines_of(text: Seq<char>) -> Seq<Seq<char>> {
    let pieces = split_on(text, '\n');
    let ended = Seq::new((pieces.len() - 1) as nat, |i: int| without_return(pieces[i]));
    if pieces.last().len() == 0 {
        ended
    } else {
        ended.push(pieces.last())
    }
}

/// Cuts a text into its lines.
pub fn lines(text: &str) -> (lines: Vec<String>)
    ensures
        strings_view(lines@) == lines_of(text@),
{
    let chars = chars_of(text);
    let pieces = split_chars(chars.as_slice(), '\n');
    let ghost cut = split_on(text@, '\n');
    let ghost ended = Seq::new((cut.len() - 1) as nat, |i: int| without_return(cut[i]));
    let mut lines: Vec<String> = Vec::new();
    let mut at: usize = 0;
    assert(strings_view(lines@) =~= ended.take(0));
    while at < pieces.len() - 1
        invariant
            pieces@.len() > 0,
            at <= pieces@.len() - 1,
            lists_view(pieces@) == cut,
            ended == Seq::new((cut.len() - 1) as nat, |i: int| without_return(cut[i])),
            strings_view(lines@) == ended.take(at as int),
        decreases pieces@.len() - at,
    {
        let piece = &pieces[at];
        assert(piece@ == cut[at as int]);
        let length: usize = piece.len();
        let ghost before = strings_view(lines@);
        let line = if length > 0 && piece[length - 1] == '\r' {
            assert(piece@.subrange(0, length - 1) =~= piece@.drop_last());
            text_of(vstd::slice::slice_subrange(piece.as_slice(), 0, length - 1))
        } else {
            text_of(piece.as_slice())
        };
        assert(line@ == ended[at as int]);
        lines.push(line);
        assert(strings_view(lines@) =~= before.push(line@));
        assert(ended.take(at + 1) =~= ended.take(at as int).push(ended[at as int]));
        at += 1;
    }
    assert(ended.take(ended.len() as int) =~= ended);
    assert(cut.last() == pieces@[at as int]@);
    if pieces[at].len() > 0 {
        let ghost before = strings_view(lines@);
        let line = text_of(pieces[at].as_slice());
        lines.push(line);
        assert(strings_view(lines@) =~= before.push(line@));
    }
    lines
}

/// Pieces strung together with a separator between them.
pub open spec fn joined<T>(pieces: Seq<Seq<T>>, separator: Seq<T>) -> Seq<T>
    decreases pieces.len(),
{
    if pieces.len() == 0 {
        Seq::empty()
    } else if pieces.len() == 1 {
        pieces[0]
    } else {
        joined(pieces.drop_last(), separator) + separator + pieces.last()
    }
}

/// Strings pieces together with a separator between them.
pub fn join(pieces: &[String], separator: &str) -> (text: String)
    ensures
        text@ == joined(strings_view(pieces@), separator@),
{
    let ghost all = strings_view(pieces@);
    let mut text = String::new();
    let mut at: usize = 0;
    assert(joined(all.take(0), separator@) =~= Seq::empty());
    while at < pieces.len()
        invariant
            at <= pieces@.len(),
            all == strings_view(pieces@),
            text@ == joined(all.take(at as int), separator@),
        decreases pieces@.len() - at,
    {
        assert(all.take(at + 1).drop_last() =~= all.take(at as int));
        if at > 0 {
            text.append(separator);
        }
        text.append(pieces[at].as_str());
        at += 1;
    }
    assert(all.take(all.len() as int) =~= all);
    text
}

/// Strings pieces of bytes together with a separator between them.
pub fn join_bytes(pieces: &[Vec<u8>], separator: u8) -> (bytes: Vec<u8>)
    ensures
        bytes@ == joined(lists_view(pieces@), seq![separator]),
{
    let ghost all = lists_view(pieces@);
    let mut bytes: Vec<u8> = Vec::new();
    let mut at: usize = 0;
    assert(joined(all.take(0), seq![separator]) =~= Seq::empty());
    while at < pieces.len()
        invariant
            at <= pieces@.len(),
            all == lists_view(pieces@),
            bytes@ == joined(all.take(at as int), seq![separator]),
        decreases pieces@.len() - at,
    {
        let ghost before = bytes@;
        assert(all.take(at + 1).drop_last() =~= all.take(at as int));
        if at > 0 {
            bytes.push(separator);
            assert(bytes@ =~= before + seq![separator]);
        }
        bytes.extend_from_slice(pieces[at].as_slice());
        assert(bytes@ =~= joined(all.take(at + 1), seq![separator]));
        at += 1;
    }
    assert(all.take(all.len() as int) =~= all);
    bytes
}

/// What stands before a separator and what stands after it are cut apart on their
/// own.
pub proof fn lemma_split_at_separator<T>(front: Seq<T>, separator: T, back: Seq<T>)
    ensures
        split_on(front.push(separator) + back, separator) == split_on(front, separator) + split_on(
            back,
            separator,
        ),
    decreases back.len(),
{
    let whole = front.push(separator) + back;
    let first = split_on(front, separator);
    lemma_split_has_pieces(front, separator);
    lemma_split_has_pieces(back, separator);
    if back.len() == 0 {
        assert(whole =~= front.push(separator));
        assert(whole.drop_last() =~= front);
        assert(first.push(Seq::empty()) =~= first + seq![Seq::empty()]);
    } else {
        let shorter = back.drop_last();
        lemma_split_at_separator(front, separator, shorter);
        lemma_split_has_pieces(shorter, separator);
        assert(whole.drop_last() =~= front.push(separator) + shorter);
        assert(whole.last() == back.last());
        let before = split_on(shorter, separator);
        let all = first + before;
        if back.last() == separator {
            assert(all.push(Seq::empty()) =~= first + before.push(Seq::empty()));
        } else {
            assert(all.last() == before.last());
            assert(all.drop_last().push(all.last().push(back.last())) =~= first
                + before.drop_last().push(before.last().push(back.last())));
        }
    }
}

/// A last piece without separators is cut off as it is.
pub proof fn lemma_split_last_piece<T>(front: Seq<T>, separator: T, piece: Seq<T>)
    requires
        !piece.contains(separator),
    ensures
        split_on(front.push(separator) + piece, separator) == split_on(front, separator).push(piece),
        split_on(piece, separator) == seq![piece],
    decreases piece.len(),
{
    let whole = front.push(separator) + piece;
    if piece.len() == 0 {
        assert(whole =~= front.push(separator));
        assert(whole.drop_last() =~= front);
        assert(piece =~= Seq::empty());
    } else {
        let shorter = piece.drop_last();
        assert forall|i: int| 0 <= i < shorter.len() implies shorter[i] != separator by {
            assert(piece[i] == shorter[i]);
        }
        lemma_split_last_piece(front, separator, shorter);
        assert(whole.drop_last() =~= front.push(separator) + shorter);
        assert(whole.last() == piece.last());
        assert(piece.contains(piece.last()));
        let before = split_on(front, separator).push(shorter);
        assert(before.drop_last() =~= split_on(front, separator));
        assert(shorter.push(piece.last()) =~= piece);
        assert(seq![shorter].drop_last().push(piece) =~= seq![piece]);
    }
}

/// Cutting at the separators undoes stringing together.
pub proof fn lemma_split_joined<T>(pieces: Seq<Seq<T>>, separator: T)
    requires
        pieces.len() > 0,
        forall|i: int| 0 <= i < pieces.len() ==> !(#[trigger] pieces[i]).contains(separator),
    ensures
        split_on(joined(pieces, seq![separator]), separator) == pieces,
    decreases pieces.len(),
{
    if pieces.len() == 1 {
        lemma_split_last_piece(Seq::empty(), separator, pieces[0]);
        assert(seq![pieces[0]] =~= pieces);
    } else {
        let front = pieces.drop_last();
        assert forall|i: int| 0 <= i < front.len() implies !(#[trigger] front[i]).contains(
            separator,
        ) by {
            assert(front[i] == pieces[i]);
        }
        lemma_split_joined(front, separator);
        let text = joined(front, seq![separator]);
        lemma_split_last_piece(text, separator, pieces.last());
        assert(text.push(separator) =~= text + seq![separator]);
        assert(front.push(pieces.last()) =~= pieces);
    }
}

/// Reading the lines of a text gives back the lines that it was made of, as long
/// as none of them holds a line feed, none but the last ends with a carriage
/// return, and the last is not empty.
pub proof fn law_lines_give_back_what_was_joined(lines: Seq<Seq<char>>)
    requires
        forall|i: int| 0 <= i < lines.len() ==> !(#[trigger] lines[i]).contains('\n'),
        forall|i: int|
            0 <= i < lines.len() - 1 && (#[trigger] lines[i]).len() > 0 ==> lines[i].last() != '\r',
        lines.len() > 0 ==> lines.last().len() > 0,
    ensures
        lines_of(joined(lines, seq!['\n'])) == lines,
{
    if lines.len() > 0 {
        lemma_split_joined(lines, '\n');
        assert(lines_of(joined(lines, seq!['\n'])) =~= lines);
    } else {
        assert(split_on(joined(lines, seq!['\n']), '\n') =~= seq![Seq::empty()]);
        assert(lines_of(joined(lines, seq!['\n'])) =~= lines);
    }
}

/// A text with each `<` written as `<LT>`, the way Neovim's input takes it.
pub open spec fn escaped(text: Seq<char>) -> Seq<char>
    decreases text.len(),
{
    if text.len() == 0 {
        Seq::empty()
    } else {
        escaped(text.drop_last()) + if text.last() == '<' {
            "<LT>"@
        } else {
            seq![text.last()]
        }
    }
}

/// Writes each `<` of a text as `<LT>`.
pub fn escape(text: &str) -> (input: String)
    ensures
        input@ == escaped(text@),
{
    let mut input = String::new();
    assert(text@.take(0) =~= Seq::empty());
    for c in iter: text.chars()
        invariant
            iter.seq() == text@,
            input@ == escaped(text@.take(iter.index() as int)),
    {
        assert(text@.take(iter.index() + 1).drop_last() =~= text@.take(iter.index() as int));
        if c == '<' {
            input.append("<LT>");
        } else {
            input.push(c);
            assert(input@ =~= escaped(text@.take(iter.index() as int)) + seq![c]);
        }
    }
    assert(text@.take(text@.len() as int) =~= text@);
    input
}

/// The text that Neovim makes of typed input in which the only key that is named is
/// `<LT>`.
pub open spec fn read_input(input: Seq<char>) -> Seq<char>
    decreases input.len(),
{
    if input.len() == 0 {
        Seq::empty()
    } else if input.len() >= 4 && input.take(4) == seq!['<', 'L', 'T', '>'] {
        seq!['<'] + read_input(input.skip(4))
    } else {
        seq![input[0]] + read_input(input.skip(1))
    }
}

proof fn lemma_escaped_first(text: Seq<char>)
    requires
        text.len() > 0,
    ensures
        escaped(text) == (if text[0] == '<' {
            "<LT>"@
        } else {
            seq![text[0]]
        }) + escaped(text.drop_first()),
    decreases text.len(),
{
    let first = if text[0] == '<' {
        "<LT>"@
    } else {
        seq![text[0]]
    };
    if text.len() == 1 {
        assert(text.drop_last() =~= Seq::empty());
        assert(text.drop_first() =~= Seq::empty());
        assert(escaped(text) =~= first + escaped(text.drop_first()));
    } else {
        let front = text.drop_last();
        lemma_escaped_first(front);
        assert(front.drop_first() =~= text.drop_first().drop_last());
        assert(front[0] == text[0]);
        assert(text.drop_first().last() == text.last());
        assert(escaped(text) =~= first + escaped(text.drop_first()));
    }
}

/// Text that is typed arrives as it is: reading its escaped form gives it back. No
/// part of it is taken for the name of a key.
pub proof fn law_typed_text_arrives_as_it_is(text: Seq<char>)
    ensures
        read_input(escaped(text)) == text,
    decreases text.len(),
{
    reveal_strlit("<LT>");
    assert("<LT>"@ =~= seq!['<', 'L', 'T', '>']);
    if text.len() == 0 {
        assert(escaped(text) =~= Seq::empty());
        assert(text =~= Seq::empty());
    } else {
        let rest = escaped(text.drop_first());
        lemma_escaped_first(text);
        law_typed_text_arrives_as_it_is(text.drop_first());
        let input = escaped(text);
        assert(seq![text[0]] + text.drop_first() =~= text);
        if text[0] == '<' {
            assert(input.take(4) =~= seq!['<', 'L', 'T', '>']);
            assert(input.skip(4) =~= rest);
        } else {
            assert(input[0] == text[0]);
            if input.len() >= 4 && input.take(4) == seq!['<', 'L', 'T', '>'] {
                assert(input.take(4)[0] == '<');
            }
            assert(input.skip(1) =~= rest);
        }
    }
}

/// A character with an upper case ASCII letter made a lower case one.
pub open spec fn ascii_lower(c: char) -> char {
    if 'A' <= c <= 'Z' {
        ((c as u32) + 32) as char
    } else {
        c
    }
}

/// Whether two texts are the same but for the case of ASCII letters.
pub open spec fn same_but_for_case(a: Seq<char>, b: Seq<char>) -> bool {
    a.len() == b.len() && forall|i: int|
        0 <= i < a.len() ==> ascii_lower(#[trigger] a[i]) == ascii_lower(b[i])
}

fn lower(c: char) -> (lowered: char)
    ensures
        lowered == ascii_lower(c),
{
    if 'A' <= c && c <= 'Z' {
        ((c as u8) + 32) as char
    } else {
        c
    }
}

/// Whether two texts are the same but for the case of ASCII letters.
pub fn same_ignoring_case(a: &str, b: &str) -> (same: bool)
    ensures
        same == same_but_for_case(a@, b@),
{
    let left = chars_of(a);
    let right = chars_of(b);
    if left.len() != right.len() {
        return false;
    }
    let mut at: usize = 0;
    while at < left.len()
        invariant
            left@ == a@,
            right@ == b@,
            left@.len() == right@.len(),
            at <= left@.len(),
            forall|i: int| 0 <= i < at ==> ascii_lower(#[trigger] a@[i]) == ascii_lower(b@[i]),
        decreases left@.len() - at,
    {
        if lower(left[at]) != lower(right[at]) {
            return false;
        }
        at += 1;
    }
    true
}

/// The text that bytes spell, with replacement characters for what is not UTF-8.
pub uninterp spec fn lossy_text(bytes: Seq<u8>) -> Seq<char>;

/// `String::from_utf8_lossy` reads bytes as UTF-8 and puts replacement characters
/// for what is not. Valid UTF-8 it leaves as it is.
#[verifier::external_body]
pub(crate) fn lossy(bytes: &[u8]) -> (read: String)
    ensures
        read@ == lossy_text(bytes@),
        valid_utf8(bytes@) ==> read@ == decode_utf8(bytes@),
{
    String::from_utf8_lossy(bytes).into_owned()
}

/// `String::from_utf8` reads bytes as UTF-8, and fails where they are not.
#[verifier::external_body]
pub(crate) fn strict(bytes: Vec<u8>) -> (read: Option<String>)
    ensures
        match read {
            Some(text) => valid_utf8(bytes@) && text@ == decode_utf8(bytes@),
            None => !valid_utf8(bytes@),
        },
{
    String::from_utf8(bytes).ok()
}

/// The text of a cell, a string of the `compact_str` crate. Short text is
/// stored inline, which suits cells: nearly all of them hold a single grapheme.
#[derive(Debug, PartialEq, Eq)]
#[verifier::external_body]
pub struct CellText {
    inner: CompactString,
}

/// The characters that a cell's text holds.
pub uninterp spec fn cell_chars(text: CellText) -> Seq<char>;

impl CellText {
    /// `CompactString::const_new` makes a compact string of a literal's characters.
    #[verifier::external_body]
    pub(crate) fn literal(literal: &'static str) -> (made: CellText)
        ensures
            cell_chars(made) == literal@,
    {
        CellText { inner: CompactString::const_new(literal) }
    }

    /// `CompactString::from` copies the characters of a string slice.
    #[verifier::external_body]
    pub(crate) fn copied(text: &str) -> (made: CellText)
        ensures
            cell_chars(made) == text@,
    {
        CellText { inner: CompactString::from(text) }
    }

    /// `CompactString::as_str` lends the characters out as a string slice.
    #[verifier::external_body]
    pub(crate) fn lent(&self) -> (text: &str)
        ensures
            text@ == cell_chars(*self),
    {
        self.inner.as_str()
    }

    /// `CompactString::clone` copies the characters.
    #[verifier::external_body]
    pub(crate) fn duplicate(&self) -> (copy: CellText)
        ensures
            cell_chars(copy) == cell_chars(*self),
    {
        CellText { inner: self.inner.clone() }
    }
}

proof fn lemma_trimmed_start(text: Seq<char>) -> (at: int)
    ensures
        0 <= at <= text.len(),
        trimmed_start(text) == text.skip(at),
        forall|i: int| 0 <= i < at ==> is_space(#[trigger] text[i]),
        at < text.len() ==> !is_space(text[at]),
    decreases text.len(),
{
    if text.len() > 0 && is_space(text[0]) {
        let rest = text.drop_first();
        let at = lemma_trimmed_start(rest);
        assert(rest.skip(at) =~= text.skip(at + 1));
        assert forall|i: int| 0 <= i < at + 1 implies is_space(#[trigger] text[i]) by {
            if i > 0 {
                assert(rest[i - 1] == text[i]);
            }
        }
        if at + 1 < text.len() {
            assert(rest[at] == text[at + 1]);
        }
        at + 1
    } else {
        assert(text.skip(0) =~= text);
        0
    }
}

proof fn lemma_trimmed_end(text: Seq<char>) -> (at: int)
    ensures
        0 <= at <= text.len(),
        trimmed_end(text) == text.take(at),
        forall|i: int| at <= i < text.len() ==> is_space(#[trigger] text[i]),
        at > 0 ==> !is_space(text[at - 1]),
    decreases text.len(),
{
    if text.len() > 0 && is_space(text.last()) {
        let rest = text.drop_last();
        let at = lemma_trimmed_end(rest);
        assert(rest.take(at) =~= text.take(at));
        assert forall|i: int| at <= i < text.len() implies is_space(#[trigger] text[i]) by {
            if i < rest.len() {
                assert(rest[i] == text[i]);
            }
        }
        at
    } else {
        assert(text.take(text.len() as int) =~= text);
        text.len() as int
    }
}

/// Trimming takes all the white space off both ends of a text and nothing else.
pub proof fn law_trimming_takes_off_white_space(text: Seq<char>)
    ensures
        exists|start: int, end: int|
            {
                &&& 0 <= start <= end <= text.len()
                &&& trimmed(text) == #[trigger] text.subrange(start, end)
                &&& forall|i: int|
                    0 <= i < start || end <= i < text.len() ==> is_space(#[trigger] text[i])
                &&& start < end ==> !is_space(text[start]) && !is_space(text[end - 1])
            },
{
    let start = lemma_trimmed_start(text);
    let rest = text.skip(start);
    let length = lemma_trimmed_end(rest);
    let end = start + length;
    assert(rest.take(length) =~= text.subrange(start, end));
    assert forall|i: int| 0 <= i < start || end <= i < text.len() implies is_space(
        #[trigger] text[i],
    ) by {
        if i >= end {
            assert(rest[i - start] == text[i]);
        }
    }
    if start < end {
        assert(rest[length - 1] == text[end - 1]);
        assert(text[start] == rest[0]);
    }
}

/// The pieces between separators hold no separator, and strung together with separators
/// between them give back what was cut.
pub proof fn law_cutting_loses_nothing<T>(items: Seq<T>, separator: T)
    ensures
        joined(split_on(items, separator), seq![separator]) == items,
        forall|i: int|
            0 <= i < split_on(items, separator).len() ==> !(#[trigger] split_on(
                items,
                separator,
            )[i]).contains(separator),
    decreases items.len(),
{
    let pieces = split_on(items, separator);
    if items.len() == 0 {
        assert(joined(pieces, seq![separator]) =~= items);
    } else {
        let before = split_on(items.drop_last(), separator);
        law_cutting_loses_nothing(items.drop_last(), separator);
        lemma_split_has_pieces(items.drop_last(), separator);
        if items.last() == separator {
            assert(pieces.drop_last() =~= before);
            assert(joined(pieces, seq![separator]) =~= items);
        } else {
            let front = before.drop_last();
            assert(pieces.drop_last() =~= front);
            let mended = before.last().push(items.last());
            assert(items =~= items.drop_last().push(items.last()));
            if front.len() == 0 {
                assert(joined(before, seq![separator]) == before[0]);
                assert(joined(pieces, seq![separator]) == mended);
            } else {
                let start = joined(front, seq![separator]) + seq![separator];
                assert(joined(before, seq![separator]) == start + before.last());
                assert(joined(pieces, seq![separator]) == start + mended);
                assert(start + mended =~= (start + before.last()).push(items.last()));
            }
            assert forall|i: int| 0 <= i < pieces.len() implies !(#[trigger] pieces[i]).contains(
                separator,
            ) by {
                if i < front.len() {
                    assert(pieces[i] == before[i]);
                } else {
                    let piece = before.last();
                    assert(!piece.contains(separator));
                    assert(pieces[i] == piece.push(items.last()));
                    assert forall|k: int| 0 <= k < pieces[i].len() implies pieces[i][k]
                        != separator by {
                        if k < piece.len() {
                            assert(piece.contains(piece[k]));
                        }
                    }
                }
            }
        }
    }
}

/// Strung together are two lists with a separator between them. Nothing is put around a
/// single piece.
pub proof fn law_stringing_together_is_in_order<T>(
    a: Seq<Seq<T>>,
    b: Seq<Seq<T>>,
    piece: Seq<T>,
    separator: Seq<T>,
)
    requires
        a.len() > 0,
        b.len() > 0,
    ensures
        joined(a + b, separator) == joined(a, separator) + separator + joined(b, separator),
        joined(seq![piece], separator) == piece,
        joined(Seq::<Seq<T>>::empty(), separator) == Seq::<T>::empty(),
    decreases b.len(),
{
    let all = a + b;
    assert(all.last() == b.last());
    if b.len() == 1 {
        assert(all.drop_last() =~= a);
    } else {
        assert(all.drop_last() =~= a + b.drop_last());
        law_stringing_together_is_in_order(a, b.drop_last(), piece, separator);
        assert(joined(all, separator) =~= joined(a, separator) + separator + joined(b, separator));
    }
}

/// A text that is strung together holds nothing but what its pieces and the separator hold.
pub(crate) proof fn lemma_joined_lacks<T>(pieces: Seq<Seq<T>>, separator: T, item: T)
    requires
        separator != item,
        forall|i: int| 0 <= i < pieces.len() ==> !(#[trigger] pieces[i]).contains(item),
    ensures
        !joined(pieces, seq![separator]).contains(item),
    decreases pieces.len(),
{
    let all = joined(pieces, seq![separator]);
    if pieces.len() == 1 {
        assert(!pieces[0].contains(item));
    } else if pieces.len() > 1 {
        let front = pieces.drop_last();
        assert forall|i: int| 0 <= i < front.len() implies !(#[trigger] front[i]).contains(item) by {
            assert(front[i] == pieces[i]);
        }
        lemma_joined_lacks(front, separator, item);
        let before = joined(front, seq![separator]);
        let last = pieces.last();
        assert(!pieces[pieces.len() - 1].contains(item));
        assert forall|i: int| 0 <= i < all.len() implies all[i] != item by {
            if i < before.len() {
                assert(all[i] == before[i]);
                assert(before.contains(before[i]));
            } else if i > before.len() {
                assert(all[i] == last[i - before.len() - 1]);
                assert(last.contains(last[i - before.len() - 1]));
            } else {
                assert(all[i] == separator);
            }
        }
    }
}

/// A line that ends is read as what stands before its ending, with or without a carriage
/// return, and the rest after it. What does not end is read as it is, if there is anything.
pub proof fn law_lines_are_read_one_by_one(line: Seq<char>, rest: Seq<char>)
    requires
        !line.contains('\n'),
    ensures
        line.len() == 0 || line.last() != '\r' ==> lines_of(line.push('\n') + rest) == seq![line]
            + lines_of(rest),
        lines_of(line.push('\r').push('\n') + rest) == seq![line] + lines_of(rest),
        line.len() > 0 ==> lines_of(line) == seq![line],
        lines_of(Seq::empty()) == Seq::<Seq<char>>::empty(),
{
    lemma_split_last_piece(Seq::empty(), '\n', line);
    lemma_split_at_separator(line, '\n', rest);
    lemma_split_has_pieces(rest, '\n');
    let pieces = split_on(rest, '\n');
    let all = split_on(line.push('\n') + rest, '\n');
    assert(all.last() == pieces.last());
    assert forall|i: int| 1 <= i < all.len() implies #[trigger] all[i] == pieces[i - 1] by {}
    if line.len() == 0 || line.last() != '\r' {
        assert(lines_of(line.push('\n') + rest) =~= seq![line] + lines_of(rest));
    }
    let longer = line.push('\r');
    assert forall|i: int| 0 <= i < longer.len() implies longer[i] != '\n' by {
        if i < line.len() {
            assert(line.contains(line[i]));
        }
    }
    lemma_split_last_piece(Seq::empty(), '\n', longer);
    lemma_split_at_separator(longer, '\n', rest);
    let more = split_on(longer.push('\n') + rest, '\n');
    assert(longer.drop_last() =~= line);
    assert(more.last() == pieces.last());
    assert forall|i: int| 1 <= i < more.len() implies #[trigger] more[i] == pieces[i - 1] by {}
    assert(lines_of(longer.push('\n') + rest) =~= seq![line] + lines_of(rest));
    if line.len() > 0 {
        assert(lines_of(line) =~= seq![line]);
    }
    assert(split_on(Seq::<char>::empty(), '\n') =~= seq![Seq::<char>::empty()]);
    assert(lines_of(Seq::empty()) =~= Seq::<Seq<char>>::empty());
}

/// The code units of two texts add up. A character takes two where its number has more than
/// sixteen bits, and one otherwise.
pub proof fn law_code_units_add_up(a: Seq<char>, b: Seq<char>, c: char)
    ensures
        utf16_units(a + b) == utf16_units(a) + utf16_units(b),
        utf16_units(Seq::empty()) == 0,
        c as u32 <= 0xffff ==> utf16_units(seq![c]) == 1,
        c as u32 > 0xffff ==> utf16_units(seq![c]) == 2,
    decreases a.len(),
{
    assert(seq![c].drop_first() =~= Seq::empty());
    assert(utf16_units(seq![c].drop_first()) == 0);
    if a.len() == 0 {
        assert(a + b =~= b);
    } else {
        law_code_units_add_up(a.drop_first(), b, c);
        assert((a + b).drop_first() =~= a.drop_first() + b);
    }
}

/// Text is escaped character by character, and only `<` is written in another way.
pub proof fn law_only_one_character_is_escaped(a: Seq<char>, b: Seq<char>, c: char)
    ensures
        escaped(a + b) == escaped(a) + escaped(b),
        c != '<' ==> escaped(seq![c]) == seq![c],
        escaped(seq!['<']) == seq!['<', 'L', 'T', '>'],
    decreases b.len(),
{
    reveal_strlit("<LT>");
    assert("<LT>"@ =~= seq!['<', 'L', 'T', '>']);
    assert(seq![c].drop_last() =~= Seq::empty());
    assert(seq!['<'].drop_last() =~= Seq::empty());
    assert(escaped(Seq::empty()) =~= Seq::empty());
    assert(escaped(seq!['<']) =~= seq!['<', 'L', 'T', '>']);
    if c != '<' {
        assert(escaped(seq![c]) =~= seq![c]);
    }
    if b.len() == 0 {
        assert(a + b =~= a);
        assert(escaped(a) + escaped(b) =~= escaped(a));
    } else {
        law_only_one_character_is_escaped(a, b.drop_last(), c);
        assert((a + b).drop_last() =~= a + b.drop_last());
        assert(escaped(a + b) =~= escaped(a) + escaped(b));
    }
}

/// Two texts are the same but for case where they have the same characters, or at the same
/// place the two forms of a letter of ASCII.
pub proof fn law_case_is_that_of_ascii_letters(a: Seq<char>, b: Seq<char>)
    ensures
        same_but_for_case(a, b) <==> a.len() == b.len() && forall|i: int|
            0 <= i < a.len() ==> (#[trigger] a[i]) == b[i] || ('A' <= a[i] <= 'Z' && b[i] as u32
                == a[i] as u32 + 32) || ('A' <= b[i] <= 'Z' && a[i] as u32 == b[i] as u32 + 32),
{
    if a.len() == b.len() {
        assert forall|i: int| 0 <= i < a.len() implies (ascii_lower(#[trigger] a[i]) == ascii_lower(
            b[i],
        ) <==> (a[i] == b[i] || ('A' <= a[i] <= 'Z' && b[i] as u32 == a[i] as u32 + 32) || ('A'
            <= b[i] <= 'Z' && a[i] as u32 == b[i] as u32 + 32))) by {}
    }
}

/// The white space of Unicode is the controls that part words and lines, the space, and the
/// spaces and line separators of other widths.
pub proof fn law_white_space_is_that_of_unicode(c: char)
    ensures
        ({
            let n = c as u32;
            is_space(c) <==> n == 9 || n == 10 || n == 11 || n == 12 || n == 13 || n == 32 || n
                == 133 || n == 160 || n == 5760 || 8192 <= n <= 8202 || n == 8232 || n == 8233 || n
                == 8239 || n == 8287 || n == 12288
        }),
{
}

} // verus!
