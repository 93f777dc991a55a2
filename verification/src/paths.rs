//! Paths in the file system: bytes in which slashes part the names.

use crate::text;
use vstd::prelude::*;
use vstd::slice::slice_subrange;
use vstd::string::*;
use vstd::utf8::*;

verus! {

/// A slash.
pub const SLASH: u8 = 0x2f;

/// A full stop.
pub const DOT: u8 = 0x2e;

/// A path in the file system. Two paths are equal where they lead through the
/// same names: doubled slashes, slashes at the end, and `.` in the middle make no
/// difference.
#[derive(Debug)]
pub struct FilePath {
    pub bytes: Vec<u8>,
}

impl View for FilePath {
    type V = Seq<u8>;

    open spec fn view(&self) -> Seq<u8> {
        self.bytes@
    }
}

/// What a list of paths holds.
pub open spec fn paths_view(list: Seq<FilePath>) -> Seq<Seq<u8>> {
    Seq::new(list.len(), |i: int| list[i]@)
}

/// What a path, if there is one, holds.
pub open spec fn path_view(path: Option<FilePath>) -> Option<Seq<u8>> {
    match path {
        Some(found) => Some(found@),
        None => None,
    }
}

/// Whether a path starts at the root.
pub open spec fn is_rooted(path: Seq<u8>) -> bool {
    path.len() > 0 && path[0] == SLASH
}

/// The root.
pub open spec fn root() -> Seq<u8> {
    seq![SLASH]
}

/// What stands between the slashes of a path.
pub open spec fn pieces_of(path: Seq<u8>) -> Seq<Seq<u8>> {
    text::split_on(path, SLASH)
}

/// Whether a piece between slashes is a step of the path. An empty one is not,
/// and `.` only at the start.
pub open spec fn is_step(piece: Seq<u8>, index: int) -> bool {
    piece.len() > 0 && (index == 0 || piece != seq![DOT])
}

/// Which of the first `n` pieces are steps of the path.
pub open spec fn steps_to(pieces: Seq<Seq<u8>>, n: nat) -> Seq<int>
    decreases n,
{
    if n == 0 {
        Seq::empty()
    } else {
        let before = steps_to(pieces, (n - 1) as nat);
        if is_step(pieces[n - 1], n - 1) {
            before.push(n - 1)
        } else {
            before
        }
    }
}

/// Which of the pieces of a path are its steps.
pub open spec fn steps_of(path: Seq<u8>) -> Seq<int> {
    steps_to(pieces_of(path), pieces_of(path).len())
}

/// The steps of a path by name, without the root.
pub open spec fn names_of(path: Seq<u8>) -> Seq<Seq<u8>> {
    Seq::new(steps_of(path).len(), |i: int| pieces_of(path)[steps_of(path)[i]])
}

/// What a path leads through: the root, if it starts there, and then names.
#[verifier::ext_equal]
pub struct Components {
    pub rooted: bool,
    pub names: Seq<Seq<u8>>,
}

/// What a path leads through.
pub open spec fn components_of(path: Seq<u8>) -> Components {
    Components { rooted: is_rooted(path), names: names_of(path) }
}

/// The name that a path leads to, unless that is the root, `.` or `..`.
pub open spec fn file_name_of(path: Seq<u8>) -> Option<Seq<u8>> {
    let names = names_of(path);
    if names.len() > 0 && names.last() != seq![DOT] && names.last() != seq![DOT, DOT] {
        Some(names.last())
    } else {
        None
    }
}

/// Where a path starts: at the root or nowhere.
pub open spec fn start_of(path: Seq<u8>) -> Seq<u8> {
    if is_rooted(path) {
        root()
    } else {
        Seq::empty()
    }
}

/// The path without its last step.
pub open spec fn parent_of(path: Seq<u8>) -> Option<Seq<u8>> {
    let steps = steps_of(path);
    if steps.len() == 0 {
        None
    } else if steps.len() == 1 {
        Some(start_of(path))
    } else {
        Some(text::joined(pieces_of(path).take(steps[steps.len() - 2] + 1), root()))
    }
}

/// Whether a path leads through all of another one first.
pub open spec fn is_within(path: Seq<u8>, base: Seq<u8>) -> bool {
    let names = names_of(path);
    let first = names_of(base);
    if first.len() == 0 && !is_rooted(base) {
        true
    } else {
        &&& is_rooted(path) == is_rooted(base)
        &&& first.len() <= names.len()
        &&& names.take(first.len() as int) == first
    }
}

/// What is left of a path after another one that it leads through.
pub open spec fn rest_within(path: Seq<u8>, base: Seq<u8>) -> Seq<u8> {
    let steps = steps_of(path);
    let first = names_of(base).len() as int;
    if first == 0 && !is_rooted(base) {
        if steps.len() == 0 {
            start_of(path)
        } else {
            text::joined(pieces_of(path).take(steps.last() + 1), root())
        }
    } else if steps.len() == first {
        Seq::empty()
    } else {
        text::joined(pieces_of(path).subrange(steps[first], steps.last() + 1), root())
    }
}

/// A path and then another one. A path that starts at the root stands alone.
pub open spec fn path_joined(path: Seq<u8>, added: Seq<u8>) -> Seq<u8> {
    if is_rooted(added) {
        added
    } else if path.len() > 0 && path.last() != SLASH {
        path.push(SLASH) + added
    } else {
        path + added
    }
}

/// The steps are pieces, in order.
pub proof fn lemma_steps_in_order(pieces: Seq<Seq<u8>>, n: nat)
    requires
        n <= pieces.len(),
    ensures
        forall|i: int|
            0 <= i < steps_to(pieces, n).len() ==> 0 <= #[trigger] steps_to(pieces, n)[i] < n,
        forall|i: int, j: int|
            0 <= i < j < steps_to(pieces, n).len() ==> #[trigger] steps_to(pieces, n)[i]
                < #[trigger] steps_to(pieces, n)[j],
    decreases n,
{
    if n > 0 {
        lemma_steps_in_order(pieces, (n - 1) as nat);
        let before = steps_to(pieces, (n - 1) as nat);
        let now = steps_to(pieces, n);
        assert forall|i: int| 0 <= i < now.len() implies 0 <= #[trigger] now[i] < n by {
            if i < before.len() {
                assert(now[i] == before[i]);
            }
        }
        assert forall|i: int, j: int| 0 <= i < j < now.len() implies #[trigger] now[i]
            < #[trigger] now[j] by {
            assert(now[i] == before[i]);
            if j < before.len() {
                assert(now[j] == before[j]);
            }
        }
    }
}

/// Whether a run of bytes is `.`.
fn is_dot(piece: &[u8]) -> (dot: bool)
    ensures
        dot == (piece@ == seq![DOT]),
{
    assert(piece@.len() == 1 && piece@[0] == DOT ==> piece@ =~= seq![DOT]);
    piece.len() == 1 && piece[0] == DOT
}

/// Whether a run of bytes is `..`.
fn is_dots(piece: &[u8]) -> (dots: bool)
    ensures
        dots == (piece@ == seq![DOT, DOT]),
{
    assert(piece@.len() == 2 && piece@[0] == DOT && piece@[1] == DOT ==> piece@ =~= seq![DOT, DOT]);
    piece.len() == 2 && piece[0] == DOT && piece[1] == DOT
}

fn same_bytes(a: &[u8], b: &[u8]) -> (same: bool)
    ensures
        same == (a@ == b@),
{
    if a.len() != b.len() {
        return false;
    }
    let mut at: usize = 0;
    while at < a.len()
        invariant
            a@.len() == b@.len(),
            at <= a@.len(),
            forall|i: int| 0 <= i < at ==> a@[i] == b@[i],
        decreases a@.len() - at,
    {
        if a[at] != b[at] {
            return false;
        }
        at += 1;
    }
    assert(a@ =~= b@);
    true
}

/// A path taken apart.
struct Parts {
    rooted: bool,
    pieces: Vec<Vec<u8>>,
    steps: Vec<usize>,
}

impl Parts {
    spec fn part(&self, path: Seq<u8>) -> bool {
        &&& self.rooted == is_rooted(path)
        &&& text::lists_view(self.pieces@) == pieces_of(path)
        &&& self.steps@.len() == steps_of(path).len()
        &&& forall|i: int|
            0 <= i < self.steps@.len() ==> (#[trigger] self.steps@[i]) == steps_of(path)[i]
        &&& forall|i: int| 0 <= i < self.steps@.len() ==> (#[trigger] self.steps@[i])
            < self.pieces@.len()
        &&& forall|i: int, j: int|
            0 <= i < j < self.steps@.len() ==> (#[trigger] self.steps@[i]) < (
            #[trigger] self.steps@[j])
    }

    /// The name of a step.
    fn name(&self, step: usize, Ghost(path): Ghost<Seq<u8>>) -> (name: &[u8])
        requires
            self.part(path),
            step < self.steps@.len(),
        ensures
            name@ == names_of(path)[step as int],
    {
        let at: usize = self.steps[step];
        assert(text::lists_view(self.pieces@)[at as int] == self.pieces@[at as int]@);
        self.pieces[at].as_slice()
    }

    /// How many pieces there are up to and with a step.
    fn end_of(&self, step: usize, Ghost(path): Ghost<Seq<u8>>) -> (end: usize)
        requires
            self.part(path),
            step < self.steps@.len(),
        ensures
            end == steps_of(path)[step as int] + 1,
            end <= self.pieces@.len(),
    {
        assert(self.steps@[step as int] < self.pieces@.len());
        assert(self.pieces.len() <= usize::MAX);
        self.steps[step] + 1
    }

    /// The pieces from one up to another as they stand in the path.
    fn rebuilt(&self, from: usize, to: usize, Ghost(path): Ghost<Seq<u8>>) -> (bytes: Vec<u8>)
        requires
            self.part(path),
            from <= to <= self.pieces@.len(),
        ensures
            bytes@ == text::joined(pieces_of(path).subrange(from as int, to as int), root()),
    {
        let part = slice_subrange(self.pieces.as_slice(), from, to);
        assert(text::lists_view(part@) =~= pieces_of(path).subrange(from as int, to as int));
        text::join_bytes(part, SLASH)
    }
}

impl FilePath {
    /// The path that a text spells.
    pub fn new(text: &str) -> (path: FilePath)
        ensures
            path@ == encode_utf8(text@),
    {
        FilePath { bytes: text.as_bytes_vec() }
    }

    /// Whether the path starts at the root.
    pub fn is_absolute(&self) -> (rooted: bool)
        ensures
            rooted == is_rooted(self@),
    {
        self.bytes.len() > 0 && self.bytes[0] == SLASH
    }

    fn parts(&self) -> (parts: Parts)
        ensures
            parts.part(self@),
    {
        let pieces = text::split_bytes(self.bytes.as_slice(), SLASH);
        let mut steps: Vec<usize> = Vec::new();
        let mut at: usize = 0;
        while at < pieces.len()
            invariant
                text::lists_view(pieces@) == pieces_of(self@),
                at <= pieces@.len(),
                steps@.len() == steps_to(pieces_of(self@), at as nat).len(),
                forall|i: int|
                    0 <= i < steps@.len() ==> (#[trigger] steps@[i]) == steps_to(
                        pieces_of(self@),
                        at as nat,
                    )[i],
            decreases pieces@.len() - at,
        {
            assert(text::lists_view(pieces@)[at as int] == pieces@[at as int]@);
            if pieces[at].len() > 0 && (at == 0 || !is_dot(pieces[at].as_slice())) {
                steps.push(at);
            }
            at += 1;
        }
        proof {
            lemma_steps_in_order(pieces_of(self@), pieces_of(self@).len());
        }
        Parts { rooted: self.is_absolute(), pieces, steps }
    }

    /// Whether two paths lead through the same names.
    pub fn same_path(&self, other: &FilePath) -> (same: bool)
        ensures
            same == (components_of(self@) == components_of(other@)),
    {
        let left = self.parts();
        let right = other.parts();
        assert(names_of(self@).len() == left.steps@.len());
        assert(names_of(other@).len() == right.steps@.len());
        if left.rooted != right.rooted || left.steps.len() != right.steps.len() {
            return false;
        }
        let mut at: usize = 0;
        while at < left.steps.len()
            invariant
                left.part(self@),
                right.part(other@),
                left.rooted == right.rooted,
                left.steps@.len() == right.steps@.len(),
                at <= left.steps@.len(),
                forall|i: int| 0 <= i < at ==> names_of(self@)[i] == names_of(other@)[i],
            decreases left.steps@.len() - at,
        {
            let mine = left.name(at, Ghost(self@));
            let theirs = right.name(at, Ghost(other@));
            if !same_bytes(mine, theirs) {
                return false;
            }
            at += 1;
        }
        assert(names_of(self@) =~= names_of(other@));
        true
    }

    /// The name that the path leads to.
    pub fn file_name(&self) -> (name: Option<Vec<u8>>)
        ensures
            match name {
                Some(found) => file_name_of(self@) == Some(found@),
                None => file_name_of(self@) is None,
            },
    {
        let parts = self.parts();
        let count: usize = parts.steps.len();
        if count == 0 {
            return None;
        }
        let name = parts.name(count - 1, Ghost(self@));
        if is_dot(name) || is_dots(name) {
            None
        } else {
            Some(vstd::slice::slice_to_vec(name))
        }
    }

    /// The path without its last step.
    pub fn parent(&self) -> (parent: Option<FilePath>)
        ensures
            match parent {
                Some(found) => parent_of(self@) == Some(found@),
                None => parent_of(self@) is None,
            },
    {
        let parts = self.parts();
        let count: usize = parts.steps.len();
        if count == 0 {
            return None;
        }
        if count == 1 {
            return Some(FilePath { bytes: parts.start(Ghost(self@)) });
        }
        let end: usize = parts.end_of(count - 2, Ghost(self@));
        assert(pieces_of(self@).subrange(0, end as int) =~= pieces_of(self@).take(end as int));
        Some(FilePath { bytes: parts.rebuilt(0, end, Ghost(self@)) })
    }

    /// What is left of the path after another one, if it leads through that.
    pub fn strip_prefix(&self, base: &FilePath) -> (rest: Option<FilePath>)
        ensures
            rest is Some <==> is_within(self@, base@),
            rest matches Some(found) ==> found@ == rest_within(self@, base@),
    {
        let parts = self.parts();
        let first = base.parts();
        let count: usize = parts.steps.len();
        let skipped: usize = first.steps.len();
        if skipped == 0 && !first.rooted {
            if count == 0 {
                return Some(FilePath { bytes: parts.start(Ghost(self@)) });
            }
            let end: usize = parts.end_of(count - 1, Ghost(self@));
            assert(pieces_of(self@).subrange(0, end as int) =~= pieces_of(self@).take(end as int));
            return Some(FilePath { bytes: parts.rebuilt(0, end, Ghost(self@)) });
        }
        if parts.rooted != first.rooted || skipped > count {
            return None;
        }
        let mut at: usize = 0;
        while at < skipped
            invariant
                parts.part(self@),
                first.part(base@),
                count == parts.steps@.len(),
                skipped == first.steps@.len(),
                at <= skipped <= count,
                forall|i: int| 0 <= i < at ==> names_of(self@)[i] == names_of(base@)[i],
                !(skipped == 0 && !first.rooted),
            decreases skipped - at,
        {
            let mine = parts.name(at, Ghost(self@));
            let theirs = first.name(at, Ghost(base@));
            if !same_bytes(mine, theirs) {
                assert(names_of(self@).take(skipped as int)[at as int] != names_of(
                    base@,
                )[at as int]);
                return None;
            }
            at += 1;
        }
        assert(names_of(self@).take(skipped as int) =~= names_of(base@));
        if count == skipped {
            let rest = FilePath { bytes: Vec::new() };
            assert(rest@ =~= Seq::empty());
            return Some(rest);
        }
        let start: usize = parts.steps[skipped];
        let end: usize = parts.end_of(count - 1, Ghost(self@));
        assert(start < end) by {
            assert(parts.steps@[skipped as int] <= parts.steps@[count - 1]);
        }
        Some(FilePath { bytes: parts.rebuilt(start, end, Ghost(self@)) })
    }

    /// The path and then another one.
    pub fn join(&self, added: &FilePath) -> (path: FilePath)
        ensures
            path@ == path_joined(self@, added@),
    {
        if added.is_absolute() {
            return added.clone();
        }
        let mut bytes = vstd::slice::slice_to_vec(self.bytes.as_slice());
        if bytes.len() > 0 && bytes[bytes.len() - 1] != SLASH {
            bytes.push(SLASH);
        }
        bytes.extend_from_slice(added.bytes.as_slice());
        assert(bytes@ =~= path_joined(self@, added@));
        FilePath { bytes }
    }

    /// The path as a text to show, with replacement characters for what is not
    /// UTF-8.
    pub fn display(&self) -> (shown: String)
        ensures
            shown@ == text::lossy_text(self@),
            valid_utf8(self@) ==> shown@ == decode_utf8(self@),
    {
        text::lossy(self.bytes.as_slice())
    }
}

/// Those of the first `n` paths that are marked, in order.
pub open spec fn chosen_of(listed: Seq<Seq<u8>>, marked: Seq<bool>, n: nat) -> Seq<Seq<u8>>
    decreases n,
{
    if n == 0 {
        Seq::empty()
    } else {
        let before = chosen_of(listed, marked, (n - 1) as nat);
        if marked[n - 1] {
            before.push(listed[n - 1])
        } else {
            before
        }
    }
}

/// Picks the paths that are marked, in order.
pub fn chosen(listed: &[FilePath], marked: &[bool]) -> (picked: Vec<FilePath>)
    requires
        listed@.len() == marked@.len(),
    ensures
        paths_view(picked@) == chosen_of(paths_view(listed@), marked@, listed@.len()),
{
    let ghost all = paths_view(listed@);
    let mut picked: Vec<FilePath> = Vec::new();
    let mut at: usize = 0;
    assert(paths_view(picked@) =~= Seq::empty());
    while at < listed.len()
        invariant
            all == paths_view(listed@),
            listed@.len() == marked@.len(),
            at <= listed@.len(),
            paths_view(picked@) == chosen_of(all, marked@, at as nat),
        decreases listed@.len() - at,
    {
        let ghost before = paths_view(picked@);
        if marked[at] {
            picked.push(listed[at].clone());
            assert(paths_view(picked@) =~= before.push(all[at as int]));
        }
        at += 1;
    }
    picked
}

/// Where one of the application's files is, under the home directory.
pub open spec fn data_path(home: Seq<u8>, name: Seq<char>) -> Seq<u8> {
    path_joined(
        path_joined(home, encode_utf8("Library/Application Support/Nuvi"@)),
        encode_utf8(name),
    )
}

/// Finds one of the application's files, if there is a home directory.
pub fn data_file(home: Option<FilePath>, name: &str) -> (file: Option<FilePath>)
    ensures
        match home {
            Some(home) => path_view(file) == Some(data_path(home@, name@)),
            None => file is None,
        },
{
    match home {
        Some(home) => Some(
            home.join(&FilePath::new("Library/Application Support/Nuvi")).join(&FilePath::new(name)),
        ),
        None => None,
    }
}

/// Whether a file can be executed: a plain file that someone may execute, going by
/// the bits of its mode.
pub fn is_executable_file(is_file: bool, mode: u32) -> (executable: bool)
    ensures
        executable == (is_file && mode & 0o111 != 0),
{
    is_file && mode & 0o111 != 0
}

impl Parts {
    fn start(&self, Ghost(path): Ghost<Seq<u8>>) -> (bytes: Vec<u8>)
        requires
            self.part(path),
        ensures
            bytes@ == start_of(path),
    {
        let mut bytes: Vec<u8> = Vec::new();
        if self.rooted {
            bytes.push(SLASH);
        }
        assert(bytes@ =~= start_of(path));
        bytes
    }
}

impl Clone for FilePath {
    fn clone(&self) -> (copy: Self)
        ensures
            copy@ == self@,
    {
        let bytes = vstd::slice::slice_to_vec(self.bytes.as_slice());
        FilePath { bytes }
    }
}

impl PartialEq for FilePath {
    fn eq(&self, other: &FilePath) -> (same: bool) {
        self.same_path(other)
    }
}

impl vstd::std_specs::cmp::PartialEqSpecImpl for FilePath {
    open spec fn obeys_eq_spec() -> bool {
        true
    }

    open spec fn eq_spec(&self, other: &FilePath) -> bool {
        components_of(self@) == components_of(other@)
    }
}

impl Eq for FilePath {

}

/// The steps among pieces do not depend on the pieces after them.
proof fn lemma_steps_of_prefix(front: Seq<Seq<u8>>, pieces: Seq<Seq<u8>>, n: nat)
    requires
        n <= front.len() <= pieces.len(),
        forall|i: int| 0 <= i < n ==> #[trigger] front[i] == pieces[i],
    ensures
        steps_to(front, n) == steps_to(pieces, n),
    decreases n,
{
    if n > 0 {
        lemma_steps_of_prefix(front, pieces, (n - 1) as nat);
        assert(front[n - 1] == pieces[n - 1]);
    }
}

/// A piece that is a step is listed among the steps.
proof fn lemma_steps_are_all(pieces: Seq<Seq<u8>>, n: nat, k: int)
    requires
        n <= pieces.len(),
        0 <= k < n,
        is_step(pieces[k], k),
    ensures
        exists|i: int| 0 <= i < steps_to(pieces, n).len() && #[trigger] steps_to(pieces, n)[i] == k,
    decreases n,
{
    let now = steps_to(pieces, n);
    if k == n - 1 {
        assert(now[now.len() - 1] == k);
    } else {
        lemma_steps_are_all(pieces, (n - 1) as nat, k);
        let before = steps_to(pieces, (n - 1) as nat);
        let i = choose|i: int| 0 <= i < before.len() && #[trigger] before[i] == k;
        assert(now[i] == k);
    }
}

/// Pieces after the last step are no steps.
proof fn lemma_no_steps_after(pieces: Seq<Seq<u8>>, n: nat, m: nat)
    requires
        m <= n <= pieces.len(),
        forall|i: int| m <= i < n ==> !is_step(#[trigger] pieces[i], i),
    ensures
        steps_to(pieces, n) == steps_to(pieces, m),
    decreases n,
{
    if n > m {
        lemma_no_steps_after(pieces, (n - 1) as nat, m);
    }
}

/// Stringing pieces together and cutting them apart again gives the pieces back.
proof fn lemma_pieces_come_back(pieces: Seq<Seq<u8>>)
    requires
        pieces.len() > 0,
        forall|i: int| 0 <= i < pieces.len() ==> !(#[trigger] pieces[i]).contains(SLASH),
    ensures
        pieces_of(text::joined(pieces, root())) == pieces,
{
    text::lemma_split_joined(pieces, SLASH);
}

/// No piece of a path holds a slash.
proof fn lemma_pieces_hold_no_slash(path: Seq<u8>)
    ensures
        forall|i: int| 0 <= i < pieces_of(path).len() ==> !(#[trigger] pieces_of(path)[i]).contains(
            SLASH,
        ),
    decreases path.len(),
{
    if path.len() > 0 {
        lemma_pieces_hold_no_slash(path.drop_last());
        text::lemma_split_has_pieces(path.drop_last(), SLASH);
        let before = pieces_of(path.drop_last());
        let now = pieces_of(path);
        assert forall|i: int| 0 <= i < now.len() implies !(#[trigger] now[i]).contains(SLASH) by {
            if path.last() == SLASH {
                if i < before.len() {
                    assert(now[i] == before[i]);
                }
            } else if i < before.len() - 1 {
                assert(now[i] == before[i]);
            } else {
                let piece = before.last();
                assert(!piece.contains(SLASH));
                assert(now[i] == piece.push(path.last()));
                assert forall|k: int| 0 <= k < now[i].len() implies now[i][k] != SLASH by {
                    if k < piece.len() {
                        assert(piece.contains(piece[k]));
                    }
                }
            }
        }
    }
}

/// The first piece of a path is empty exactly when it starts at the root or nowhere.
proof fn lemma_first_piece(path: Seq<u8>)
    ensures
        pieces_of(path)[0].len() == 0 <==> path.len() == 0 || is_rooted(path),
        is_rooted(path) ==> pieces_of(path).len() > 1,
        !is_rooted(path) && path.len() > 0 ==> pieces_of(path)[0][0] == path[0],
    decreases path.len(),
{
    text::lemma_split_has_pieces(path, SLASH);
    if path.len() > 0 {
        lemma_first_piece(path.drop_last());
        text::lemma_split_has_pieces(path.drop_last(), SLASH);
        if path.len() == 1 {
            assert(path.drop_last() =~= Seq::empty());
            assert(pieces_of(path.drop_last()) =~= seq![Seq::empty()]);
        } else {
            assert(path.drop_last()[0] == path[0]);
        }
    }
}

/// The path up to its last step leads through the same names.
proof fn lemma_path_to_last_step(path: Seq<u8>)
    requires
        steps_of(path).len() > 0,
    ensures
        components_of(text::joined(pieces_of(path).take(steps_of(path).last() + 1), root()))
            == components_of(path),
{
    let pieces = pieces_of(path);
    let steps = steps_of(path);
    let k = steps.last();
    lemma_steps_in_order(pieces, pieces.len());
    let front = pieces.take(k + 1);
    let short = text::joined(front, root());
    lemma_pieces_hold_no_slash(path);
    assert forall|i: int| 0 <= i < front.len() implies !(#[trigger] front[i]).contains(SLASH) by {
        assert(front[i] == pieces[i]);
    }
    lemma_pieces_come_back(front);
    lemma_steps_of_prefix(front, pieces, (k + 1) as nat);
    assert forall|i: int| k + 1 <= i < pieces.len() implies !is_step(#[trigger] pieces[i], i) by {
        if is_step(pieces[i], i) {
            lemma_steps_are_all(pieces, pieces.len(), i);
            let at = choose|at: int| 0 <= at < steps.len() && #[trigger] steps[at] == i;
            assert(steps[at] == i);
        }
    }
    lemma_no_steps_after(pieces, pieces.len(), (k + 1) as nat);
    assert(steps_of(short) == steps);
    lemma_first_piece(path);
    lemma_first_piece(short);
    assert(front[0] == pieces[0]);
    assert(steps_of(Seq::<u8>::empty()).len() == 0) by {
        assert(pieces_of(Seq::<u8>::empty()) =~= seq![Seq::<u8>::empty()]);
        assert(steps_to(seq![Seq::<u8>::empty()], 0).len() == 0);
    }
    assert(short.len() > 0) by {
        if short.len() == 0 {
            assert(short =~= Seq::empty());
        }
    }
    assert(path.len() > 0) by {
        if path.len() == 0 {
            assert(path =~= Seq::empty());
        }
    }
    assert(is_rooted(short) == is_rooted(path));
    assert(names_of(short) =~= names_of(path));
}

/// The parent of a file in a directory is that directory, and its name is the one that
/// it was given.
pub proof fn law_parent_undoes_join(directory: Seq<u8>, name: Seq<u8>)
    requires
        directory.len() > 0,
        name.len() > 0,
        !name.contains(SLASH),
        name != seq![DOT],
    ensures
        parent_of(path_joined(directory, name)) is Some,
        components_of(parent_of(path_joined(directory, name))->0) == components_of(directory),
        name != seq![DOT, DOT] ==> file_name_of(path_joined(directory, name)) == Some(name),
{
    let path = path_joined(directory, name);
    assert(name.contains(name[0]));
    let bare = if directory.last() == SLASH {
        directory.drop_last()
    } else {
        directory
    };
    assert(path =~= bare.push(SLASH) + name);
    let before = pieces_of(bare);
    let pieces = pieces_of(path);
    let n = before.len();
    text::lemma_split_last_piece(bare, SLASH, name);
    text::lemma_split_has_pieces(bare, SLASH);
    assert(pieces == before.push(name));
    lemma_steps_of_prefix(before, pieces, n);
    assert(is_step(pieces[n as int], n as int));
    let steps = steps_of(bare);
    assert(steps_of(path) == steps.push(n as int));
    assert(names_of(path).last() == name);
    lemma_steps_in_order(before, n);
    if directory.last() == SLASH {
        let longer = pieces_of(directory);
        assert(longer == before.push(Seq::empty()));
        lemma_steps_of_prefix(before, longer, n);
        assert(steps_of(directory) == steps);
        assert(names_of(directory) =~= names_of(bare));
    }
    if steps.len() == 0 {
        assert(names_of(directory) =~= Seq::empty());
        let start = start_of(path);
        lemma_first_piece(bare);
        assert(!is_step(before[0], 0)) by {
            if is_step(before[0], 0) {
                lemma_steps_are_all(before, n, 0);
            }
        }
        assert(is_rooted(directory));
        assert(is_rooted(path));
        assert(pieces_of(start) =~= seq![Seq::<u8>::empty(), Seq::<u8>::empty()]) by {
            assert(start.drop_last() =~= Seq::empty());
            assert(pieces_of(start.drop_last()) =~= seq![Seq::<u8>::empty()]);
        }
        assert(steps_to(pieces_of(start), 0).len() == 0);
        assert(steps_to(pieces_of(start), 1).len() == 0);
        assert(steps_to(pieces_of(start), 2).len() == 0);
        assert(names_of(start) =~= Seq::empty());
    } else {
        let k = steps.last();
        let all = steps_of(path);
        assert(all[all.len() - 2] == k);
        assert(pieces.take(k + 1) =~= before.take(k + 1));
        lemma_path_to_last_step(bare);
        assert(bare.len() > 0) by {
            if bare.len() == 0 {
                assert(bare =~= Seq::empty());
                assert(before =~= seq![Seq::<u8>::empty()]);
                assert(steps_to(before, 0).len() == 0);
            }
        }
        assert(is_rooted(bare) == is_rooted(directory));
    }
}

/// The names among the first `n` pieces.
spec fn names_to(pieces: Seq<Seq<u8>>, n: nat) -> Seq<Seq<u8>> {
    Seq::new(steps_to(pieces, n).len(), |i: int| pieces[steps_to(pieces, n)[i]])
}

proof fn lemma_names_step(pieces: Seq<Seq<u8>>, n: nat)
    requires
        0 < n <= pieces.len(),
    ensures
        names_to(pieces, n) == if is_step(pieces[n - 1], n - 1) {
            names_to(pieces, (n - 1) as nat).push(pieces[n - 1])
        } else {
            names_to(pieces, (n - 1) as nat)
        },
{
    let before = names_to(pieces, (n - 1) as nat);
    if is_step(pieces[n - 1], n - 1) {
        assert(names_to(pieces, n) =~= before.push(pieces[n - 1]));
    } else {
        assert(names_to(pieces, n) =~= before);
    }
}

proof fn lemma_names_front(a: Seq<Seq<u8>>, b: Seq<Seq<u8>>, n: nat)
    requires
        n <= a.len(),
    ensures
        names_to(a + b, n) == names_to(a, n),
    decreases n,
{
    if n > 0 {
        lemma_names_front(a, b, (n - 1) as nat);
        lemma_names_step(a, n);
        lemma_names_step(a + b, n);
        assert((a + b)[n - 1] == a[n - 1]);
    } else {
        assert(names_to(a + b, 0) =~= names_to(a, 0));
    }
}

proof fn lemma_names_parts(a: Seq<Seq<u8>>, b: Seq<Seq<u8>>, n: nat)
    requires
        a.len() > 0,
        n <= b.len(),
    ensures
        names_to(a + b, a.len() + n) == names_to(a, a.len()) + names_to(
            seq![Seq::<u8>::empty()] + b,
            1 + n,
        ),
    decreases n,
{
    let one = seq![Seq::<u8>::empty()];
    let first = names_to(a, a.len());
    if n == 0 {
        lemma_names_front(a, b, a.len());
        lemma_names_step(one + b, 1);
        assert((one + b)[0] == Seq::<u8>::empty());
        assert(names_to(one + b, 0) =~= Seq::empty());
        assert(first + names_to(one + b, 1) =~= first);
    } else {
        lemma_names_parts(a, b, (n - 1) as nat);
        lemma_names_step(a + b, a.len() + n);
        lemma_names_step(one + b, 1 + n);
        assert((a + b)[a.len() + n - 1] == b[n - 1]);
        assert((one + b)[1 + n - 1] == b[n - 1]);
        assert(names_to(a + b, a.len() + n) =~= first + names_to(one + b, 1 + n));
    }
}

/// A path leads through what stands before a slash, and then through what a path from the
/// root that goes on like it leads through.
pub proof fn law_paths_lead_through_their_parts(front: Seq<u8>, back: Seq<u8>)
    ensures
        names_of(front.push(SLASH) + back) == names_of(front) + names_of(seq![SLASH] + back),
{
    let none = Seq::<u8>::empty();
    text::lemma_split_at_separator(front, SLASH, back);
    text::lemma_split_at_separator(none, SLASH, back);
    text::lemma_split_has_pieces(front, SLASH);
    assert(none.push(SLASH) + back =~= seq![SLASH] + back);
    assert(pieces_of(none) =~= seq![none]);
    let a = pieces_of(front);
    let b = pieces_of(back);
    lemma_names_parts(a, b, b.len());
    assert(names_of(front.push(SLASH) + back) == names_to(a + b, a.len() + b.len()));
    assert(names_of(seq![SLASH] + back) == names_to(seq![none] + b, 1 + b.len()));
}

/// What holds no slash is a name, if it is anything. After a slash `.` is none.
pub proof fn law_names_stand_between_slashes(name: Seq<u8>)
    requires
        !name.contains(SLASH),
    ensures
        name.len() > 0 ==> names_of(name) == seq![name],
        names_of(Seq::empty()) == Seq::<Seq<u8>>::empty(),
        name.len() > 0 && name != seq![0x2eu8] ==> names_of(seq![SLASH] + name) == seq![name],
        name.len() == 0 || name == seq![0x2eu8] ==> names_of(seq![SLASH] + name) == Seq::<
            Seq<u8>,
        >::empty(),
{
    let none = Seq::<u8>::empty();
    text::lemma_split_last_piece(none, SLASH, name);
    assert(none.push(SLASH) + name =~= seq![SLASH] + name);
    assert(pieces_of(none) =~= seq![none]);
    assert(pieces_of(name) =~= seq![name]);
    let rooted = pieces_of(seq![SLASH] + name);
    assert(rooted =~= seq![none, name]);
    lemma_names_step(seq![name], 1);
    assert(names_to(seq![name], 0) =~= Seq::empty());
    lemma_names_step(seq![none], 1);
    assert(names_to(seq![none], 0) =~= Seq::empty());
    lemma_names_step(rooted, 1);
    lemma_names_step(rooted, 2);
    assert(names_to(rooted, 0) =~= Seq::empty());
    assert(names_of(name) =~= names_to(seq![name], 1));
    assert(names_of(none) =~= names_to(seq![none], 1));
    assert(names_of(seq![SLASH] + name) =~= names_to(rooted, 2));
}

/// Joined to a path, a path that starts at the root stands alone. Another one comes after
/// it, and a path through both leads through the names of both.
pub proof fn law_joined_paths_lead_through_both(path: Seq<u8>, added: Seq<u8>)
    ensures
        is_rooted(added) ==> path_joined(path, added) == added,
        !is_rooted(added) && path.len() == 0 ==> path_joined(path, added) == added,
        !is_rooted(added) && path.len() > 0 ==> {
            &&& is_rooted(path_joined(path, added)) == is_rooted(path)
            &&& names_of(path_joined(path, added)) == names_of(path) + names_of(
                seq![SLASH] + added,
            )
        },
{
    if !is_rooted(added) {
        if path.len() == 0 {
            assert(path + added =~= added);
        } else if path.last() != SLASH {
            law_paths_lead_through_their_parts(path, added);
        } else {
            let bare = path.drop_last();
            assert(path =~= bare.push(SLASH));
            law_paths_lead_through_their_parts(bare, added);
            law_paths_lead_through_their_parts(bare, Seq::empty());
            law_names_stand_between_slashes(Seq::empty());
            assert(bare.push(SLASH) + Seq::<u8>::empty() =~= path);
            assert(seq![SLASH] + Seq::<u8>::empty() =~= seq![SLASH]);
            assert(names_of(path) =~= names_of(bare));
            assert(path + added =~= bare.push(SLASH) + added);
        }
    }
}

/// The name that a path leads to is the last one that it leads through, unless that is `.`
/// or `..`.
pub proof fn law_file_names_come_last(path: Seq<u8>)
    ensures
        names_of(path).len() == 0 ==> file_name_of(path) is None,
        names_of(path).len() > 0 ==> {
            let last = names_of(path).last();
            if last == seq![0x2eu8] || last == seq![0x2eu8, 0x2eu8] {
                file_name_of(path) is None
            } else {
                file_name_of(path) == Some(last)
            }
        },
{
}

/// Whether the last thing that a path spells out is a name that it leads to.
pub open spec fn ends_in_name(path: Seq<u8>) -> bool {
    exists|front: Seq<u8>, name: Seq<u8>|
        {
            &&& name.len() > 0
            &&& !name.contains(SLASH)
            &&& name != seq![0x2eu8]
            &&& path == #[trigger] (front.push(SLASH) + name)
        }
}

proof fn lemma_last_piece_is_step(path: Seq<u8>)
    requires
        ends_in_name(path),
    ensures
        steps_of(path).len() > 0,
        steps_of(path).last() == pieces_of(path).len() - 1,
{
    let (front, name) = choose|front: Seq<u8>, name: Seq<u8>|
        {
            &&& name.len() > 0
            &&& !name.contains(SLASH)
            &&& name != seq![0x2eu8]
            &&& path == #[trigger] (front.push(SLASH) + name)
        };
    text::lemma_split_last_piece(front, SLASH, name);
    text::lemma_split_has_pieces(front, SLASH);
    let pieces = pieces_of(path);
    assert(is_step(pieces[pieces.len() - 1], pieces.len() - 1));
}

/// The folder of a file in a folder is spelled as that folder is.
pub proof fn law_parents_are_spelled_alike(folder: Seq<u8>, name: Seq<u8>)
    requires
        ends_in_name(folder),
        name.len() > 0,
        !name.contains(SLASH),
        name != seq![0x2eu8],
    ensures
        parent_of(folder.push(SLASH) + name) == Some(folder),
        steps_of(folder.push(SLASH) + name) == steps_of(folder).push(pieces_of(folder).len() as int),
{
    let path = folder.push(SLASH) + name;
    lemma_last_piece_is_step(folder);
    text::lemma_split_last_piece(folder, SLASH, name);
    text::lemma_split_has_pieces(folder, SLASH);
    let before = pieces_of(folder);
    let pieces = pieces_of(path);
    lemma_steps_of_prefix(before, pieces, before.len());
    let steps = steps_of(folder);
    assert(is_step(pieces[before.len() as int], before.len() as int));
    assert(steps_of(path) == steps.push(before.len() as int));
    assert(pieces.take(steps.last() + 1) =~= before);
    text::law_cutting_loses_nothing(folder, SLASH);
}

/// The path to a single name is in the root or nowhere.
pub proof fn law_first_names_are_at_the_start(name: Seq<u8>)
    requires
        name.len() > 0,
        !name.contains(SLASH),
        name != seq![0x2eu8],
    ensures
        parent_of(name) == Some(Seq::<u8>::empty()),
        parent_of(seq![SLASH] + name) == Some(seq![SLASH]),
        parent_of(seq![SLASH]) is None,
        parent_of(Seq::empty()) is None,
{
    let none = Seq::<u8>::empty();
    text::lemma_split_last_piece(none, SLASH, name);
    text::lemma_split_last_piece(none, SLASH, none);
    assert(none.push(SLASH) + name =~= seq![SLASH] + name);
    assert(none.push(SLASH) + none =~= seq![SLASH]);
    assert(pieces_of(none) =~= seq![none]);
    assert(name.contains(name[0]));
    assert(steps_to(seq![name], 0) =~= Seq::empty());
    assert(steps_of(name).len() == 1);
    let rooted = pieces_of(seq![SLASH] + name);
    assert(rooted =~= seq![none, name]);
    assert(steps_to(rooted, 0) =~= Seq::empty());
    assert(steps_to(rooted, 1) =~= Seq::empty());
    assert(steps_of(seq![SLASH] + name).len() == 1);
    let bare = pieces_of(seq![SLASH]);
    assert(bare =~= seq![none, none]);
    assert(steps_to(bare, 0) =~= Seq::empty());
    assert(steps_to(bare, 1) =~= Seq::empty());
    assert(steps_to(bare, 2) =~= Seq::empty());
    assert(steps_to(seq![none], 0) =~= Seq::empty());
    assert(steps_to(seq![none], 1) =~= Seq::empty());
}

/// A path is within another one exactly when it leads through the same names first, from the
/// same start. Every path is within the one that leads nowhere.
pub proof fn law_within_is_a_matter_of_names(path: Seq<u8>, base: Seq<u8>, more: Seq<Seq<u8>>)
    ensures
        names_of(path) == names_of(base) + more && is_rooted(path) == is_rooted(base) ==> is_within(
            path,
            base,
        ),
        is_within(path, base) && (is_rooted(base) || names_of(base).len() > 0) ==> is_rooted(path)
            == is_rooted(base) && names_of(path) == names_of(base) + names_of(path).skip(
            names_of(base).len() as int,
        ),
        !is_rooted(base) && names_of(base).len() == 0 ==> is_within(path, base),
{
    let first = names_of(base);
    if names_of(path) == first + more {
        assert(names_of(path).take(first.len() as int) =~= first);
    }
    if is_within(path, base) && (is_rooted(base) || first.len() > 0) {
        assert(names_of(path) =~= first + names_of(path).skip(first.len() as int));
    }
}

/// What is left of a path after a folder that it is in is what stands after that folder.
pub proof fn law_what_is_left_after_a_folder(folder: Seq<u8>, name: Seq<u8>)
    requires
        ends_in_name(folder),
        name.len() > 0,
        !name.contains(SLASH),
        name != seq![0x2eu8],
    ensures
        is_within(folder, folder),
        rest_within(folder, folder) == Seq::<u8>::empty(),
        is_within(folder.push(SLASH) + name, folder),
        rest_within(folder.push(SLASH) + name, folder) == name,
{
    let path = folder.push(SLASH) + name;
    lemma_last_piece_is_step(folder);
    law_parents_are_spelled_alike(folder, name);
    law_paths_lead_through_their_parts(folder, name);
    law_names_stand_between_slashes(name);
    text::lemma_split_last_piece(folder, SLASH, name);
    text::lemma_split_has_pieces(folder, SLASH);
    let count = pieces_of(folder).len() as int;
    let first = names_of(folder);
    assert(first.len() == steps_of(folder).len());
    assert(first.take(first.len() as int) =~= first);
    assert(names_of(path).take(first.len() as int) =~= first);
    assert(folder.len() > 0);
    assert(is_rooted(path) == is_rooted(folder));
    let steps = steps_of(path);
    assert(steps[first.len() as int] == count);
    assert(steps.last() == count);
    assert(pieces_of(path).subrange(count, count + 1) =~= seq![name]);
    assert(rest_within(path, folder) =~= name);
}

proof fn lemma_chosen_front(
    a: Seq<Seq<u8>>,
    b: Seq<Seq<u8>>,
    first: Seq<bool>,
    second: Seq<bool>,
    n: nat,
)
    requires
        n <= a.len() == first.len(),
    ensures
        chosen_of(a + b, first + second, n) == chosen_of(a, first, n),
    decreases n,
{
    if n > 0 {
        lemma_chosen_front(a, b, first, second, (n - 1) as nat);
        assert((a + b)[n - 1] == a[n - 1]);
        assert((first + second)[n - 1] == first[n - 1]);
    }
}

proof fn lemma_chosen_parts(
    a: Seq<Seq<u8>>,
    b: Seq<Seq<u8>>,
    first: Seq<bool>,
    second: Seq<bool>,
    n: nat,
)
    requires
        a.len() == first.len(),
        n <= b.len() == second.len(),
    ensures
        chosen_of(a + b, first + second, a.len() + n) == chosen_of(a, first, a.len()) + chosen_of(
            b,
            second,
            n,
        ),
    decreases n,
{
    let start = chosen_of(a, first, a.len());
    if n == 0 {
        lemma_chosen_front(a, b, first, second, a.len());
        assert(start + chosen_of(b, second, 0) =~= start);
    } else {
        lemma_chosen_parts(a, b, first, second, (n - 1) as nat);
        assert((a + b)[a.len() + n - 1] == b[n - 1]);
        assert((first + second)[a.len() + n - 1] == second[n - 1]);
        assert(chosen_of(a + b, first + second, a.len() + n) =~= start + chosen_of(b, second, n));
    }
}

/// Of a list the paths that are marked are picked, and no others, in order.
pub proof fn law_marked_paths_are_picked_in_order(
    a: Seq<Seq<u8>>,
    b: Seq<Seq<u8>>,
    first: Seq<bool>,
    second: Seq<bool>,
    path: Seq<u8>,
)
    requires
        a.len() == first.len(),
        b.len() == second.len(),
    ensures
        chosen_of(a + b, first + second, (a + b).len()) == chosen_of(a, first, a.len()) + chosen_of(
            b,
            second,
            b.len(),
        ),
        chosen_of(seq![path], seq![true], 1) == seq![path],
        chosen_of(seq![path], seq![false], 1) == Seq::<Seq<u8>>::empty(),
{
    lemma_chosen_parts(a, b, first, second, b.len());
    assert(chosen_of(seq![path], seq![true], 0) =~= Seq::empty());
    assert(chosen_of(seq![path], seq![false], 0) =~= Seq::empty());
    assert(seq![path][0] == path);
    assert(chosen_of(seq![path], seq![true], 1) =~= seq![path]);
}

/// The application's files are all in one folder of the home directory, which is not that
/// directory itself, and each is the one with its own name in it.
pub proof fn law_files_are_kept_in_one_folder(home: Seq<u8>, name: Seq<char>)
    requires
        home.len() > 0,
        encode_utf8(name).len() > 0,
        !encode_utf8(name).contains(SLASH),
        encode_utf8(name) != seq![0x2eu8],
        encode_utf8(name) != seq![0x2eu8, 0x2eu8],
    ensures
        ({
            let folder = path_joined(home, encode_utf8("Library/Application Support/Nuvi"@));
            let file = data_path(home, name);
            &&& is_within(folder, home)
            &&& names_of(folder) == names_of(home) + names_of(
                encode_utf8("/Library/Application Support/Nuvi"@),
            )
            &&& is_rooted(file) == is_rooted(home)
            &&& names_of(file) == names_of(folder).push(encode_utf8(name))
            &&& file_name_of(file) == Some(encode_utf8(name))
        }),
{
    reveal_strlit("Library/Application Support/Nuvi");
    reveal_strlit("/Library/Application Support/Nuvi");
    let below = "Library/Application Support/Nuvi"@;
    let rooted = "/Library/Application Support/Nuvi"@;
    assert(is_ascii_chars(below));
    assert(is_ascii_chars(rooted));
    is_ascii_chars_encode_utf8(below);
    is_ascii_chars_encode_utf8(rooted);
    assert(rooted.drop_first() =~= below);
    assert(encode_utf8(rooted) =~= seq![SLASH] + encode_utf8(below));
    let folder = path_joined(home, encode_utf8(below));
    law_joined_paths_lead_through_both(home, encode_utf8(below));
    law_joined_paths_lead_through_both(folder, encode_utf8(name));
    law_within_is_a_matter_of_names(folder, home, names_of(encode_utf8(rooted)));
    law_names_stand_between_slashes(encode_utf8(name));
    assert(encode_utf8(name)[0] != SLASH);
    assert(names_of(folder) + seq![encode_utf8(name)] =~= names_of(folder).push(encode_utf8(name)));
    law_file_names_come_last(data_path(home, name));
}

proof fn lemma_steps_before(pieces: Seq<Seq<u8>>, n: nat, i: int)
    requires
        n <= pieces.len(),
        0 <= i < steps_to(pieces, n).len(),
    ensures
        0 <= steps_to(pieces, n)[i] < n,
        is_step(pieces[steps_to(pieces, n)[i]], steps_to(pieces, n)[i]),
        steps_to(pieces, steps_to(pieces, n)[i] as nat) == steps_to(pieces, n).take(i),
    decreases n,
{
    let now = steps_to(pieces, n);
    let before = steps_to(pieces, (n - 1) as nat);
    if i < before.len() {
        lemma_steps_before(pieces, (n - 1) as nat, i);
        assert(now[i] == before[i]);
        assert(now.take(i) =~= before.take(i));
    } else {
        assert(now.take(i) =~= before);
    }
}

/// What is left of a path after one that it is in leads through the rest of the names, and
/// does not start at the root. After one that leads nowhere, the whole path is left.
pub proof fn law_what_is_left_leads_on(path: Seq<u8>, base: Seq<u8>)
    requires
        is_within(path, base),
    ensures
        is_rooted(base) || names_of(base).len() > 0 ==> {
            &&& names_of(seq![SLASH] + rest_within(path, base)) == names_of(path).skip(
                names_of(base).len() as int,
            )
            &&& !is_rooted(rest_within(path, base))
        },
        !is_rooted(base) && names_of(base).len() == 0 ==> components_of(rest_within(path, base))
            == components_of(path),
        !is_rooted(base) && names_of(base).len() == 0 && ends_in_name(path) ==> rest_within(
            path,
            base,
        ) == path && rest_within(path.push(SLASH), base) == path,
{
    let pieces = pieces_of(path);
    let steps = steps_of(path);
    let first = names_of(base).len() as int;
    lemma_steps_in_order(pieces, pieces.len());
    text::lemma_split_has_pieces(path, SLASH);
    law_names_stand_between_slashes(Seq::empty());
    if first == 0 && !is_rooted(base) {
        if steps.len() == 0 {
            assert(names_of(path) =~= Seq::empty());
            if is_rooted(path) {
                assert(seq![SLASH] + Seq::<u8>::empty() =~= root());
            }
            assert(components_of(rest_within(path, base)) =~= components_of(path));
        } else {
            lemma_path_to_last_step(path);
        }
        if ends_in_name(path) {
            lemma_last_piece_is_step(path);
            text::law_cutting_loses_nothing(path, SLASH);
            assert(pieces.take(steps.last() + 1) =~= pieces);
            let longer = path.push(SLASH);
            let more = pieces_of(longer);
            assert(longer.drop_last() =~= path);
            assert(more =~= pieces.push(Seq::empty()));
            lemma_steps_of_prefix(pieces, more, pieces.len());
            assert(steps_of(longer) == steps);
            assert(more.take(steps.last() + 1) =~= pieces);
        }
    } else if steps.len() == first {
        assert(names_of(path).skip(first) =~= Seq::empty());
        assert(seq![SLASH] + Seq::<u8>::empty() =~= seq![SLASH]);
    } else {
        let from = steps[first];
        let last = steps.last();
        let front = pieces.take(from);
        let back = pieces.subrange(from, last + 1);
        let whole = pieces.take(last + 1);
        let rest = text::joined(back, root());
        lemma_steps_before(pieces, pieces.len(), first);
        lemma_path_to_last_step(path);
        lemma_first_piece(path);
        lemma_pieces_hold_no_slash(path);
        assert forall|i: int| 0 <= i < back.len() implies !(#[trigger] back[i]).contains(SLASH) by {
            assert(back[i] == pieces[from + i]);
        }
        lemma_pieces_come_back(back);
        lemma_first_piece(rest);
        assert(back[0] == pieces[from]);
        assert(is_step(pieces[from], from));
        assert(!is_rooted(rest));
        assert(from > 0) by {
            if first == 0 {
                assert(is_rooted(path));
                assert(pieces[0].len() == 0);
            } else {
                assert(steps[0] < steps[first]);
            }
        }
        assert forall|i: int| 0 <= i < front.len() implies !(#[trigger] front[i]).contains(
            SLASH,
        ) by {
            assert(front[i] == pieces[i]);
        }
        lemma_pieces_come_back(front);
        assert(whole =~= front + back);
        text::law_stringing_together_is_in_order(front, back, Seq::empty(), root());
        let start = text::joined(front, root());
        assert(text::joined(whole, root()) =~= start.push(SLASH) + rest);
        law_paths_lead_through_their_parts(start, rest);
        lemma_steps_of_prefix(front, pieces, from as nat);
        assert(steps_of(start).len() == first);
        assert(names_of(start).len() == first);
        assert(names_of(path).skip(first) =~= names_of(seq![SLASH] + rest));
    }
}

} // verus!
