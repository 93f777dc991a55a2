//! The folders that were opened last, and how paths are shown.

use crate::paths;
use crate::paths::FilePath;
use crate::text;
use vstd::prelude::*;
use vstd::string::*;
use vstd::utf8::*;

verus! {

/// How many folders are remembered.
pub const MAX_RECENTS: usize = 8;

/// The name of a workspace: that of its folder, if it has one that is UTF-8.
pub open spec fn name_of(path: Seq<u8>) -> Seq<char> {
    match paths::file_name_of(path) {
        Some(name) => if valid_utf8(name) {
            decode_utf8(name)
        } else {
            "Workspace"@
        },
        None => "Workspace"@,
    }
}

/// Names a workspace after its folder.
pub fn workspace_name(path: &FilePath) -> (name: String)
    ensures
        name@ == name_of(path@),
{
    match path.file_name() {
        Some(name) => match text::strict(name) {
            Some(name) => name,
            None => "Workspace".to_owned(),
        },
        None => "Workspace".to_owned(),
    }
}

/// What is shown for the folder that a path is in. The home directory is written
/// as `~`.
pub open spec fn shown_parent(path: Seq<u8>, home: Option<Seq<u8>>) -> Seq<char> {
    let parent = match paths::parent_of(path) {
        Some(parent) => parent,
        None => path,
    };
    match home {
        Some(home) => if paths::is_within(parent, home) {
            let rest = paths::rest_within(parent, home);
            if rest.len() == 0 {
                "~"@
            } else {
                "~/"@ + text::lossy_text(rest)
            }
        } else {
            text::lossy_text(parent)
        },
        None => text::lossy_text(parent),
    }
}

/// Writes the folder that a path is in, for people to read.
pub fn display_parent(path: &FilePath, home: Option<FilePath>) -> (shown: String)
    ensures
        shown@ == shown_parent(path@, paths::path_view(home)),
{
    let parent = match path.parent() {
        Some(parent) => parent,
        None => path.clone(),
    };
    if let Some(home) = home {
        if let Some(rest) = parent.strip_prefix(&home) {
            if rest.bytes.len() == 0 {
                return "~".to_owned();
            }
            let mut shown = "~/".to_owned();
            let inner = rest.display();
            shown.append(inner.as_str());
            return shown;
        }
    }
    parent.display()
}

/// Those of the first `n` paths that lead elsewhere than a path does.
pub open spec fn others_of(recents: Seq<Seq<u8>>, path: Seq<u8>, n: nat) -> Seq<Seq<u8>>
    decreases n,
{
    if n == 0 {
        Seq::empty()
    } else {
        let before = others_of(recents, path, (n - 1) as nat);
        if paths::components_of(recents[n - 1]) == paths::components_of(path) {
            before
        } else {
            before.push(recents[n - 1])
        }
    }
}

/// The paths that lead elsewhere than a path does.
pub open spec fn others(recents: Seq<Seq<u8>>, path: Seq<u8>) -> Seq<Seq<u8>> {
    others_of(recents, path, recents.len())
}

/// The first items of a list, at most so many.
pub open spec fn at_most<T>(items: Seq<T>, limit: int) -> Seq<T> {
    if items.len() <= limit {
        items
    } else {
        items.take(limit)
    }
}

/// The folders that were opened last, after one more was opened.
pub open spec fn promoted(recents: Seq<Seq<u8>>, path: Seq<u8>, limit: int) -> Seq<Seq<u8>> {
    at_most(seq![path] + others(recents, path), limit)
}

/// Takes a path out of a list.
pub fn forget_recent(recents: &mut Vec<FilePath>, path: &FilePath)
    ensures
        paths::paths_view(final(recents)@) == others(paths::paths_view(old(recents)@), path@),
{
    let ghost all = paths::paths_view(recents@);
    let mut kept: Vec<FilePath> = Vec::new();
    let mut at: usize = 0;
    assert(paths::paths_view(kept@) =~= Seq::empty());
    while at < recents.len()
        invariant
            all == paths::paths_view(recents@),
            at <= recents@.len(),
            paths::paths_view(kept@) == others_of(all, path@, at as nat),
        decreases recents@.len() - at,
    {
        let ghost before = paths::paths_view(kept@);
        if !recents[at].same_path(path) {
            kept.push(recents[at].clone());
            assert(paths::paths_view(kept@) =~= before.push(all[at as int]));
        }
        at += 1;
    }
    *recents = kept;
}

/// Puts a path at the front of a list, which then holds it once, and no more paths
/// than a limit.
pub fn promote_recent(recents: &mut Vec<FilePath>, path: FilePath, limit: usize)
    ensures
        paths::paths_view(final(recents)@) == promoted(
            paths::paths_view(old(recents)@),
            path@,
            limit as int,
        ),
{
    let ghost all = paths::paths_view(recents@);
    forget_recent(recents, &path);
    recents.insert(0, path);
    assert(paths::paths_view(recents@) =~= seq![path@] + others(all, path@));
    let ghost longer = paths::paths_view(recents@);
    if recents.len() > limit {
        recents.truncate(limit);
        assert(paths::paths_view(recents@) =~= longer.take(limit as int));
    }
}

/// The paths that the lines of a file spell.
pub open spec fn listed_of(contents: Seq<char>) -> Seq<Seq<u8>> {
    let lines = text::lines_of(contents);
    Seq::new(lines.len(), |i: int| encode_utf8(lines[i]))
}

/// Reads the file that holds the folders that were opened last, one on a line.
pub fn listed_recents(contents: &str) -> (listed: Vec<FilePath>)
    ensures
        paths::paths_view(listed@) == listed_of(contents@),
{
    let lines = text::lines(contents);
    let ghost all = text::lines_of(contents@);
    let mut listed: Vec<FilePath> = Vec::new();
    while listed.len() < lines.len()
        invariant
            text::strings_view(lines@) == all,
            listed@.len() <= lines@.len(),
            forall|i: int|
                0 <= i < listed@.len() ==> (#[trigger] listed@[i])@ == encode_utf8(all[i]),
        decreases lines@.len() - listed@.len(),
    {
        let at: usize = listed.len();
        assert(lines@[at as int]@ == all[at as int]);
        listed.push(FilePath::new(lines[at].as_str()));
    }
    assert(paths::paths_view(listed@) =~= listed_of(contents@));
    listed
}

/// Keeps the paths that are still folders, at most as many as are remembered.
pub fn load_recents(listed: &[FilePath], is_folder: &[bool]) -> (recents: Vec<FilePath>)
    requires
        listed@.len() == is_folder@.len(),
    ensures
        paths::paths_view(recents@) == at_most(
            paths::chosen_of(paths::paths_view(listed@), is_folder@, listed@.len()),
            MAX_RECENTS as int,
        ),
{
    let mut recents = paths::chosen(listed, is_folder);
    let ghost longer = paths::paths_view(recents@);
    if recents.len() > MAX_RECENTS {
        recents.truncate(MAX_RECENTS);
        assert(paths::paths_view(recents@) =~= longer.take(MAX_RECENTS as int));
    }
    recents
}

/// Paths as texts, with replacement characters for what is not UTF-8.
pub open spec fn shown_paths(recents: Seq<Seq<u8>>) -> Seq<Seq<char>> {
    Seq::new(recents.len(), |i: int| text::lossy_text(recents[i]))
}

/// What is written to the file that holds the folders that were opened last.
pub open spec fn written_recents(recents: Seq<Seq<u8>>) -> Seq<char> {
    text::joined(shown_paths(recents), "\n"@)
}

/// Writes the folders that were opened last, one on a line.
pub fn write_recents(recents: &[FilePath]) -> (contents: String)
    ensures
        contents@ == written_recents(paths::paths_view(recents@)),
        (forall|i: int| 0 <= i < recents@.len() ==> valid_utf8((#[trigger] recents@[i])@))
            ==> contents@ == text::joined(
            Seq::new(recents@.len(), |i: int| decode_utf8(recents@[i]@)),
            "\n"@,
        ),
{
    let ghost shown = shown_paths(paths::paths_view(recents@));
    let mut lines: Vec<String> = Vec::new();
    while lines.len() < recents.len()
        invariant
            shown == shown_paths(paths::paths_view(recents@)),
            lines@.len() <= recents@.len(),
            forall|i: int| 0 <= i < lines@.len() ==> (#[trigger] lines@[i])@ == shown[i],
            forall|i: int|
                0 <= i < lines@.len() && valid_utf8(recents@[i]@) ==> (#[trigger] lines@[i])@
                    == decode_utf8(recents@[i]@),
        decreases recents@.len() - lines@.len(),
    {
        let at: usize = lines.len();
        lines.push(recents[at].display());
    }
    assert(text::strings_view(lines@) =~= shown);
    proof {
        if forall|i: int| 0 <= i < recents@.len() ==> valid_utf8((#[trigger] recents@[i])@) {
            assert forall|i: int| 0 <= i < lines@.len() implies shown[i] == decode_utf8(
                recents@[i]@,
            ) by {
                assert(lines@[i]@ == shown[i]);
                assert(valid_utf8(recents@[i]@));
            }
            assert(shown =~= Seq::new(recents@.len(), |i: int| decode_utf8(recents@[i]@)));
        }
    }
    text::join(lines.as_slice(), "\n")
}

/// The file that holds the folders that were opened last, if there is a home
/// directory.
pub fn recents_file(home: Option<FilePath>) -> (file: Option<FilePath>)
    ensures
        match home {
            Some(home) => paths::path_view(file) == Some(
                paths::data_path(home@, "recent-workspaces"@),
            ),
            None => file is None,
        },
{
    paths::data_file(home, "recent-workspaces")
}

/// The file that holds how far the editor lets the background through, if there is
/// a home directory.
pub fn editor_transparency_file(home: Option<FilePath>) -> (file: Option<FilePath>)
    ensures
        match home {
            Some(home) => paths::path_view(file) == Some(
                paths::data_path(home@, "editor-transparency"@),
            ),
            None => file is None,
        },
{
    paths::data_file(home, "editor-transparency")
}

/// Whether no two paths of a list lead to the same place.
pub open spec fn all_different(recents: Seq<Seq<u8>>) -> bool {
    forall|i: int, j: int|
        0 <= i < j < recents.len() ==> paths::components_of(#[trigger] recents[i])
            != paths::components_of(#[trigger] recents[j])
}

/// The paths that are left are paths of the list, in number and place.
pub(crate) proof fn lemma_others(recents: Seq<Seq<u8>>, path: Seq<u8>, n: nat)
    requires
        n <= recents.len(),
    ensures
        others_of(recents, path, n).len() <= n,
        forall|i: int|
            0 <= i < others_of(recents, path, n).len() ==> paths::components_of(
                #[trigger] others_of(recents, path, n)[i],
            ) != paths::components_of(path),
        forall|i: int|
            0 <= i < others_of(recents, path, n).len() ==> exists|k: int|
                0 <= k < n && #[trigger] recents[k] == #[trigger] others_of(recents, path, n)[i],
        all_different(recents) ==> all_different(others_of(recents, path, n)),
    decreases n,
{
    let now = others_of(recents, path, n);
    if n > 0 {
        lemma_others(recents, path, (n - 1) as nat);
        let before = others_of(recents, path, (n - 1) as nat);
        let last = recents[n - 1];
        if paths::components_of(last) != paths::components_of(path) {
            assert(now == before.push(last));
            assert forall|i: int| 0 <= i < now.len() implies exists|k: int|
                0 <= k < n && #[trigger] recents[k] == #[trigger] now[i] by {
                if i < before.len() {
                    let k = choose|k: int| 0 <= k < n - 1 && #[trigger] recents[k] == before[i];
                    assert(recents[k] == now[i]);
                } else {
                    assert(recents[n - 1] == now[i]);
                }
            }
            if all_different(recents) {
                assert forall|i: int, j: int| 0 <= i < j < now.len() implies paths::components_of(
                    #[trigger] now[i],
                ) != paths::components_of(#[trigger] now[j]) by {
                    let k = choose|k: int| 0 <= k < n - 1 && #[trigger] recents[k] == before[i];
                    assert(now[i] == recents[k]);
                    if j < before.len() {
                        assert(now[j] == before[j]);
                    } else {
                        assert(now[j] == recents[n - 1]);
                    }
                }
            }
        } else {
            assert(now == before);
            assert forall|i: int| 0 <= i < now.len() implies exists|k: int|
                0 <= k < n && #[trigger] recents[k] == #[trigger] now[i] by {
                let k = choose|k: int| 0 <= k < n - 1 && #[trigger] recents[k] == before[i];
                assert(recents[k] == now[i]);
            }
        }
    }
}

/// The folders that were opened last are each listed once, the newest first, and no
/// more than a limit. None is made up: all but the newest were listed before.
pub proof fn law_recents_are_unique_newest_first_and_bounded(
    recents: Seq<Seq<u8>>,
    path: Seq<u8>,
    limit: int,
)
    requires
        limit >= 0,
    ensures
        promoted(recents, path, limit).len() <= limit,
        limit > 0 ==> promoted(recents, path, limit).len() > 0 && promoted(recents, path, limit)[0]
            == path,
        all_different(recents) ==> all_different(promoted(recents, path, limit)),
        forall|i: int|
            0 < i < promoted(recents, path, limit).len() ==> recents.contains(
                #[trigger] promoted(recents, path, limit)[i],
            ),
{
    lemma_others(recents, path, recents.len());
    let rest = others(recents, path);
    let all = seq![path] + rest;
    let kept = promoted(recents, path, limit);
    assert forall|i: int| 0 < i < kept.len() implies recents.contains(#[trigger] kept[i]) by {
        assert(kept[i] == rest[i - 1]);
        let k = choose|k: int|
            0 <= k < recents.len() && #[trigger] recents[k] == rest[i - 1];
        assert(recents[k] == kept[i]);
    }
    if all_different(recents) {
        assert forall|i: int, j: int| 0 <= i < j < kept.len() implies paths::components_of(
            #[trigger] kept[i],
        ) != paths::components_of(#[trigger] kept[j]) by {
            assert(kept[j] == rest[j - 1]);
            if i > 0 {
                assert(kept[i] == rest[i - 1]);
            }
        }
    }
}

/// Reading the file that was written gives back the same paths, as long as they are
/// UTF-8 without line feeds, none but the last ends with a carriage return, and the
/// last is not empty.
pub proof fn law_recents_survive_the_file(recents: Seq<Seq<u8>>, contents: Seq<char>)
    requires
        forall|i: int| 0 <= i < recents.len() ==> valid_utf8(#[trigger] recents[i]),
        contents == text::joined(
            Seq::new(recents.len(), |i: int| decode_utf8(recents[i])),
            "\n"@,
        ),
        forall|i: int|
            0 <= i < recents.len() ==> !decode_utf8(#[trigger] recents[i]).contains('\n'),
        forall|i: int|
            0 <= i < recents.len() - 1 && decode_utf8(#[trigger] recents[i]).len() > 0
                ==> decode_utf8(recents[i]).last() != '\r',
        recents.len() > 0 ==> decode_utf8(recents.last()).len() > 0,
    ensures
        listed_of(contents) == recents,
{
    let lines = Seq::new(recents.len(), |i: int| decode_utf8(recents[i]));
    reveal_strlit("\n");
    assert("\n"@ =~= seq!['\n']);
    assert forall|i: int| 0 <= i < lines.len() implies !(#[trigger] lines[i]).contains('\n') by {
        assert(!decode_utf8(recents[i]).contains('\n'));
    }
    assert forall|i: int| 0 <= i < lines.len() - 1 && (#[trigger] lines[i]).len() > 0 implies
        lines[i].last() != '\r' by {
        assert(decode_utf8(recents[i]).len() > 0);
    }
    text::law_lines_give_back_what_was_joined(lines);
    assert forall|i: int| 0 <= i < recents.len() implies encode_utf8(#[trigger] lines[i])
        == recents[i] by {
        assert(valid_utf8(recents[i]));
        decode_utf8_encode_utf8(recents[i]);
    }
    assert(listed_of(contents) =~= recents);
}

proof fn lemma_others_front(a: Seq<Seq<u8>>, b: Seq<Seq<u8>>, path: Seq<u8>, n: nat)
    requires
        n <= a.len(),
    ensures
        others_of(a + b, path, n) == others_of(a, path, n),
    decreases n,
{
    if n > 0 {
        lemma_others_front(a, b, path, (n - 1) as nat);
        assert((a + b)[n - 1] == a[n - 1]);
    }
}

proof fn lemma_others_parts(a: Seq<Seq<u8>>, b: Seq<Seq<u8>>, path: Seq<u8>, n: nat)
    requires
        n <= b.len(),
    ensures
        others_of(a + b, path, a.len() + n) == others(a, path) + others_of(b, path, n),
    decreases n,
{
    if n == 0 {
        lemma_others_front(a, b, path, a.len());
        assert(others(a, path) + others_of(b, path, 0) =~= others(a, path));
    } else {
        lemma_others_parts(a, b, path, (n - 1) as nat);
        assert((a + b)[a.len() + n - 1] == b[n - 1]);
        assert(others_of(a + b, path, a.len() + n) =~= others(a, path) + others_of(b, path, n));
    }
}

/// A path that is taken out of a list is taken out wherever it leads through the same names
/// from the same start, and nothing else is; the others stay in order.
pub proof fn law_only_the_same_path_is_taken_out(
    a: Seq<Seq<u8>>,
    b: Seq<Seq<u8>>,
    path: Seq<u8>,
    other: Seq<u8>,
)
    ensures
        others(a + b, path) == others(a, path) + others(b, path),
        ({
            let same = paths::is_rooted(other) == paths::is_rooted(path) && paths::names_of(other)
                == paths::names_of(path);
            &&& same ==> others(seq![other], path) == Seq::<Seq<u8>>::empty()
            &&& !same ==> others(seq![other], path) == seq![other]
        }),
{
    lemma_others_parts(a, b, path, b.len());
    assert(seq![other][0] == other);
    assert(others_of(seq![other], path, 0) =~= Seq::empty());
    let same = paths::is_rooted(other) == paths::is_rooted(path) && paths::names_of(other)
        == paths::names_of(path);
    if same {
        assert(paths::components_of(other) == paths::components_of(path));
    } else {
        assert(others(seq![other], path) =~= seq![other]);
    }
}

/// A folder that is opened comes first, and then the others in the order in which they were,
/// as many as the limit leaves room for.
pub proof fn law_other_recents_move_back(
    recents: Seq<Seq<u8>>,
    path: Seq<u8>,
    limit: int,
    index: int,
)
    requires
        limit > 0,
        0 <= index < others(recents, path).len(),
    ensures
        others(recents, path).len() < limit ==> promoted(recents, path, limit).len() == others(
            recents,
            path,
        ).len() + 1,
        others(recents, path).len() >= limit ==> promoted(recents, path, limit).len() == limit,
        index + 1 < limit ==> promoted(recents, path, limit)[index + 1] == others(
            recents,
            path,
        )[index],
{
}

/// Of the folders that were read the first eight are kept.
pub proof fn law_the_first_are_kept(listed: Seq<Seq<u8>>, limit: int, index: int)
    requires
        0 <= limit,
        0 <= index < listed.len(),
    ensures
        listed.len() <= limit ==> at_most(listed, limit) == listed,
        listed.len() > limit ==> at_most(listed, limit).len() == limit,
        index < limit ==> at_most(listed, limit)[index] == listed[index],
        MAX_RECENTS == 8,
{
}

/// A workspace is named after its folder, wherever that is, if the name is UTF-8.
pub proof fn law_workspaces_are_named_after_folders(folder: Seq<u8>, name: Seq<u8>)
    requires
        folder.len() > 0,
        name.len() > 0,
        !name.contains(paths::SLASH),
        name != seq![paths::DOT],
        name != seq![paths::DOT, paths::DOT],
    ensures
        valid_utf8(name) ==> name_of(paths::path_joined(folder, name)) == decode_utf8(name),
        !valid_utf8(name) ==> name_of(paths::path_joined(folder, name)) == "Workspace"@,
        name_of(seq![paths::SLASH]) == "Workspace"@,
{
    paths::law_parent_undoes_join(folder, name);
    let none = Seq::<u8>::empty();
    paths::law_names_stand_between_slashes(none);
    assert(seq![paths::SLASH] + none =~= seq![paths::SLASH]);
}

/// A folder in the home directory is shown as `~`, one further down with what stands after
/// the home directory, and one elsewhere in full.
pub proof fn law_the_home_directory_is_shown_short(
    home: Seq<u8>,
    folder: Seq<u8>,
    name: Seq<u8>,
)
    requires
        paths::ends_in_name(home),
        folder.len() > 0,
        !folder.contains(paths::SLASH),
        folder != seq![0x2eu8],
        name.len() > 0,
        !name.contains(paths::SLASH),
        name != seq![0x2eu8],
    ensures
        shown_parent(home.push(paths::SLASH) + name, Some(home)) == seq!['~'],
        shown_parent(
            (home.push(paths::SLASH) + folder).push(paths::SLASH) + name,
            Some(home),
        ) == seq!['~', '/'] + text::lossy_text(folder),
        shown_parent(home.push(paths::SLASH) + name, None) == text::lossy_text(home),
{
    reveal_strlit("~");
    reveal_strlit("~/");
    assert("~"@ =~= seq!['~']);
    assert("~/"@ =~= seq!['~', '/']);
    let inner = home.push(paths::SLASH) + folder;
    assert(paths::ends_in_name(inner));
    paths::law_parents_are_spelled_alike(home, name);
    paths::law_parents_are_spelled_alike(inner, name);
    paths::law_what_is_left_after_a_folder(home, folder);
}

/// A folder that is not in the home directory is shown in full.
pub proof fn law_folders_elsewhere_are_shown_in_full(path: Seq<u8>, home: Seq<u8>, parent: Seq<u8>)
    requires
        paths::parent_of(path) == Some(parent),
        !paths::is_within(parent, home),
    ensures
        shown_parent(path, Some(home)) == text::lossy_text(parent),
{
}

/// A workspace goes by the name that its path leads to, if there is one and it is UTF-8. What
/// leads to no folder above it is shown itself.
pub proof fn law_names_are_those_of_paths(path: Seq<u8>, home: Seq<u8>)
    ensures
        paths::file_name_of(path) matches Some(name) ==> (valid_utf8(name) ==> name_of(path)
            == decode_utf8(name)) && (!valid_utf8(name) ==> name_of(path) == "Workspace"@),
        paths::file_name_of(path) is None ==> name_of(path) == "Workspace"@,
        paths::parent_of(path) is None ==> shown_parent(path, None) == text::lossy_text(path),
        paths::parent_of(path) is None && !paths::is_within(path, home) ==> shown_parent(
            path,
            Some(home),
        ) == text::lossy_text(path),
{
}

/// The folders that were opened last are written one on a line, in order, and none is left
/// out.
pub proof fn law_recents_are_written_line_by_line(path: Seq<u8>, recents: Seq<Seq<u8>>)
    ensures
        written_recents(Seq::empty()) == Seq::<char>::empty(),
        written_recents(seq![path]) == text::lossy_text(path),
        recents.len() > 0 ==> written_recents(seq![path] + recents) == text::lossy_text(path)
            + seq!['\n'] + written_recents(recents),
{
    reveal_strlit("\n");
    assert("\n"@ =~= seq!['\n']);
    assert(shown_paths(seq![path]) =~= seq![text::lossy_text(path)]);
    assert(shown_paths(Seq::empty()) =~= Seq::empty());
    let all = seq![path] + recents;
    if recents.len() > 0 {
        assert(shown_paths(all) =~= seq![text::lossy_text(path)] + shown_paths(recents));
        text::law_stringing_together_is_in_order(
            seq![text::lossy_text(path)],
            shown_paths(recents),
            text::lossy_text(path),
            "\n"@,
        );
    }
}

} // verus!
