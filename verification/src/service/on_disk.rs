//! Whether a catalogued path is still on this computer.
//!
//! The answer is three-valued. A path whose folder cannot be read is unknown,
//! and an unknown says nothing at all: claiming that a file was deleted when
//! nobody looked is worse than leaving the column blank.

use vstd::prelude::*;

#[allow(unused_imports)]
use crate::paths;
use crate::text;
#[allow(unused_imports)]
use crate::text::{told_of, views};

verus! {

/// Whether a path is on this computer now.
#[derive(Debug, Clone, Copy, PartialEq, Eq, Structural)]
pub enum OnDisk {
    /// Nobody could look: the containing folder could not be read.
    Unknown,
    /// The folder was read and the name was not in it.
    Absent,
    /// The folder was read and the name was in it.
    Present,
}

impl OnDisk {
    /// The wire encoding.
    pub fn as_byte(self) -> (byte: u8)
        ensures
            byte == match self {
                OnDisk::Unknown => 0u8,
                OnDisk::Absent => 1u8,
                OnDisk::Present => 2u8,
            },
    {
        match self {
            OnDisk::Unknown => 0,
            OnDisk::Absent => 1,
            OnDisk::Present => 2,
        }
    }
}

/// The absolute path of an archive member: the leading slash that archives leave
/// out, put back.
pub open spec fn local_path(member: Seq<char>) -> Seq<char> {
    "/"@ + text::trim_start(member, '/')
}

/// An archive-relative member path as a path on this computer. Tolerant of a
/// leading slash that should not be there.
pub fn to_local_path(member: &str) -> (path: String)
    ensures
        path@ == local_path(member@),
{
    let chars = text::to_chars(member);
    assert(chars@.skip(0) =~= member@);
    let start: usize = text::skip(&chars, 0, '/');
    let n: usize = chars.len();
    assert(chars@.skip(start as int) =~= chars@.subrange(start as int, n as int));
    text::joined("/", text::from_chars(&chars, start, n).as_str())
}

/// The folder a path names a thing in, as the standard library finds it.
pub uninterp spec fn parent_of(path: Seq<char>) -> Option<Seq<char>>;

/// `Path::parent` of the standard library: the path without its last component,
/// or nothing for a path that ends in a root; the same for the same path. Of a
/// plainly spelled path it is the text before the last separator.
#[verifier::external_body]
fn parent(path: &str) -> (folder: Option<String>)
    ensures
        told_of(folder) == parent_of(path@),
        paths::is_root(path@) ==> folder is None,
        paths::is_plain(path@) ==> told_of(folder) == Some(paths::folder(path@)),
{
    std::path::Path::new(path).parent().map(|p| p.to_string_lossy().into_owned())
}

/// The last component of a path, as the standard library finds it.
pub uninterp spec fn file_name_of(path: Seq<char>) -> Option<Seq<char>>;

/// `Path::file_name` of the standard library: the last component of the path, or
/// nothing where that is no name; the same for the same path. Of a plainly spelled
/// path it is the text after the last separator, unless that is `..`.
#[verifier::external_body]
fn file_name(path: &str) -> (name: Option<String>)
    ensures
        told_of(name) == file_name_of(path@),
        paths::is_root(path@) ==> name is None,
        paths::ends_in_a_name(path@) ==> told_of(name) == Some(paths::last_part(path@)),
{
    std::path::Path::new(path).file_name().map(|n| n.to_string_lossy().into_owned())
}

/// The folder to look in for an archive member, and the name to look for.
pub open spec fn place(member: Seq<char>) -> Option<(Seq<char>, Seq<char>)> {
    let path = local_path(member);
    match (parent_of(path), file_name_of(path)) {
        (Some(folder), Some(name)) => Some((folder, name)),
        _ => None,
    }
}

/// The folder to look in for an archive member, and the name to look for. A path
/// without one is the root of the filesystem, which is nothing to guess at.
pub fn where_to_look(member: &str) -> (found: Option<(String, String)>)
    ensures
        found is Some <==> place(member@) is Some,
        found matches Some((folder, name)) ==> (folder@, name@) == place(member@)->0,
        ({
            let path = local_path(member@);
            &&& paths::is_root(path) ==> found is None
            &&& paths::ends_in_a_name(path) ==> {
                &&& found matches Some((folder, name))
                &&& folder@ == paths::folder(path)
                &&& name@ == paths::last_part(path)
            }
        }),
{
    let path = to_local_path(member);
    match (parent(path.as_str()), file_name(path.as_str())) {
        (Some(folder), Some(name)) => Some((folder, name)),
        _ => None,
    }
}

/// The place of a folder in a list, or the length of the list.
pub open spec fn index_of(folders: Seq<String>, folder: Seq<char>) -> int
    decreases folders.len(),
{
    if folders.len() == 0 {
        0
    } else if folders[0]@ == folder {
        0
    } else {
        1 + index_of(folders.drop_first(), folder)
    }
}

/// A folder is found at its first place.
proof fn lemma_index(folders: Seq<String>, folder: Seq<char>, k: int)
    requires
        0 <= k <= folders.len(),
        forall|i: int| 0 <= i < k ==> (#[trigger] folders[i])@ != folder,
        k < folders.len() ==> folders[k]@ == folder,
    ensures
        index_of(folders, folder) == k,
    decreases folders.len(),
{
    if k > 0 {
        let rest = folders.drop_first();
        assert(folders[0]@ != folder);
        assert forall|i: int| 0 <= i < k - 1 implies (#[trigger] rest[i])@ != folder by {
            assert(rest[i] == folders[i + 1]);
        }
        lemma_index(rest, folder, k - 1);
    }
}

/// Find a folder in a list.
fn find(folders: &Vec<String>, folder: &str) -> (at: usize)
    ensures
        at == index_of(folders@, folder@),
        at <= folders@.len(),
        at < folders@.len() ==> folders@[at as int]@ == folder@,
        at == folders@.len() ==> forall|i: int|
            0 <= i < folders@.len() ==> (#[trigger] folders@[i])@ != folder@,
{
    let mut i: usize = 0;
    while i < folders.len()
        invariant
            i <= folders@.len(),
            forall|k: int| 0 <= k < i ==> (#[trigger] folders@[k])@ != folder@,
        decreases folders@.len() - i,
    {
        if text::same(folders[i].as_str(), folder) {
            proof {
                lemma_index(folders@, folder@, i as int);
            }
            return i;
        }
        i += 1;
    }
    proof {
        lemma_index(folders@, folder@, i as int);
    }
    i
}

/// The folders to read for the first `n` of some members: each once, in the
/// order in which they are first asked about.
pub open spec fn to_read(members: Seq<String>, n: nat) -> Seq<Seq<char>>
    decreases n,
{
    if n == 0 {
        Seq::empty()
    } else {
        let before = to_read(members, (n - 1) as nat);
        match place(members[n - 1]@) {
            None => before,
            Some((folder, _)) => if before.contains(folder) {
                before
            } else {
                before.push(folder)
            },
        }
    }
}

/// The folders to read. A listing answers for every name in it, so a pane full
/// of files is one directory read and not one per row.
pub fn folders(members: &Vec<String>) -> (folders: Vec<String>)
    ensures
        views(folders@) == to_read(members@, members@.len()),
{
    let mut folders: Vec<String> = Vec::new();
    let mut i: usize = 0;
    assert(views(folders@) =~= to_read(members@, 0));
    while i < members.len()
        invariant
            i <= members@.len(),
            views(folders@) == to_read(members@, i as nat),
        decreases members@.len() - i,
    {
        let ghost before = folders@;
        match where_to_look(members[i].as_str()) {
            None => {},
            Some((folder, _)) => {
                let at: usize = find(&folders, folder.as_str());
                if at == folders.len() {
                    proof {
                        assert(!views(before).contains(folder@)) by {
                            if views(before).contains(folder@) {
                                let k = choose|k: int|
                                    0 <= k < views(before).len() && views(before)[k] == folder@;
                                assert(before[k]@ == folder@);
                            }
                        }
                        assert(views(before.push(folder)) =~= views(before).push(folder@));
                    }
                    folders.push(folder);
                } else {
                    assert(views(before)[at as int] == folder@);
                }
            },
        }
        i += 1;
    }
    folders
}

/// No folder is read twice.
pub proof fn each_folder_is_read_once(members: Seq<String>, n: nat)
    requires
        n <= members.len(),
    ensures
        to_read(members, n).no_duplicates(),
    decreases n,
{
    if n > 0 {
        each_folder_is_read_once(members, (n - 1) as nat);
    }
}

/// The folder to look in for an archive member that has a place.
pub open spec fn folder_of(member: Seq<char>) -> Seq<char> {
    let (folder, _) = place(member)->0;
    folder
}

/// Every member's folder is read.
pub proof fn every_folder_is_read(members: Seq<String>, n: nat, i: int)
    requires
        n <= members.len(),
        0 <= i < n,
        place(members[i]@) is Some,
    ensures
        to_read(members, n).contains(folder_of(members[i]@)),
    decreases n,
{
    let before = to_read(members, (n - 1) as nat);
    let folder = folder_of(members[i]@);
    if i < n - 1 {
        every_folder_is_read(members, (n - 1) as nat, i);
        let k = choose|k: int| 0 <= k < before.len() && before[k] == folder;
        assert(to_read(members, n)[k] == folder);
    } else if !before.contains(folder) {
        assert(to_read(members, n)[before.len() as int] == folder);
    }
}

/// What the listing of a folder says of a name.
pub open spec fn seen(listing: Option<Vec<String>>, name: Seq<char>) -> OnDisk {
    match listing {
        None => OnDisk::Unknown,
        Some(names) => if views(names@).contains(name) {
            OnDisk::Present
        } else {
            OnDisk::Absent
        },
    }
}

/// What the listing of a folder says of a name. A folder that could not be read,
/// or does not exist, answers for nothing in it.
pub fn look_up(listing: &Option<Vec<String>>, name: &str) -> (answer: OnDisk)
    ensures
        answer == seen(*listing, name@),
        answer == OnDisk::Unknown <==> listing is None,
        answer == OnDisk::Present <==> (listing matches Some(names) && exists|i: int|
            0 <= i < names@.len() && (#[trigger] names@[i])@ == name@),
{
    match listing {
        None => OnDisk::Unknown,
        Some(names) => {
            let at: usize = find(names, name);
            if at < names.len() {
                assert(views(names@)[at as int] == name@);
                OnDisk::Present
            } else {
                proof {
                    if views(names@).contains(name@) {
                        let k = choose|k: int|
                            0 <= k < views(names@).len() && views(names@)[k] == name@;
                        assert(names@[k]@ == name@);
                    }
                }
                OnDisk::Absent
            }
        },
    }
}

/// What some listings say of an archive member.
pub open spec fn answered(
    member: Seq<char>,
    folders: Seq<String>,
    listings: Seq<Option<Vec<String>>>,
) -> OnDisk {
    match place(member) {
        None => OnDisk::Unknown,
        Some((folder, name)) => {
            let at = index_of(folders, folder);
            if at < folders.len() {
                seen(listings[at], name)
            } else {
                OnDisk::Unknown
            }
        },
    }
}

/// Resolve each archive-relative path to whether it is on this computer, from the
/// listings of the folders that [`folders`] asked for. Answers come in the order
/// of the questions.
pub fn resolve(
    members: &Vec<String>,
    folders: &Vec<String>,
    listings: &Vec<Option<Vec<String>>>,
) -> (answers: Vec<OnDisk>)
    requires
        folders@.len() == listings@.len(),
    ensures
        answers@.len() == members@.len(),
        forall|i: int|
            0 <= i < members@.len() ==> #[trigger] answers@[i] == answered(
                members@[i]@,
                folders@,
                listings@,
            ),
{
    let mut answers: Vec<OnDisk> = Vec::new();
    let mut i: usize = 0;
    while i < members.len()
        invariant
            i <= members@.len(),
            answers@.len() == i,
            folders@.len() == listings@.len(),
            forall|k: int|
                0 <= k < i ==> #[trigger] answers@[k] == answered(
                    members@[k]@,
                    folders@,
                    listings@,
                ),
        decreases members@.len() - i,
    {
        let answer = match where_to_look(members[i].as_str()) {
            None => OnDisk::Unknown,
            Some((folder, name)) => {
                let at: usize = find(folders, folder.as_str());
                if at < folders.len() {
                    look_up(&listings[at], name.as_str())
                } else {
                    OnDisk::Unknown
                }
            },
        };
        answers.push(answer);
        i += 1;
    }
    answers
}

/// Nobody looked, nothing is claimed: a path is called absent only where a
/// listing of its folder was read and did not hold its name.
pub proof fn absence_is_seen_and_not_guessed(
    member: Seq<char>,
    folders: Seq<String>,
    listings: Seq<Option<Vec<String>>>,
)
    requires
        answered(member, folders, listings) == OnDisk::Absent,
    ensures
        place(member) is Some,
        ({
            let (folder, name) = place(member)->0;
            let listing = listings[index_of(folders, folder)];
            listing is Some && !views(listing->0@).contains(name)
        }),
{
}

/// A member is looked for from the root, whether it was written with separators
/// before it or not.
pub proof fn a_member_is_looked_for_from_the_root(member: Seq<char>)
    ensures
        local_path(member).len() > 0,
        local_path(member)[0] == '/',
        local_path(member).len() > 1 ==> local_path(member)[1] != '/',
        member.len() == 0 || member[0] != '/' ==> local_path(member) == seq!['/'] + member,
        local_path(seq!['/'] + member) == local_path(member),
{
    reveal_strlit("/");
    let prefix = "/"@;
    assert(prefix =~= seq!['/']);
    assert((seq!['/'] + member).drop_first() =~= member);
    lemma_begins_no_more(member);
    let rest = text::trim_start(member, '/');
    assert(local_path(member) =~= seq!['/'] + rest);
}

/// What has been trimmed does not begin with what was taken off.
proof fn lemma_begins_no_more(member: Seq<char>)
    ensures
        text::trim_start(member, '/').len() > 0 ==> text::trim_start(member, '/')[0] != '/',
    decreases member.len(),
{
    if member.len() > 0 && member[0] == '/' {
        lemma_begins_no_more(member.drop_first());
    }
}

/// What is claimed of a member was read in the listing of its own folder: it is
/// there where its name is in that listing, gone where the listing has been read
/// and the name is not in it, and unknown where nobody could look.
pub proof fn what_is_claimed_was_read(
    member: Seq<char>,
    folders: Seq<String>,
    listings: Seq<Option<Vec<String>>>,
    k: int,
)
    requires
        place(member) is Some,
        0 <= k < folders.len(),
        folders[k]@ == folder_of(member),
        forall|i: int| 0 <= i < k ==> (#[trigger] folders[i])@ != folder_of(member),
    ensures
        listings[k] is None <==> answered(member, folders, listings) == OnDisk::Unknown,
        answered(member, folders, listings) == OnDisk::Present <==> (listings[k] matches Some(
            names,
        ) && views(names@).contains((place(member)->0).1)),
        answered(member, folders, listings) == OnDisk::Absent <==> (listings[k] matches Some(
            names,
        ) && !views(names@).contains((place(member)->0).1)),
{
    lemma_index(folders, folder_of(member), k);
}

/// Of a member without a place, or whose folder nobody read, nothing is claimed.
pub proof fn what_nobody_read_is_unknown(
    member: Seq<char>,
    folders: Seq<String>,
    listings: Seq<Option<Vec<String>>>,
)
    requires
        place(member) is Some ==> forall|i: int|
            0 <= i < folders.len() ==> (#[trigger] folders[i])@ != folder_of(member),
    ensures
        answered(member, folders, listings) == OnDisk::Unknown,
{
    if place(member) is Some {
        lemma_index(folders, folder_of(member), folders.len() as int);
    }
}

} // verus!
