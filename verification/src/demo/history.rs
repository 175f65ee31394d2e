//! The scripted month: which files there are on each day, when each snapshot is
//! dated, and what changes on disk from one day to the next.

use vstd::prelude::*;

use crate::calendar;
#[allow(unused_imports)]
use crate::calendar::{clock, days_from_civil, is_date};
use crate::paths;
use crate::text;
#[allow(unused_imports)]
use crate::text::{ascending, first_of, padded, padded_signed, sorts_before, views};

verus! {

/// Days the machine was off, counted back from today: a hole for the calendar to
/// show.
pub const FIRST_GAP_DAY: i64 = 9;

pub const LAST_GAP_DAY: i64 = 10;

/// How long before the backup the day's edits were made, in seconds.
pub const EDITED_BEFORE_BACKUP: i64 = 2_400;

/// How many days before today the `k`th daily snapshot is, the latest first. The
/// days the machine was off are stepped over.
pub open spec fn days_back(k: int) -> int {
    if k < 8 {
        k + 1
    } else {
        k + 3
    }
}

/// When snapshot `i` of `count` is dated: one a day, oldest first, and then three
/// today, two hours, one hour and ten minutes ago.
pub open spec fn snapshot_time(now: int, count: int, i: int) -> int {
    let dailies = if count < 3 {
        0
    } else {
        count - 3
    };
    if i < dailies {
        now - days_back(dailies - 1 - i) * 86_400
    } else if i - dailies == 0 {
        now - 7_200
    } else if i - dailies == 1 {
        now - 3_600
    } else {
        now - 600
    }
}

/// When each snapshot was taken, oldest first.
pub fn schedule(now: i64, count: usize) -> (times: Vec<i64>)
    requires
        now - (count + 3) * 86_400 >= i64::MIN,
    ensures
        times@.len() == count,
        forall|i: int|
            0 <= i < count ==> #[trigger] times@[i] == snapshot_time(now as int, count as int, i),
{
    let mut times: Vec<i64> = Vec::new();
    let dailies: usize = if count < 3 {
        0
    } else {
        count - 3
    };
    let mut i: usize = 0;
    while i < dailies
        invariant
            i <= dailies,
            dailies == if count < 3 {
                0
            } else {
                count - 3
            },
            now - (count + 3) * 86_400 >= i64::MIN,
            times@.len() == i,
            forall|k: int|
                0 <= k < i ==> #[trigger] times@[k] == snapshot_time(
                    now as int,
                    count as int,
                    k,
                ),
        decreases dailies - i,
    {
        let k: usize = dailies - 1 - i;
        let back: i128 = if k < 8 {
            k as i128 + 1
        } else {
            k as i128 + 3
        };
        let at: i128 = now as i128 - back * 86_400;
        assert(back <= count + 3);
        times.push(at as i64);
        i += 1;
    }
    if count > dailies {
        times.push(now - 7_200);
    }
    if count > dailies + 1 {
        times.push(now - 3_600);
    }
    if count > dailies + 2 {
        times.push(now - 600);
    }
    times
}

/// Snapshots come in order, and none is dated in the future.
pub proof fn snapshots_come_in_order(now: int, count: int, i: int, j: int)
    requires
        0 <= i < j < count,
    ensures
        snapshot_time(now, count, i) < snapshot_time(now, count, j) < now,
{
}

/// On the days the machine was off there is no snapshot: none lies between the ends
/// of the hole.
pub proof fn the_hole_holds_no_snapshot(now: int, count: int, i: int)
    requires
        0 <= i < count,
    ensures
        !(now - 10 * 86_400 <= snapshot_time(now, count, i) <= now - 9 * 86_400),
{
}

/// The name of a snapshot.
pub fn snapshot_name(day: u64) -> (name: String)
    ensures
        name@ == "snapshot-"@ + padded(day as nat, 2),
{
    text::joined("snapshot-", text::padded_text(day, 2).as_str())
}

/// A moment written as a date and a time of day, in UTC.
pub open spec fn stamp_of(secs: int, y: int, m: int, d: int) -> Seq<char> {
    let (hour, minute, second) = clock(secs % 86_400);
    padded_signed(y, 4) + ("-"@ + (padded(m as nat, 2) + ("-"@ + (padded(d as nat, 2) + ("T"@ + (
    padded(hour as nat, 2) + (":"@ + (padded(minute as nat, 2) + (":"@ + padded(
        second as nat,
        2,
    ))))))))))
}

/// Whether a text is the date and time of a moment in UTC.
pub open spec fn is_stamp(secs: int, text: Seq<char>) -> bool {
    exists|y: int, m: int, d: int|
        {
            &&& is_date(y, m, d)
            &&& #[trigger] days_from_civil(y, m, d) == secs / 86_400
            &&& text == stamp_of(secs, y, m, d)
        }
}

/// A moment as the UTC text that the backup program takes for an archive's time.
pub fn utc_stamp(epoch: i64) -> (stamp: String)
    ensures
        is_stamp(epoch as int, stamp@),
{
    let (days, of_day) = calendar::split_days(epoch);
    let (y, m, d) = calendar::civil_from_days(days);
    let (hour, minute, second) = calendar::clock_at(of_day);
    let s = text::joined(":", text::padded_text(second, 2).as_str());
    let s = text::joined(text::padded_text(minute, 2).as_str(), s.as_str());
    let s = text::joined(":", s.as_str());
    let s = text::joined(text::padded_text(hour, 2).as_str(), s.as_str());
    let s = text::joined("T", s.as_str());
    let s = text::joined(text::padded_text(d as u64, 2).as_str(), s.as_str());
    let s = text::joined("-", s.as_str());
    let s = text::joined(text::padded_text(m as u64, 2).as_str(), s.as_str());
    let s = text::joined("-", s.as_str());
    let s = text::joined(text::padded_signed_text(y, 4).as_str(), s.as_str());
    assert(s@ == stamp_of(epoch as int, y as int, m as int, d as int));
    assert(days_from_civil(y as int, m as int, d as int) == epoch as int / 86_400);
    s
}

/// The path an archive stores a file under: absolute, without its leading slashes.
pub fn member_path(path: &str) -> (member: String)
    ensures
        member@ == text::trim_start(path@, '/'),
{
    let chars = text::to_chars(path);
    assert(chars@.skip(0) =~= path@);
    let from: usize = text::skip(&chars, 0, '/');
    let n: usize = chars.len();
    assert(chars@.skip(from as int) =~= chars@.subrange(from as int, n as int));
    text::from_chars(&chars, from, n)
}

/// The data directory's parent: what the desktop says, or the usual place in the
/// home directory, or here.
pub open spec fn data_base(xdg: Option<Seq<char>>, home: Option<Seq<char>>) -> Seq<char> {
    if xdg is Some && xdg->0.len() > 0 {
        xdg->0
    } else {
        match home {
            Some(home) => paths::after(home, ".local/share"@),
            None => "."@,
        }
    }
}

/// The data directory. Development has one of its own.
pub fn data_dir(dev: bool, xdg: Option<&str>, home: Option<&str>) -> (dir: String)
    ensures
        dir@ == paths::after(
            data_base(text::chars_of(xdg), text::chars_of(home)),
            if dev {
                "backtrack-dev"@
            } else {
                "backtrack"@
            },
        ),
{
    let leaf = if dev {
        "backtrack-dev"
    } else {
        "backtrack"
    };
    match xdg {
        Some(base) => {
            if base.unicode_len() > 0 {
                return paths::join(base, leaf);
            }
        },
        None => {},
    }
    match home {
        Some(home) => paths::join(paths::join(home, ".local/share").as_str(), leaf),
        None => paths::join(".", leaf),
    }
}

/// The files of a day: paths and contents, in the order of the paths.
pub type Files = Vec<(String, String)>;

/// Paths and contents, as text.
pub open spec fn told(files: Seq<(String, String)>) -> Seq<(Seq<char>, Seq<char>)> {
    files.map_values(|f: (String, String)| (f.0@, f.1@))
}

/// The report, which takes three shapes over the month.
pub open spec fn report(day: int) -> Seq<char> {
    if day < 8 {
        "report draft"@
    } else if day < 20 {
        "report reviewed copy"@
    } else {
        "report final signed version!!"@
    }
}

/// The notes, which change once.
pub open spec fn notes(day: int) -> Seq<char> {
    if day < 25 {
        "meeting notes"@
    } else {
        "meeting notes plus action items"@
    }
}

/// A row of files that is there or not.
pub open spec fn only_if(there: bool, files: Seq<(Seq<char>, Seq<char>)>) -> Seq<(
    Seq<char>,
    Seq<char>,
)> {
    if there {
        files
    } else {
        Seq::empty()
    }
}

/// The files there are on a day: an invoice from the fifth day on, a picture from
/// the tenth, and a folder that is deleted after the fifteenth.
pub open spec fn files_on(day: int) -> Seq<(Seq<char>, Seq<char>)> {
    only_if(
        day >= 5,
        seq![("Documents/invoice-may.pdf"@, "invoice may 2026 total due"@)],
    ) + seq![("Documents/notes.txt"@, notes(day)), ("Documents/report.odt"@, report(day))]
        + only_if(day >= 10, seq![("Pictures/vacation.jpg"@, "JPEG-BINARY"@)]) + only_if(
        day <= 15,
        seq![
            ("old-client-folder/contract.pdf"@, "signed contract"@),
            ("old-client-folder/proposal.odt"@, "project proposal"@),
        ],
    )
}

/// Put a file at the end of a row.
fn put(files: &mut Files, path: &str, content: &str)
    ensures
        told(final(files)@) == told(old(files)@).push((path@, content@)),
{
    let ghost before = files@;
    files.push((path.to_owned(), content.to_owned()));
    assert(told(files@) =~= told(before).push((path@, content@)));
}

/// The files there are on a day.
pub fn files_of_day(day: u32) -> (files: Files)
    ensures
        told(files@) == files_on(day as int),
{
    let mut files: Files = Vec::new();
    if day >= 5 {
        put(&mut files, "Documents/invoice-may.pdf", "invoice may 2026 total due");
    }
    put(
        &mut files,
        "Documents/notes.txt",
        if day < 25 {
            "meeting notes"
        } else {
            "meeting notes plus action items"
        },
    );
    put(
        &mut files,
        "Documents/report.odt",
        if day < 8 {
            "report draft"
        } else if day < 20 {
            "report reviewed copy"
        } else {
            "report final signed version!!"
        },
    );
    if day >= 10 {
        put(&mut files, "Pictures/vacation.jpg", "JPEG-BINARY");
    }
    if day <= 15 {
        put(&mut files, "old-client-folder/contract.pdf", "signed contract");
        put(&mut files, "old-client-folder/proposal.odt", "project proposal");
    }
    assert(told(files@) =~= files_on(day as int));
    files
}

/// The scripted history: the files of each of thirty days.
pub fn history() -> (days: Vec<Files>)
    ensures
        days@.len() == 30,
        forall|i: int| 0 <= i < 30 ==> told((#[trigger] days@[i])@) == files_on(i + 1),
{
    let mut days: Vec<Files> = Vec::new();
    let mut day: u32 = 1;
    while day <= 30
        invariant
            1 <= day <= 31,
            days@.len() == day - 1,
            forall|i: int| 0 <= i < day - 1 ==> told((#[trigger] days@[i])@) == files_on(i + 1),
        decreases 31 - day,
    {
        days.push(files_of_day(day));
        day += 1;
    }
    days
}

/// What is in a file, if there is one under the path.
pub open spec fn content_of(files: Seq<(Seq<char>, Seq<char>)>, path: Seq<char>) -> Option<Seq<char>>
    decreases files.len(),
{
    if files.len() == 0 {
        None
    } else if files.last().0 == path {
        Some(files.last().1)
    } else {
        content_of(files.drop_last(), path)
    }
}

/// What is in a file, if there is one under the path.
pub fn content<'a>(files: &'a Files, path: &str) -> (found: Option<&'a String>)
    ensures
        found is Some <==> content_of(told(files@), path@) is Some,
        found matches Some(c) ==> c@ == content_of(told(files@), path@)->0,
{
    let mut i: usize = files.len();
    assert(told(files@).take(i as int) =~= told(files@));
    while i > 0
        invariant
            i <= files@.len(),
            content_of(told(files@).take(i as int), path@) == content_of(told(files@), path@),
        decreases i,
    {
        proof {
            let part = told(files@).take(i as int);
            assert(part.last() == (files@[i - 1].0@, files@[i - 1].1@));
            assert(part.drop_last() =~= told(files@).take(i - 1));
        }
        if text::same(files[i - 1].0.as_str(), path) {
            return Some(&files[i - 1].1);
        }
        i -= 1;
    }
    None
}

/// The paths that are there one day and not the next, in their order.
pub open spec fn gone(prev: Seq<(Seq<char>, Seq<char>)>, cur: Seq<(Seq<char>, Seq<char>)>) -> Seq<
    Seq<char>,
>
    decreases prev.len(),
{
    if prev.len() == 0 {
        Seq::empty()
    } else {
        let rest = gone(prev.drop_last(), cur);
        if content_of(cur, prev.last().0) is None {
            rest.push(prev.last().0)
        } else {
            rest
        }
    }
}

/// The files that are new or different from one day to the next, in their order.
pub open spec fn edited(prev: Seq<(Seq<char>, Seq<char>)>, cur: Seq<(Seq<char>, Seq<char>)>) -> Seq<
    (Seq<char>, Seq<char>),
>
    decreases cur.len(),
{
    if cur.len() == 0 {
        Seq::empty()
    } else {
        let rest = edited(prev, cur.drop_last());
        if content_of(prev, cur.last().0) != Some(cur.last().1) {
            rest.push(cur.last())
        } else {
            rest
        }
    }
}

/// The files to delete for the next day.
pub fn deletions(prev: &Files, cur: &Files) -> (paths: Vec<String>)
    ensures
        views(paths@) == gone(told(prev@), told(cur@)),
{
    let mut paths: Vec<String> = Vec::new();
    let mut i: usize = 0;
    assert(views(paths@) =~= gone(told(prev@).take(0), told(cur@)));
    while i < prev.len()
        invariant
            i <= prev@.len(),
            views(paths@) == gone(told(prev@).take(i as int), told(cur@)),
        decreases prev@.len() - i,
    {
        let ghost before = paths@;
        proof {
            let next = told(prev@).take(i + 1);
            assert(next.drop_last() =~= told(prev@).take(i as int));
            assert(next.last() == (prev@[i as int].0@, prev@[i as int].1@));
        }
        if content(cur, prev[i].0.as_str()).is_none() {
            paths.push(prev[i].0.clone());
            assert(views(paths@) =~= views(before).push(prev@[i as int].0@));
        }
        i += 1;
    }
    assert(told(prev@).take(i as int) =~= told(prev@));
    paths
}

/// The files to write for the next day. A file nobody touched is not written, so it
/// keeps its time and is stored once.
pub fn edits(prev: &Files, cur: &Files) -> (files: Files)
    ensures
        told(files@) == edited(told(prev@), told(cur@)),
{
    let mut files: Files = Vec::new();
    let mut i: usize = 0;
    assert(told(files@) =~= edited(told(prev@), told(cur@).take(0)));
    while i < cur.len()
        invariant
            i <= cur@.len(),
            told(files@) == edited(told(prev@), told(cur@).take(i as int)),
        decreases cur@.len() - i,
    {
        let ghost before = files@;
        proof {
            let next = told(cur@).take(i + 1);
            assert(next.drop_last() =~= told(cur@).take(i as int));
            assert(next.last() == (cur@[i as int].0@, cur@[i as int].1@));
        }
        let same = match content(prev, cur[i].0.as_str()) {
            Some(content) => text::same(content.as_str(), cur[i].1.as_str()),
            None => false,
        };
        if !same {
            files.push((cur[i].0.clone(), cur[i].1.clone()));
            assert(told(files@) =~= told(before).push((cur@[i as int].0@, cur@[i as int].1@)));
        }
        i += 1;
    }
    assert(told(cur@).take(i as int) =~= told(cur@));
    files
}

/// When the day's edits are dated, given when its snapshot is taken.
pub fn edited_at(taken: i64) -> (at: i64)
    requires
        taken - 2_400 >= i64::MIN,
    ensures
        at == taken - 2_400,
{
    taken - EDITED_BEFORE_BACKUP
}

/// A path up to its first slash.
pub open spec fn first_part(path: Seq<char>) -> Seq<char> {
    path.take(first_of(path, '/'))
}

/// Whether the first `n` characters of a path show `name` directly inside `dir`;
/// the empty text is the root of the tree.
pub open spec fn shows(path: Seq<char>, n: int, dir: Seq<char>, name: Seq<char>) -> bool {
    ||| (dir.len() == 0 && name == first_part(path))
    ||| exists|k: int|
        0 <= k < n && k < path.len() && #[trigger] path[k] == '/' && dir == path.take(k) && name
            == first_part(path.skip(k + 1))
}

/// Whether some files put `name` directly inside `dir`.
pub open spec fn is_inside(
    files: Seq<(Seq<char>, Seq<char>)>,
    dir: Seq<char>,
    name: Seq<char>,
) -> bool {
    exists|i: int|
        0 <= i < files.len() && shows(
            (#[trigger] files[i]).0,
            files[i].0.len() as int,
            dir,
            name,
        )
}

/// Whether some files make `dir` a directory. The root always is one.
pub open spec fn is_dir(files: Seq<(Seq<char>, Seq<char>)>, dir: Seq<char>) -> bool {
    dir.len() == 0 || exists|name: Seq<char>| #[trigger] is_inside(files, dir, name)
}

/// The names directly inside a directory.
#[derive(Debug)]
pub struct DirEntries {
    pub dir: String,
    pub names: Vec<String>,
}

/// Whether a directory is listed.
pub open spec fn lists(dirs: Seq<DirEntries>, dir: Seq<char>) -> bool {
    exists|k: int| 0 <= k < dirs.len() && (#[trigger] dirs[k]).dir@ == dir
}

/// Whether a directory is listed with a name in it.
pub open spec fn lists_name(dirs: Seq<DirEntries>, dir: Seq<char>, name: Seq<char>) -> bool {
    exists|k: int|
        0 <= k < dirs.len() && (#[trigger] dirs[k]).dir@ == dir && views(dirs[k].names@).contains(
            name,
        )
}

/// Whether no directory is listed twice.
pub open spec fn listed_once(dirs: Seq<DirEntries>) -> bool {
    forall|i: int, j: int|
        0 <= i < j < dirs.len() ==> (#[trigger] dirs[i]).dir@ != (#[trigger] dirs[j]).dir@
}

/// The directories that are listed, in their order.
pub open spec fn dirs_of(dirs: Seq<DirEntries>) -> Seq<Seq<char>> {
    dirs.map_values(|d: DirEntries| d.dir@)
}

/// Whether the directories are in alphabetical order, and the names in each of them
/// are.
pub open spec fn in_order(dirs: Seq<DirEntries>) -> bool {
    &&& ascending(dirs_of(dirs))
    &&& forall|k: int| 0 <= k < dirs.len() ==> ascending(views(#[trigger] dirs[k].names@))
}

/// Directories in alphabetical order are listed once each.
proof fn lemma_in_order(dirs: Seq<DirEntries>)
    requires
        in_order(dirs),
    ensures
        listed_once(dirs),
        dirs_of(dirs).no_duplicates(),
        forall|k: int| 0 <= k < dirs.len() ==> views(#[trigger] dirs[k].names@).no_duplicates(),
{
    text::lemma_ascending(dirs_of(dirs));
    assert forall|i: int, j: int| 0 <= i < j < dirs.len() implies (#[trigger] dirs[i]).dir@ != (
    #[trigger] dirs[j]).dir@ by {
        assert(dirs_of(dirs)[i] != dirs_of(dirs)[j]);
    }
    assert forall|k: int| 0 <= k < dirs.len() implies views(
        #[trigger] dirs[k].names@,
    ).no_duplicates() by {
        text::lemma_ascending(views(dirs[k].names@));
    }
}

/// A text put at its place among others keeps the order.
proof fn lemma_put_in_order(texts: Seq<Seq<char>>, at: int, new: Seq<char>)
    requires
        ascending(texts),
        0 <= at <= texts.len(),
        forall|k: int| 0 <= k < at ==> sorts_before(#[trigger] texts[k], new),
        at < texts.len() ==> sorts_before(new, texts[at]),
    ensures
        ascending(texts.insert(at, new)),
{
    let after = texts.insert(at, new);
    assert forall|i: int, j: int| 0 <= i < j < after.len() implies sorts_before(
        #[trigger] after[i],
        #[trigger] after[j],
    ) by {
        if j < at {
            assert(after[i] == texts[i] && after[j] == texts[j]);
        } else if j == at {
            assert(after[i] == texts[i]);
        } else if i == at {
            assert(after[j] == texts[j - 1]);
            if j - 1 > at {
                assert(sorts_before(texts[at], texts[j - 1]));
                text::lemma_sorts_on(new, texts[at], texts[j - 1]);
            }
        } else if i < at {
            assert(after[i] == texts[i] && after[j] == texts[j - 1]);
        } else {
            assert(after[i] == texts[i - 1] && after[j] == texts[j - 1]);
        }
    }
}

/// Put a name among those of a directory, if it is not there.
fn add_name(names: &mut Vec<String>, name: &str)
    requires
        ascending(views(old(names)@)),
    ensures
        ascending(views(final(names)@)),
        forall|n: Seq<char>| #[trigger]
            views(final(names)@).contains(n) <==> views(old(names)@).contains(n) || n == name@,
{
    let ghost before = views(names@);
    let mut at: usize = 0;
    while at < names.len() && text::precedes(names[at].as_str(), name)
        invariant
            at <= names@.len(),
            before == views(names@),
            forall|k: int| 0 <= k < at ==> sorts_before(#[trigger] before[k], name@),
        decreases names@.len() - at,
    {
        assert(before[at as int] == names@[at as int]@);
        at += 1;
    }
    if at < names.len() && text::same(names[at].as_str(), name) {
        assert(before[at as int] == name@);
        return;
    }
    proof {
        if at < names@.len() {
            assert(before[at as int] == names@[at as int]@);
            text::lemma_sorts_apart(name@, before[at as int]);
        }
        lemma_put_in_order(before, at as int, name@);
    }
    names.insert(at, name.to_owned());
    let ghost after = views(names@);
    proof {
        assert(after =~= before.insert(at as int, name@));
        assert forall|n: Seq<char>| #[trigger] after.contains(n) <==> before.contains(n) || n
            == name@ by {
            if before.contains(n) {
                let k = choose|k: int| 0 <= k < before.len() && before[k] == n;
                assert(after[if k < at { k } else { k + 1 }] == n);
            }
            if n == name@ {
                assert(after[at as int] == n);
            }
            if after.contains(n) && n != name@ {
                let k = choose|k: int| 0 <= k < after.len() && after[k] == n;
                assert(before[if k < at { k } else { k - 1 }] == n);
            }
        }
    }
}

/// Where a directory is listed; the length of the list if it is not.
fn place(dirs: &Vec<DirEntries>, dir: &str) -> (at: usize)
    ensures
        at <= dirs@.len(),
        at < dirs@.len() ==> dirs@[at as int].dir@ == dir@,
        at == dirs@.len() ==> !lists(dirs@, dir@),
{
    let mut i: usize = 0;
    while i < dirs.len()
        invariant
            i <= dirs@.len(),
            forall|k: int| 0 <= k < i ==> (#[trigger] dirs@[k]).dir@ != dir@,
        decreases dirs@.len() - i,
    {
        if text::same(dirs[i].dir.as_str(), dir) {
            return i;
        }
        i += 1;
    }
    i
}

/// Whether a name is in a list.
fn holds(names: &Vec<String>, name: &str) -> (held: bool)
    ensures
        held == views(names@).contains(name@),
{
    let mut i: usize = 0;
    while i < names.len()
        invariant
            i <= names@.len(),
            forall|k: int| 0 <= k < i ==> views(names@)[k] != name@,
        decreases names@.len() - i,
    {
        if text::same(names[i].as_str(), name) {
            assert(views(names@)[i as int] == name@);
            return true;
        }
        i += 1;
    }
    false
}

/// List a name in a directory.
fn note(dirs: &mut Vec<DirEntries>, dir: &str, name: &str)
    requires
        in_order(old(dirs)@),
    ensures
        in_order(final(dirs)@),
        forall|d: Seq<char>| #[trigger] lists(final(dirs)@, d) <==> lists(old(dirs)@, d) || d == dir@,
        forall|d: Seq<char>, n: Seq<char>| #[trigger]
            lists_name(final(dirs)@, d, n) <==> lists_name(old(dirs)@, d, n) || (d == dir@ && n
                == name@),
{
    let ghost before = dirs@;
    let ghost order = dirs_of(before);
    let mut at: usize = 0;
    while at < dirs.len() && text::precedes(dirs[at].dir.as_str(), dir)
        invariant
            at <= dirs@.len(),
            dirs@ == before,
            order == dirs_of(before),
            forall|k: int| 0 <= k < at ==> sorts_before(#[trigger] order[k], dir@),
        decreases dirs@.len() - at,
    {
        assert(order[at as int] == dirs@[at as int].dir@);
        at += 1;
    }
    let there = at < dirs.len() && text::same(dirs[at].dir.as_str(), dir);
    let entry = if there {
        dirs.remove(at)
    } else {
        DirEntries { dir: dir.to_owned(), names: Vec::new() }
    };
    let ghost names = views(entry.names@);
    proof {
        if there {
            assert(ascending(views(before[at as int].names@)));
        }
    }
    let DirEntries { dir: listed, names: mut held } = entry;
    add_name(&mut held, name);
    let put = DirEntries { dir: listed, names: held };
    let ghost new = put;
    dirs.insert(at, put);
    let ghost after = dirs@;
    proof {
        // Where each entry of one list is in the other.
        assert(after =~= if there {
            before.update(at as int, new)
        } else {
            before.insert(at as int, new)
        });
        if there {
            assert(dirs_of(after) =~= order);
        } else {
            if at < before.len() {
                assert(order[at as int] == before[at as int].dir@);
                text::lemma_sorts_apart(dir@, order[at as int]);
            }
            lemma_put_in_order(order, at as int, dir@);
            assert(dirs_of(after) =~= order.insert(at as int, dir@));
        }
        assert forall|k: int| 0 <= k < before.len() && !(there && k == at) implies after[moved_to(
            k,
            at as int,
            there,
        )] == #[trigger] before[k] by {}
        assert forall|m: int| 0 <= m < after.len() && m != at implies {
            let k = if there || m < at { m } else { m - 1 };
            0 <= k < before.len() && #[trigger] after[m] == before[k]
        } by {}
        assert forall|k: int| 0 <= k < after.len() implies ascending(
            views(#[trigger] after[k].names@),
        ) by {
            if k != at {
                let b = if there || k < at { k } else { k - 1 };
                assert(after[k] == before[b]);
                assert(ascending(views(before[b].names@)));
            }
        }
        assert forall|d: Seq<char>| #[trigger] lists(after, d) <==> lists(before, d) || d
            == dir@ by {
            if lists(before, d) {
                let k = choose|k: int| 0 <= k < before.len() && (#[trigger] before[k]).dir@ == d;
                assert(after[moved_to(k, at as int, there)].dir@ == d);
            }
            if d == dir@ {
                assert(after[at as int].dir@ == d);
            }
            if lists(after, d) {
                let m = choose|m: int| 0 <= m < after.len() && (#[trigger] after[m]).dir@ == d;
                if m != at {
                    let k = if there || m < at { m } else { m - 1 };
                    assert(before[k].dir@ == d);
                }
            }
        }
        assert forall|d: Seq<char>, n: Seq<char>| #[trigger]
            lists_name(after, d, n) <==> lists_name(before, d, n) || (d == dir@ && n == name@) by {
            if lists_name(before, d, n) {
                let k = choose|k: int|
                    0 <= k < before.len() && (#[trigger] before[k]).dir@ == d && views(
                        before[k].names@,
                    ).contains(n);
                let m = moved_to(k, at as int, there);
                assert(after[m].dir@ == d && views(after[m].names@).contains(n));
            }
            if d == dir@ && n == name@ {
                assert(after[at as int].dir@ == d && views(after[at as int].names@).contains(n));
            }
            if lists_name(after, d, n) {
                let m = choose|m: int|
                    0 <= m < after.len() && (#[trigger] after[m]).dir@ == d && views(
                        after[m].names@,
                    ).contains(n);
                if m != at {
                    let k = if there || m < at { m } else { m - 1 };
                    assert(before[k].dir@ == d && views(before[k].names@).contains(n));
                } else if n != name@ {
                    assert(names.contains(n));
                    assert(there);
                    assert(before[at as int].dir@ == d && views(
                        before[at as int].names@,
                    ).contains(n));
                }
            }
        }
    }
}

/// Where an entry is after another was put at a place, or replaced the one there.
spec fn moved_to(k: int, at: int, replaced: bool) -> int {
    if replaced || k < at {
        k
    } else {
        k + 1
    }
}

/// The names directly inside each directory of a day's tree. The root is there even
/// when it is empty. Directories and names are in alphabetical order. This decides whether a directory's time moved: it did if the
/// names in it are not those of the day before.
pub fn entries_by_dir(files: &Files) -> (dirs: Vec<DirEntries>)
    ensures
        in_order(dirs@),
        listed_once(dirs@),
        forall|k: int| 0 <= k < dirs@.len() ==> views(#[trigger] dirs@[k].names@).no_duplicates(),
        forall|d: Seq<char>| #[trigger] lists(dirs@, d) <==> is_dir(told(files@), d),
        forall|d: Seq<char>, n: Seq<char>| #[trigger]
            lists_name(dirs@, d, n) <==> is_inside(told(files@), d, n),
{
    let ghost all = told(files@);
    let mut dirs: Vec<DirEntries> = Vec::new();
    dirs.push(DirEntries { dir: String::new(), names: Vec::new() });
    proof {
        assert(dirs@[0].dir@ =~= Seq::<char>::empty());
        assert forall|d: Seq<char>| #[trigger] lists(dirs@, d) <==> d.len() == 0 by {
            if d.len() == 0 {
                assert(d =~= dirs@[0].dir@);
            }
        }
    }
    let mut i: usize = 0;
    while i < files.len()
        invariant
            i <= files@.len(),
            all == told(files@),
            in_order(dirs@),
            forall|d: Seq<char>| #[trigger]
                lists(dirs@, d) <==> d.len() == 0 || exists|n: Seq<char>| #[trigger]
                    lists_name(dirs@, d, n),
            forall|d: Seq<char>, n: Seq<char>| #[trigger]
                lists_name(dirs@, d, n) <==> is_inside(all.take(i as int), d, n),
        decreases files@.len() - i,
    {
        let path = text::to_chars(files[i].0.as_str());
        let size: usize = path.len();
        let ghost start = dirs@;
        assert(path@.subrange(0, size as int) =~= path@);
        let end: usize = text::find_first(&path, 0, size, '/');
        proof {
            text::lemma_first_of(path@, '/');
        }
        let first = text::from_chars(&path, 0, end);
        assert(first@ =~= first_part(path@));
        note(&mut dirs, "", first.as_str());
        proof {
            reveal_strlit("");
            assert(""@ =~= Seq::<char>::empty());
            assert forall|d: Seq<char>, n: Seq<char>| #[trigger]
                lists_name(dirs@, d, n) <==> lists_name(start, d, n) || shows(path@, 0, d, n) by {
                if d.len() == 0 {
                    assert(d =~= ""@);
                }
            }
            assert forall|d: Seq<char>| #[trigger]
                lists(dirs@, d) <==> d.len() == 0 || exists|n: Seq<char>| #[trigger]
                    lists_name(dirs@, d, n) by {
                if lists(start, d) && d.len() > 0 {
                    let n = choose|n: Seq<char>| #[trigger] lists_name(start, d, n);
                    assert(lists_name(dirs@, d, n));
                }
                if exists|n: Seq<char>| #[trigger] lists_name(dirs@, d, n) {
                    let n = choose|n: Seq<char>| #[trigger] lists_name(dirs@, d, n);
                    if !lists_name(start, d, n) {
                        assert(d == ""@);
                    }
                }
                if d.len() == 0 {
                    assert(d =~= ""@);
                }
            }
        }
        let mut k: usize = 0;
        while k < size
            invariant
                k <= size == path@.len(),
                in_order(dirs@),
                forall|d: Seq<char>| #[trigger]
                    lists(dirs@, d) <==> d.len() == 0 || exists|n: Seq<char>| #[trigger]
                        lists_name(dirs@, d, n),
                forall|d: Seq<char>, n: Seq<char>| #[trigger]
                    lists_name(dirs@, d, n) <==> lists_name(start, d, n) || shows(
                        path@,
                        k as int,
                        d,
                        n,
                    ),
            decreases size - k,
        {
            let ghost before = dirs@;
            if path[k] == '/' {
                let dir = text::from_chars(&path, 0, k);
                let to: usize = text::find_first(&path, k + 1, size, '/');
                let name = text::from_chars(&path, k + 1, k + 1 + to);
                proof {
                    let rest = path@.skip(k + 1);
                    assert(path@.subrange(k + 1, size as int) =~= rest);
                    text::lemma_first_of(rest, '/');
                    assert(name@ =~= first_part(rest));
                    assert(dir@ =~= path@.take(k as int));
                }
                note(&mut dirs, dir.as_str(), name.as_str());
                proof {
                    assert forall|d: Seq<char>, n: Seq<char>| #[trigger]
                        lists_name(dirs@, d, n) <==> lists_name(start, d, n) || shows(
                            path@,
                            k + 1,
                            d,
                            n,
                        ) by {
                        lemma_shows_more(path@, k as int, d, n);
                    }
                    assert forall|d: Seq<char>| #[trigger]
                        lists(dirs@, d) <==> d.len() == 0 || exists|n: Seq<char>| #[trigger]
                            lists_name(dirs@, d, n) by {
                        if lists(before, d) && d.len() > 0 {
                            let n = choose|n: Seq<char>| #[trigger] lists_name(before, d, n);
                            assert(lists_name(dirs@, d, n));
                        }
                        if d == dir@ {
                            assert(lists_name(dirs@, d, name@));
                        }
                        if exists|n: Seq<char>| #[trigger] lists_name(dirs@, d, n) {
                            let n = choose|n: Seq<char>| #[trigger] lists_name(dirs@, d, n);
                            if lists_name(before, d, n) {
                                assert(lists(before, d));
                            }
                        }
                    }
                }
            } else {
                assert forall|d: Seq<char>, n: Seq<char>| #[trigger]
                    lists_name(dirs@, d, n) <==> lists_name(start, d, n) || shows(
                        path@,
                        k + 1,
                        d,
                        n,
                    ) by {
                    lemma_shows_more(path@, k as int, d, n);
                }
            }
            k += 1;
        }
        proof {
            let next = all.take(i + 1);
            assert forall|d: Seq<char>, n: Seq<char>| #[trigger]
                lists_name(dirs@, d, n) <==> is_inside(next, d, n) by {
                let before = all.take(i as int);
                if is_inside(before, d, n) {
                    let k = choose|k: int|
                        0 <= k < before.len() && shows(
                            (#[trigger] before[k]).0,
                            before[k].0.len() as int,
                            d,
                            n,
                        );
                    assert(next[k] == before[k]);
                }
                if shows(path@, path@.len() as int, d, n) {
                    assert(next[i as int].0 == path@);
                }
                if is_inside(next, d, n) {
                    let k = choose|k: int|
                        0 <= k < next.len() && shows(
                            (#[trigger] next[k]).0,
                            next[k].0.len() as int,
                            d,
                            n,
                        );
                    if k < i {
                        assert(before[k] == next[k]);
                    }
                }
            }
        }
        i += 1;
    }
    proof {
        lemma_in_order(dirs@);
        assert(all.take(i as int) =~= all);
        assert forall|d: Seq<char>| #[trigger] lists(dirs@, d) <==> is_dir(all, d) by {
            if exists|n: Seq<char>| #[trigger] lists_name(dirs@, d, n) {
                let n = choose|n: Seq<char>| #[trigger] lists_name(dirs@, d, n);
                assert(is_inside(all, d, n));
            }
            if exists|n: Seq<char>| #[trigger] is_inside(all, d, n) {
                let n = choose|n: Seq<char>| #[trigger] is_inside(all, d, n);
                assert(lists_name(dirs@, d, n));
            }
        }
    }
    dirs
}

/// What one more character of a path shows.
proof fn lemma_shows_more(path: Seq<char>, k: int, dir: Seq<char>, name: Seq<char>)
    requires
        0 <= k < path.len(),
    ensures
        shows(path, k + 1, dir, name) <==> shows(path, k, dir, name) || (path[k] == '/' && dir
            == path.take(k) && name == first_part(path.skip(k + 1))),
{
    if shows(path, k, dir, name) && !(dir.len() == 0 && name == first_part(path)) {
        let j = choose|j: int|
            0 <= j < k && j < path.len() && #[trigger] path[j] == '/' && dir == path.take(j) && name
                == first_part(path.skip(j + 1));
        assert(path[j] == '/');
    }
}

/// Whether a directory's time moves from one day to the next: it is there, and the
/// names in it are not those it had. Rewriting a file moves nothing; gaining or
/// losing one does.
pub open spec fn moves(
    prev: Seq<(Seq<char>, Seq<char>)>,
    cur: Seq<(Seq<char>, Seq<char>)>,
    dir: Seq<char>,
) -> bool {
    &&& is_dir(cur, dir)
    &&& !(is_dir(prev, dir) && forall|name: Seq<char>| #[trigger]
        is_inside(prev, dir, name) <==> is_inside(cur, dir, name))
}

/// Whether every name of one list is in another.
fn all_in(names: &Vec<String>, others: &Vec<String>) -> (yes: bool)
    ensures
        yes == forall|n: Seq<char>| #[trigger]
            views(names@).contains(n) ==> views(others@).contains(n),
{
    let mut i: usize = 0;
    while i < names.len()
        invariant
            i <= names@.len(),
            forall|k: int| 0 <= k < i ==> views(others@).contains(#[trigger] views(names@)[k]),
        decreases names@.len() - i,
    {
        if !holds(others, names[i].as_str()) {
            assert(views(names@)[i as int] == names@[i as int]@);
            assert(views(names@).contains(names@[i as int]@));
            return false;
        }
        assert(views(names@)[i as int] == names@[i as int]@);
        i += 1;
    }
    assert forall|n: Seq<char>| #[trigger] views(names@).contains(n) implies views(
        others@,
    ).contains(n) by {
        let k = choose|k: int| 0 <= k < views(names@).len() && views(names@)[k] == n;
        assert(views(others@).contains(views(names@)[k]));
    }
    true
}

/// The names listed for a directory are those of its entry.
proof fn lemma_entry(dirs: Seq<DirEntries>, k: int, n: Seq<char>)
    requires
        listed_once(dirs),
        0 <= k < dirs.len(),
    ensures
        lists_name(dirs, dirs[k].dir@, n) <==> views(dirs[k].names@).contains(n),
{
    if lists_name(dirs, dirs[k].dir@, n) {
        let j = choose|j: int|
            0 <= j < dirs.len() && (#[trigger] dirs[j]).dir@ == dirs[k].dir@ && views(
                dirs[j].names@,
            ).contains(n);
        if j < k {
            assert(dirs[j].dir@ != dirs[k].dir@);
        } else if k < j {
            assert(dirs[k].dir@ != dirs[j].dir@);
        }
    }
}

/// The directories whose time moves from one day to the next, in alphabetical order.
pub fn moved_dirs(prev: &Files, cur: &Files) -> (dirs: Vec<String>)
    ensures
        ascending(views(dirs@)),
        views(dirs@).no_duplicates(),
        forall|d: Seq<char>| #[trigger]
            views(dirs@).contains(d) <==> moves(told(prev@), told(cur@), d),
{
    let before = entries_by_dir(prev);
    let after = entries_by_dir(cur);
    let ghost (p, c) = (told(prev@), told(cur@));
    let mut dirs: Vec<String> = Vec::new();
    let mut i: usize = 0;
    while i < after.len()
        invariant
            i <= after@.len(),
            p == told(prev@),
            c == told(cur@),
            listed_once(before@),
            listed_once(after@),
            ascending(dirs_of(after@)),
            ascending(views(dirs@)),
            forall|d: Seq<char>| #[trigger] lists(before@, d) <==> is_dir(p, d),
            forall|d: Seq<char>, n: Seq<char>| #[trigger]
                lists_name(before@, d, n) <==> is_inside(p, d, n),
            forall|d: Seq<char>| #[trigger] lists(after@, d) <==> is_dir(c, d),
            forall|d: Seq<char>, n: Seq<char>| #[trigger]
                lists_name(after@, d, n) <==> is_inside(c, d, n),
            forall|d: Seq<char>| #[trigger]
                views(dirs@).contains(d) <==> lists(after@.take(i as int), d) && moves(p, c, d),
        decreases after@.len() - i,
    {
        let ghost start = dirs@;
        let ghost dir = after@[i as int].dir@;
        let at: usize = place(&before, after[i].dir.as_str());
        let same = at < before.len() && all_in(&before[at].names, &after[i].names) && all_in(
            &after[i].names,
            &before[at].names,
        );
        proof {
            assert(lists(after@, dir));
            assert forall|n: Seq<char>| #[trigger] is_inside(c, dir, n) <==> views(
                after@[i as int].names@,
            ).contains(n) by {
                lemma_entry(after@, i as int, n);
                assert(lists_name(after@, dir, n) <==> is_inside(c, dir, n));
            }
            if at < before@.len() {
                assert(lists(before@, dir));
                assert forall|n: Seq<char>| #[trigger] is_inside(p, dir, n) <==> views(
                    before@[at as int].names@,
                ).contains(n) by {
                    lemma_entry(before@, at as int, n);
                    assert(lists_name(before@, dir, n) <==> is_inside(p, dir, n));
                }
                let (x, y) = (views(before@[at as int].names@), views(after@[i as int].names@));
                if same {
                    assert forall|n: Seq<char>| #[trigger] is_inside(p, dir, n) <==> is_inside(
                        c,
                        dir,
                        n,
                    ) by {
                        assert(x.contains(n) <==> y.contains(n));
                    }
                } else {
                    let n = choose|n: Seq<char>| x.contains(n) != y.contains(n);
                    assert(x.contains(n) != y.contains(n));
                    assert(is_inside(p, dir, n) != is_inside(c, dir, n));
                }
            }
            assert(!same <==> moves(p, c, dir));
        }
        if !same {
            dirs.push(after[i].dir.clone());
            proof {
                assert(views(dirs@) =~= views(start).push(dir));
                assert forall|k: int| 0 <= k < start.len() implies sorts_before(
                    #[trigger] views(start)[k],
                    dir,
                ) by {
                    assert(views(start).contains(views(start)[k]));
                    let shorter = after@.take(i as int);
                    let m = choose|m: int|
                        0 <= m < shorter.len() && (#[trigger] shorter[m]).dir@ == views(start)[k];
                    assert(dirs_of(after@)[m] == views(start)[k]);
                    assert(dirs_of(after@)[i as int] == dir);
                }
                assert forall|a: int, b: int| 0 <= a < b < views(dirs@).len() implies sorts_before(
                    #[trigger] views(dirs@)[a],
                    #[trigger] views(dirs@)[b],
                ) by {
                    assert(views(dirs@)[a] == views(start)[a]);
                    if b < start.len() {
                        assert(views(dirs@)[b] == views(start)[b]);
                    }
                }
            }
        }
        proof {
            let (shorter, longer) = (after@.take(i as int), after@.take(i + 1));
            assert forall|d: Seq<char>| #[trigger] lists(longer, d) <==> lists(shorter, d) || d
                == dir by {
                if lists(shorter, d) {
                    let k = choose|k: int|
                        0 <= k < shorter.len() && (#[trigger] shorter[k]).dir@ == d;
                    assert(longer[k].dir@ == d);
                }
                if d == dir {
                    assert(longer[i as int].dir@ == d);
                }
                if lists(longer, d) {
                    let k = choose|k: int|
                        0 <= k < longer.len() && (#[trigger] longer[k]).dir@ == d;
                    if k < i {
                        assert(shorter[k].dir@ == d);
                    }
                }
            }
            assert forall|d: Seq<char>| #[trigger] views(dirs@).contains(d) <==> lists(longer, d)
                && moves(p, c, d) by {
                if views(start).contains(d) {
                    let k = choose|k: int| 0 <= k < views(start).len() && views(start)[k] == d;
                    assert(views(dirs@)[k] == d);
                }
                if d == dir && !same {
                    assert(views(dirs@).last() == d);
                }
                if views(dirs@).contains(d) {
                    let k = choose|k: int| 0 <= k < views(dirs@).len() && views(dirs@)[k] == d;
                    if k < start.len() {
                        assert(views(start)[k] == d);
                    }
                }
            }
        }
        i += 1;
    }
    proof {
        text::lemma_ascending(views(dirs@));
        assert(after@.take(i as int) =~= after@);
        assert forall|d: Seq<char>| #[trigger] views(dirs@).contains(d) <==> moves(p, c, d) by {
            if moves(p, c, d) {
                assert(lists(after@, d));
            }
        }
    }
    dirs
}

/// The last three snapshots are of today: two hours, an hour and ten minutes ago.
/// Those before are one a day, the last of them a day ago, but for the two days on
/// which the machine was off.
pub proof fn snapshots_are_a_day_apart(now: int, count: int, i: int)
    requires
        3 <= count,
        0 <= i < count,
    ensures
        snapshot_time(now, count, count - 1) == now - 600,
        snapshot_time(now, count, count - 2) == now - 3_600,
        snapshot_time(now, count, count - 3) == now - 7_200,
        i == count - 4 ==> snapshot_time(now, count, i) == now - 86_400,
        i < count - 4 ==> snapshot_time(now, count, i + 1) - snapshot_time(now, count, i)
            == if snapshot_time(now, count, i + 1) == now - 8 * 86_400 {
            259_200int
        } else {
            86_400
        },
{
}

/// What was last put under a path is what is in it, and a path under which nothing
/// was put holds nothing.
pub proof fn the_last_content_counts(files: Seq<(Seq<char>, Seq<char>)>, path: Seq<char>)
    ensures
        forall|k: int|
            0 <= k < files.len() && (#[trigger] files[k]).0 == path && (forall|j: int|
                k < j < files.len() ==> (#[trigger] files[j]).0 != path) ==> content_of(files, path)
                == Some(files[k].1),
        content_of(files, path) is None <==> forall|k: int|
            0 <= k < files.len() ==> (#[trigger] files[k]).0 != path,
    decreases files.len(),
{
    if files.len() > 0 {
        let last = files.len() - 1;
        if files[last].0 == path {
            assert forall|k: int|
                0 <= k < files.len() && (#[trigger] files[k]).0 == path && (forall|j: int|
                    k < j < files.len() ==> (#[trigger] files[j]).0 != path) implies content_of(
                files,
                path,
            ) == Some(files[k].1) by {
                if k < last {
                    assert(files[last].0 != path);
                }
            }
        } else {
            let front = files.drop_last();
            the_last_content_counts(front, path);
            assert forall|k: int|
                0 <= k < files.len() && (#[trigger] files[k]).0 == path && (forall|j: int|
                    k < j < files.len() ==> (#[trigger] files[j]).0 != path) implies content_of(
                files,
                path,
            ) == Some(files[k].1) by {
                assert(front[k] == files[k]);
                assert forall|j: int| k < j < front.len() implies (#[trigger] front[j]).0
                    != path by {
                    assert(files[j].0 != path);
                }
            }
            if content_of(files, path) is None {
                assert forall|k: int| 0 <= k < files.len() implies (#[trigger] files[k]).0
                    != path by {
                    if k < last {
                        assert(front[k].0 != path);
                    }
                }
            }
            if forall|k: int| 0 <= k < files.len() ==> (#[trigger] files[k]).0 != path {
                assert forall|k: int| 0 <= k < front.len() implies (#[trigger] front[k]).0
                    != path by {
                    assert(files[k].0 != path);
                }
            }
        }
    }
}

/// What is deleted from one day to the next is every path that is not there any more,
/// in order; and what is written is every file that is new or has another content.
pub proof fn what_changes_from_day_to_day(
    prev: Seq<(Seq<char>, Seq<char>)>,
    cur: Seq<(Seq<char>, Seq<char>)>,
)
    ensures
        gone(prev, cur) == prev.filter(
            |f: (Seq<char>, Seq<char>)| content_of(cur, f.0) is None,
        ).map_values(|f: (Seq<char>, Seq<char>)| f.0),
        edited(prev, cur) == cur.filter(
            |f: (Seq<char>, Seq<char>)| content_of(prev, f.0) != Some(f.1),
        ),
{
    lemma_gone(prev, cur);
    lemma_edited(prev, cur);
}

proof fn lemma_gone(prev: Seq<(Seq<char>, Seq<char>)>, cur: Seq<(Seq<char>, Seq<char>)>)
    ensures
        gone(prev, cur) == prev.filter(
            |f: (Seq<char>, Seq<char>)| content_of(cur, f.0) is None,
        ).map_values(|f: (Seq<char>, Seq<char>)| f.0),
    decreases prev.len(),
{
    reveal(Seq::filter);
    let lost = |f: (Seq<char>, Seq<char>)| content_of(cur, f.0) is None;
    let path = |f: (Seq<char>, Seq<char>)| f.0;
    if prev.len() > 0 {
        lemma_gone(prev.drop_last(), cur);
        let rest = prev.drop_last().filter(lost);
        if lost(prev.last()) {
            assert(prev.filter(lost) =~= rest.push(prev.last()));
            assert(prev.filter(lost).map_values(path) =~= rest.map_values(path).push(
                path(prev.last()),
            ));
        } else {
            assert(prev.filter(lost) =~= rest);
        }
    } else {
        assert(prev.filter(lost).map_values(path) =~= Seq::empty());
    }
}

proof fn lemma_edited(prev: Seq<(Seq<char>, Seq<char>)>, cur: Seq<(Seq<char>, Seq<char>)>)
    ensures
        edited(prev, cur) == cur.filter(
            |f: (Seq<char>, Seq<char>)| content_of(prev, f.0) != Some(f.1),
        ),
    decreases cur.len(),
{
    reveal(Seq::filter);
    if cur.len() > 0 {
        lemma_edited(prev, cur.drop_last());
    }
}

/// Whether a path goes on with `name`, to its end or to a slash.
pub open spec fn goes_on_with(rest: Seq<char>, name: Seq<char>) -> bool {
    rest == name || text::begins(rest, name + seq!['/'])
}

/// A name is directly inside a folder exactly where some path leads through it: the
/// folder, a slash, and the name up to the next slash or to the end; and inside the
/// root where a path begins with it.
pub proof fn a_name_is_inside_the_part_before(
    path: Seq<char>,
    dir: Seq<char>,
    name: Seq<char>,
)
    requires
        !name.contains('/'),
    ensures
        goes_on_with(path, name) ==> shows(path, path.len() as int, Seq::empty(), name),
        dir.len() < path.len() && path.take(dir.len() as int) == dir && path[dir.len() as int]
            == '/' && goes_on_with(path.skip(dir.len() as int + 1), name) ==> shows(
            path,
            path.len() as int,
            dir,
            name,
        ),
{
    if goes_on_with(path, name) {
        lemma_first_part(path, name);
    }
    if dir.len() < path.len() && path.take(dir.len() as int) == dir && path[dir.len() as int] == '/'
        && goes_on_with(path.skip(dir.len() as int + 1), name) {
        lemma_first_part(path.skip(dir.len() as int + 1), name);
    }
}

proof fn lemma_first_part(rest: Seq<char>, name: Seq<char>)
    requires
        !name.contains('/'),
        goes_on_with(rest, name),
    ensures
        first_part(rest) == name,
{
    text::lemma_first_of(rest, '/');
    let n = name.len() as int;
    if rest == name {
        assert(first_of(rest, '/') == n);
        assert(rest.take(n) =~= name);
    } else {
        let head = name + seq!['/'];
        assert forall|i: int| 0 <= i <= n implies rest[i] == head[i] by {
            assert(rest.take(n + 1)[i] == rest[i]);
        }
        assert(rest[n] == '/');
        assert forall|i: int| 0 <= i < n implies rest[i] != '/' by {
            assert(rest[i] == name[i]);
        }
        assert(first_of(rest, '/') == n);
        assert(rest.take(n) =~= name);
    }
}

/// What is shown inside a folder is in a path: after the folder and a slash, up to the
/// next slash or to the end.
pub proof fn what_is_inside_is_in_a_path(path: Seq<char>, dir: Seq<char>, name: Seq<char>)
    requires
        shows(path, path.len() as int, dir, name),
    ensures
        !name.contains('/'),
        (dir.len() == 0 && goes_on_with(path, name)) || (dir.len() < path.len() && path.take(
            dir.len() as int,
        ) == dir && path[dir.len() as int] == '/' && goes_on_with(
            path.skip(dir.len() as int + 1),
            name,
        )),
{
    if dir.len() == 0 && name == first_part(path) {
        lemma_goes_on(path);
    } else {
        let k = choose|k: int|
            0 <= k < path.len() && k < path.len() && #[trigger] path[k] == '/' && dir == path.take(
                k,
            ) && name == first_part(path.skip(k + 1));
        lemma_goes_on(path.skip(k + 1));
    }
}

proof fn lemma_goes_on(rest: Seq<char>)
    ensures
        !first_part(rest).contains('/'),
        goes_on_with(rest, first_part(rest)),
{
    text::lemma_first_of(rest, '/');
    let k = first_of(rest, '/');
    let name = first_part(rest);
    assert forall|i: int| 0 <= i < name.len() implies name[i] != '/' by {
        assert(name[i] == rest[i]);
    }
    if k == rest.len() {
        assert(name =~= rest);
    } else {
        assert(rest.take(k + 1) =~= name + seq!['/']);
    }
}

/// Rewriting files moves no folder's time: where the paths stay the same, nothing
/// moves, whatever is in them.
pub proof fn rewriting_moves_nothing(
    prev: Seq<(Seq<char>, Seq<char>)>,
    cur: Seq<(Seq<char>, Seq<char>)>,
    dir: Seq<char>,
)
    requires
        prev.len() == cur.len(),
        forall|i: int| 0 <= i < cur.len() ==> (#[trigger] cur[i]).0 == prev[i].0,
    ensures
        !moves(prev, cur, dir),
{
    assert forall|d: Seq<char>, name: Seq<char>| #[trigger]
        is_inside(prev, d, name) <==> is_inside(cur, d, name) by {
        if is_inside(prev, d, name) {
            let i = choose|i: int|
                0 <= i < prev.len() && shows(
                    (#[trigger] prev[i]).0,
                    prev[i].0.len() as int,
                    d,
                    name,
                );
            assert(cur[i].0 == prev[i].0);
        }
        if is_inside(cur, d, name) {
            let i = choose|i: int|
                0 <= i < cur.len() && shows((#[trigger] cur[i]).0, cur[i].0.len() as int, d, name);
            assert(cur[i].0 == prev[i].0);
        }
    }
    if is_dir(cur, dir) && dir.len() > 0 {
        let name = choose|name: Seq<char>| #[trigger] is_inside(cur, dir, name);
        assert(is_inside(prev, dir, name));
    }
}

/// Gaining or losing a name moves a folder's time, as long as the folder is there.
pub proof fn gaining_or_losing_a_name_moves_a_folder(
    prev: Seq<(Seq<char>, Seq<char>)>,
    cur: Seq<(Seq<char>, Seq<char>)>,
    dir: Seq<char>,
    name: Seq<char>,
)
    requires
        is_inside(prev, dir, name) != is_inside(cur, dir, name),
        is_dir(cur, dir),
    ensures
        moves(prev, cur, dir),
{
}

/// What there is on a day: the notes and the report always, the invoice from the fifth
/// day on, the picture from the tenth, and the client's folder up to the fifteenth. The
/// report changes on the eighth day and on the twentieth, the notes on the
/// twenty-fifth.
pub proof fn what_there_is_on_a_day(day: int)
    ensures
        files_on(day).len() == 2 + if day >= 5 {
            1int
        } else {
            0
        } + if day >= 10 {
            1int
        } else {
            0
        } + if day <= 15 {
            2int
        } else {
            0
        },
        files_on(day).contains(
            (
                "Documents/notes.txt"@,
                if day < 25 {
                    "meeting notes"@
                } else {
                    "meeting notes plus action items"@
                },
            ),
        ),
        files_on(day).contains(
            (
                "Documents/report.odt"@,
                if day < 8 {
                    "report draft"@
                } else if day < 20 {
                    "report reviewed copy"@
                } else {
                    "report final signed version!!"@
                },
            ),
        ),
        day >= 5 ==> files_on(day).contains(
            ("Documents/invoice-may.pdf"@, "invoice may 2026 total due"@),
        ),
        day >= 10 ==> files_on(day).contains(("Pictures/vacation.jpg"@, "JPEG-BINARY"@)),
        day <= 15 ==> files_on(day).contains(
            ("old-client-folder/contract.pdf"@, "signed contract"@),
        ) && files_on(day).contains(("old-client-folder/proposal.odt"@, "project proposal"@)),
{
    let all = files_on(day);
    let i = if day >= 5 {
        1int
    } else {
        0
    };
    let p = if day >= 10 {
        1int
    } else {
        0
    };
    assert(all[i] == ("Documents/notes.txt"@, notes(day)));
    assert(all[i + 1] == ("Documents/report.odt"@, report(day)));
    if day >= 5 {
        assert(all[0] == ("Documents/invoice-may.pdf"@, "invoice may 2026 total due"@));
    }
    if day >= 10 {
        assert(all[i + 2] == ("Pictures/vacation.jpg"@, "JPEG-BINARY"@));
    }
    if day <= 15 {
        assert(all[i + 2 + p] == ("old-client-folder/contract.pdf"@, "signed contract"@));
        assert(all[i + 3 + p] == ("old-client-folder/proposal.odt"@, "project proposal"@));
    }
}

/// The data directory is where the desktop says, and otherwise in the home directory,
/// and otherwise here; an empty word from the desktop says nothing.
pub proof fn the_data_directory_is_where_the_desktop_says(
    xdg: Option<Seq<char>>,
    home: Option<Seq<char>>,
)
    ensures
        xdg matches Some(dir) ==> dir.len() > 0 ==> data_base(xdg, home) == dir,
        xdg is None || xdg->0.len() == 0 ==> (home matches Some(dir) ==> data_base(xdg, home)
            == paths::after(dir, ".local/share"@)),
        (xdg is None || xdg->0.len() == 0) && home is None ==> data_base(xdg, home) == "."@,
{
}

/// A stamp is read back: its year, month and day are a date, and that date with its
/// hour, minute and second is the moment it was made of.
pub proof fn a_stamp_is_read_back(secs: int, s: Seq<char>)
    requires
        is_stamp(secs, s),
    ensures
        ({
            let n = s.len() - 15;
            let y = if s[0] == '-' {
                -text::number(s.subrange(1, n))
            } else {
                text::number(s.subrange(0, n)) as int
            };
            let (m, d) = (
                text::number(s.subrange(n + 1, n + 3)),
                text::number(s.subrange(n + 4, n + 6)),
            );
            &&& n >= 4
            &&& s[n] == '-'
            &&& s[n + 3] == '-'
            &&& s[n + 6] == 'T'
            &&& s[n + 9] == ':'
            &&& s[n + 12] == ':'
            &&& is_date(y, m as int, d as int)
            &&& days_from_civil(y, m as int, d as int) * 86_400 + text::number(
                s.subrange(n + 7, n + 9),
            ) * 3_600 + text::number(s.subrange(n + 10, n + 12)) * 60 + text::number(
                s.subrange(n + 13, n + 15),
            ) == secs
        }),
{
    let (y, m, d) = choose|y: int, m: int, d: int|
        {
            &&& is_date(y, m, d)
            &&& #[trigger] days_from_civil(y, m, d) == secs / 86_400
            &&& s == stamp_of(secs, y, m, d)
        };
    calendar::a_clock_shows_every_second(secs % 86_400);
    let (h, mi, e) = clock(secs % 86_400);
    lemma_two_digits(m);
    lemma_two_digits(d);
    lemma_two_digits(h);
    lemma_two_digits(mi);
    lemma_two_digits(e);
    text::filling_up_keeps_the_sign(y, 4);
    text::filling_up_keeps_the_number(y as nat, 4);
    reveal_strlit("-");
    reveal_strlit("T");
    reveal_strlit(":");
    let year = padded_signed(y, 4);
    let n = year.len() as int;
    assert(s.len() == n + 15);
    assert(s.subrange(0, n) =~= year);
    assert(s.subrange(1, n) =~= year.skip(1));
    assert(s[0] == year[0]);
    assert(s.subrange(n + 1, n + 3) =~= padded(m as nat, 2));
    assert(s.subrange(n + 4, n + 6) =~= padded(d as nat, 2));
    assert(s.subrange(n + 7, n + 9) =~= padded(h as nat, 2));
    assert(s.subrange(n + 10, n + 12) =~= padded(mi as nat, 2));
    assert(s.subrange(n + 13, n + 15) =~= padded(e as nat, 2));
}

/// Two digits hold what is below one hundred.
proof fn lemma_two_digits(n: int)
    requires
        0 <= n < 100,
    ensures
        padded(n as nat, 2).len() == 2,
        text::number(padded(n as nat, 2)) == n,
{
    reveal_with_fuel(text::limit, 3);
    text::lemma_padded_is_digits(n as nat, 2);
    text::lemma_digits_read_back(n as nat, 2);
}

} // verus!
