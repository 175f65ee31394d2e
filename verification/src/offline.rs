//! Protecting changes while the backup destination is away.
//!
//! When the destination does not answer, everything unchanged since the last
//! backup is already safe there. Only what changes in the meantime is at risk,
//! so that is what is archived, on this computer, until the destination has
//! caught up. The space it may take is capped: the oldest local snapshots go
//! first, and when a single change is bigger than the whole allowance it is
//! taken once anyway, into an empty spool, and after that the spool holds.

use vstd::prelude::*;

use crate::pipeline::naming;
use crate::snapshot::Subvolume;
use crate::text;
#[allow(unused_imports)]
use crate::time::seconds;
use crate::time::{Span, Timestamp};

verus! {

/// One local snapshot, as the cap planner sees it.
#[derive(Debug, PartialEq, Eq)]
pub struct LocalArchive {
    pub seq: i64,
    pub name: String,
}

impl Clone for LocalArchive {
    fn clone(&self) -> (archive: LocalArchive)
        ensures
            archive == *self,
    {
        LocalArchive { seq: self.seq, name: self.name.clone() }
    }
}

/// What to do about the cap before writing a new archive.
#[derive(Debug, PartialEq, Eq)]
pub struct CapPlan {
    /// Archives to remove first, oldest first.
    pub evict: Vec<LocalArchive>,
    /// Whether to write the new archive at all.
    pub proceed: bool,
    /// Whether the user should be told the local safety net is under strain.
    pub degraded: bool,
}

/// The share of the held bytes that one archive is reckoned to take: no archive
/// has a size of its own in a deduplicating repository.
pub open spec fn share(held: u64, archives: nat) -> int {
    if archives == 0 {
        0
    } else {
        held as int / archives as int
    }
}

/// What is reckoned to be left of `held` bytes after `gone` of `archives` are
/// dropped.
pub open spec fn left_after(held: u64, archives: nat, gone: int) -> int {
    held - gone * share(held, archives)
}

/// Whether what is left and what arrives stays inside the cap. (The largest cap
/// there is cannot be exceeded.)
pub open spec fn fits(cap: u64, left: int, incoming: u64) -> bool {
    left + incoming <= cap || cap == u64::MAX
}

/// Decide what the cap allows.
///
/// `held` is what the spool occupies, `incoming` the projected size of the
/// archive about to be written, and `existing` the local snapshots, oldest
/// first. A cap of zero means no limit.
pub fn plan_cap(cap: u64, held: u64, incoming: u64, existing: &Vec<LocalArchive>) -> (plan: CapPlan)
    ensures
        cap == 0 ==> plan.evict@.len() == 0 && plan.proceed && !plan.degraded,
        cap > 0 ==> {
            let n = existing@.len();
            let gone = plan.evict@.len();
            &&& gone <= n
            &&& plan.evict@ == existing@.take(gone as int)
            &&& forall|k: int|
                0 <= k < gone ==> !fits(cap, #[trigger] left_after(held, n, k), incoming)
            &&& if fits(cap, left_after(held, n, gone as int), incoming) {
                plan.proceed && !plan.degraded
            } else {
                gone == n && plan.degraded && plan.proceed == (n == 0)
            }
        },
        held + incoming <= cap || cap == 0 ==> plan.evict@.len() == 0 && plan.proceed
            && !plan.degraded,
        existing@.len() == 0 ==> plan.proceed,
        cap > 0 && cap < u64::MAX && incoming > cap ==> plan.evict@ == existing@ && plan.degraded
            && plan.proceed == (existing@.len() == 0),
        plan.degraded <==> 0 < cap < u64::MAX && (if existing@.len() == 0 {
            held + incoming > cap
        } else {
            held as int % existing@.len() as int + incoming > cap
        }),
{
    proof {
        if existing@.len() > 0 {
            lemma_what_is_left(held, existing@.len());
        } else {
            assert(left_after(held, 0, 0) == held) by (nonlinear_arith);
        }
        assert(left_after(held, existing@.len(), 0) == held) by (nonlinear_arith);
    }

    if cap == 0 {
        return CapPlan { evict: Vec::new(), proceed: true, degraded: false };
    }
    let n: usize = existing.len();
    let per_archive: u64 = if n == 0 {
        0
    } else {
        held / n as u64
    };
    let ghost all = existing@.len();
    assert(per_archive == share(held, all));
    let mut evict: Vec<LocalArchive> = Vec::new();
    let mut remaining: u64 = held;
    let mut i: usize = 0;
    assert(left_after(held, all, 0) == held);
    while i < n && remaining.saturating_add(incoming) > cap
        invariant
            i <= n,
            n == existing@.len(),
            all == existing@.len(),
            per_archive == share(held, all),
            evict@ == existing@.take(i as int),
            remaining == left_after(held, all, i as int),
            forall|k: int|
                0 <= k < i ==> !fits(cap, #[trigger] left_after(held, all, k), incoming),
        decreases n - i,
    {
        evict.push(existing[i].clone());
        proof {
            assert(existing@.take(i + 1) =~= existing@.take(i as int).push(existing@[i as int]));
            lemma_shares_add_up(held, all, i + 1);
            assert(left_after(held, all, i + 1) == left_after(held, all, i as int) - share(
                held,
                all,
            )) by (nonlinear_arith);
        }
        remaining = remaining.saturating_sub(per_archive);
        i += 1;
    }
    proof {
        lemma_shares_add_up(held, all, i as int);
        lemma_less_is_left(held, all, i as int);
    }
    if remaining.saturating_add(incoming) <= cap {
        return CapPlan { evict, proceed: true, degraded: false };
    }
    // Nothing is left to drop and it still does not fit. An empty spool takes it
    // anyway: something protected beats nothing protected.
    CapPlan { evict, proceed: n == 0, degraded: true }
}

/// The shares of any number of the archives are no more than what is held.
proof fn lemma_shares_add_up(held: u64, archives: nat, gone: int)
    requires
        0 <= gone <= archives,
    ensures
        0 <= left_after(held, archives, gone) <= held,
{
    if archives > 0 {
        let s = held as int / archives as int;
        assert(0 <= s && s * archives <= held) by (nonlinear_arith)
            requires
                s == held as int / archives as int,
                archives > 0,
        ;
        assert(0 <= gone * s <= held) by (nonlinear_arith)
            requires
                0 <= gone <= archives,
                0 <= s,
                s * archives <= held,
        ;
    } else {
        assert(gone * 0 == 0);
    }
}

/// The names of local snapshots begin with this.
pub open spec fn local_prefix() -> Seq<char> {
    "bt-local-"@
}

/// The archive name for a local snapshot taken at `now`.
pub fn local_archive_name(now: Timestamp) -> (name: String)
    ensures
        name@ == naming::dated(local_prefix(), now@),
{
    let mut name = "bt-local-".to_owned();
    name.append(naming::iso8601_basic_at(now).as_str());
    name
}

/// How long a local snapshot is kept once the destination has caught up: thirty
/// days, in seconds.
pub const EXPIRE_AFTER_CATCH_UP: u64 = 2_592_000;

/// How this machine holds changes while the destination is away.
#[derive(Debug, PartialEq, Eq)]
pub enum Mode {
    /// In a small repository of its own. Works everywhere.
    Spool,
    /// In read-only snapshots of this subvolume.
    FsSnapshot(Subvolume),
}

impl Clone for Mode {
    fn clone(&self) -> (mode: Mode)
        ensures
            mode == *self,
    {
        match self {
            Mode::Spool => Mode::Spool,
            Mode::FsSnapshot(subvolume) => Mode::FsSnapshot(
                Subvolume { root: subvolume.root.clone(), prefix: subvolume.prefix.clone() },
            ),
        }
    }
}

impl Mode {
    /// The name of the mode.
    pub open spec fn name(self) -> Seq<char> {
        match self {
            Mode::Spool => "spool"@,
            Mode::FsSnapshot(_) => "fs-snapshot"@,
        }
    }

    /// The name of the mode.
    pub fn as_str(&self) -> (name: &'static str)
        ensures
            name@ == self.name(),
    {
        match self {
            Mode::Spool => "spool",
            Mode::FsSnapshot(_) => "fs-snapshot",
        }
    }
}

/// Whether every source is in the subvolume of the first.
pub open spec fn one_subvolume(found: Seq<Option<Subvolume>>) -> bool {
    &&& found.len() > 0
    &&& forall|i: int|
        0 <= i < found.len() ==> (#[trigger] found[i]) is Some && found[i]->0.root@
            == found[0]->0.root@
}

/// Whether snapshots can stand in for the spool: all sources are in one
/// subvolume, of which a snapshot would hold them all.
pub fn snapshot_candidate(found: &Vec<Option<Subvolume>>) -> (subvolume: Option<Subvolume>)
    ensures
        subvolume is Some <==> one_subvolume(found@),
        subvolume matches Some(s) ==> Some(s) == found@[0],
        subvolume is None ==> found@.len() == 0 || exists|i: int|
            0 <= i < found@.len() && ((#[trigger] found@[i]) is None || found@[0] is None
                || found@[i]->0.root@ != found@[0]->0.root@),
        forall|i: int|
            subvolume is Some && 0 <= i < found@.len() ==> (#[trigger] found@[i]) is Some
                && found@[i]->0.root@ == subvolume->0.root@,
{
    if found.len() == 0 {
        return None;
    }
    let first = match &found[0] {
        Some(first) => Subvolume { root: first.root.clone(), prefix: first.prefix.clone() },
        None => {
            assert(found@[0] is None);
            return None;
        },
    };
    let mut i: usize = 1;
    while i < found.len()
        invariant
            1 <= i <= found@.len(),
            found@[0] == Some(first),
            forall|k: int|
                0 <= k < i ==> (#[trigger] found@[k]) is Some && found@[k]->0.root@
                    == found@[0]->0.root@,
        decreases found@.len() - i,
    {
        match &found[i] {
            Some(other) => {
                if !text::same(other.root.as_str(), first.root.as_str()) {
                    assert(found@[i as int]->0.root@ != found@[0]->0.root@);
                    return None;
                }
            },
            None => {
                assert(found@[i as int] is None);
                return None;
            },
        }
        i += 1;
    }
    Some(first)
}

/// The mode of a machine, from the subvolume that its sources share, if they
/// share one, and whether the rehearsal of a snapshot there went well.
pub fn detect(candidate: Option<Subvolume>, usable: bool) -> (mode: Mode)
    ensures
        mode == match candidate {
            Some(subvolume) => if usable {
                Mode::FsSnapshot(subvolume)
            } else {
                Mode::Spool
            },
            None => Mode::Spool,
        },
{
    match candidate {
        Some(subvolume) => {
            if usable {
                Mode::FsSnapshot(subvolume)
            } else {
                Mode::Spool
            }
        },
        None => Mode::Spool,
    }
}

/// A local snapshot, as the catalogue lists it.
#[derive(Debug, PartialEq, Eq)]
pub struct LocalRow {
    pub seq: i64,
    pub name: String,
    /// Whether it is a snapshot of the filesystem; otherwise it is in the spool.
    pub is_fs_snapshot: bool,
    /// When the destination caught up with it, in seconds since the epoch.
    pub expirable_at: Option<i64>,
}

impl LocalRow {
    /// Whether the snapshot's time is up: thirty days after the destination
    /// caught up with it.
    pub open spec fn is_expired(self, now: int) -> bool {
        self.expirable_at is Some && seconds(self.expirable_at->0 as int) + seconds(2_592_000)
            <= now
    }
}

/// Whether a local snapshot's time is up.
pub fn expired(row: &LocalRow, now: Timestamp) -> (yes: bool)
    ensures
        yes == row.is_expired(now@),
        yes <==> (row.expirable_at matches Some(at) && now@ - at * 1_000_000_000
            >= 2_592_000_000_000_000),
{
    match row.expirable_at {
        Some(at) => match now.since(Timestamp::from_secs(at)) {
            Some(age) => !age.is_shorter_than(Span::from_secs(EXPIRE_AFTER_CATCH_UP)),
            None => false,
        },
        None => false,
    }
}

/// The rows that are past their time and in this store, in the order in which
/// they are held.
pub open spec fn to_sweep(held: Seq<LocalRow>, now: int, fs_snapshots: bool) -> Seq<(
    i64,
    Seq<char>,
)>
    decreases held.len(),
{
    if held.len() == 0 {
        Seq::empty()
    } else {
        let rest = to_sweep(held.drop_last(), now, fs_snapshots);
        let row = held.last();
        if row.is_expired(now) && row.is_fs_snapshot == fs_snapshots {
            rest.push((row.seq, row.name@))
        } else {
            rest
        }
    }
}

/// Row numbers and names, with the names as text.
pub open spec fn told(rows: Seq<(i64, String)>) -> Seq<(i64, Seq<char>)> {
    rows.map_values(|row: (i64, String)| (row.0, row.1@))
}

/// The local snapshots whose time is up: those of the filesystem, and those in
/// the spool.
pub fn sweep(held: &Vec<LocalRow>, now: Timestamp) -> (gone: (
    Vec<(i64, String)>,
    Vec<(i64, String)>,
))
    ensures
        told(gone.0@) == to_sweep(held@, now@, true),
        told(gone.1@) == to_sweep(held@, now@, false),
{
    let mut snapshots: Vec<(i64, String)> = Vec::new();
    let mut spooled: Vec<(i64, String)> = Vec::new();
    let mut i: usize = 0;
    assert(told(snapshots@) =~= to_sweep(held@.take(0), now@, true));
    assert(told(spooled@) =~= to_sweep(held@.take(0), now@, false));
    while i < held.len()
        invariant
            i <= held@.len(),
            told(snapshots@) == to_sweep(held@.take(i as int), now@, true),
            told(spooled@) == to_sweep(held@.take(i as int), now@, false),
        decreases held@.len() - i,
    {
        let ghost (a, b) = (snapshots@, spooled@);
        let ghost row = held@[i as int];
        assert(held@.take(i + 1).drop_last() =~= held@.take(i as int));
        if expired(&held[i], now) {
            let name = held[i].name.clone();
            if held[i].is_fs_snapshot {
                snapshots.push((held[i].seq, name));
                assert(told(snapshots@) =~= told(a).push((row.seq, row.name@)));
            } else {
                spooled.push((held[i].seq, name));
                assert(told(spooled@) =~= told(b).push((row.seq, row.name@)));
            }
        }
        i += 1;
    }
    assert(held@.take(i as int) =~= held@);
    (snapshots, spooled)
}

/// While the destination has not caught up with it, a local snapshot may hold
/// the only copy of something, and is never swept away.
pub proof fn an_unmarked_snapshot_is_never_swept(
    held: Seq<LocalRow>,
    now: int,
    fs_snapshots: bool,
    seq: i64,
)
    requires
        forall|i: int| 0 <= i < held.len() && (#[trigger] held[i]).seq == seq ==> held[i].expirable_at is None,
    ensures
        forall|k: int|
            0 <= k < to_sweep(held, now, fs_snapshots).len() ==> (#[trigger] to_sweep(
                held,
                now,
                fs_snapshots,
            )[k]).0 != seq,
    decreases held.len(),
{
    if held.len() > 0 {
        let rest = held.drop_last();
        assert forall|i: int| 0 <= i < rest.len() && (#[trigger] rest[i]).seq == seq implies rest[i].expirable_at is None by {
            assert(held[i] == rest[i]);
        }
        an_unmarked_snapshot_is_never_swept(rest, now, fs_snapshots, seq);
        assert(held[held.len() - 1] == held.last());
        let swept = to_sweep(rest, now, fs_snapshots);
        assert forall|k: int| 0 <= k < to_sweep(held, now, fs_snapshots).len() implies (
        #[trigger] to_sweep(held, now, fs_snapshots)[k]).0 != seq by {
            if k < swept.len() {
                assert(to_sweep(held, now, fs_snapshots)[k] == swept[k]);
            }
        }
    }
}

/// What the local safety net is holding, as the status reports it.
#[derive(Debug, PartialEq, Eq)]
pub struct LocalProtection {
    pub bytes: u64,
    pub snapshots: u32,
    pub expirable: u32,
    pub mode: String,
}

/// How many of some rows the destination has caught up with.
pub open spec fn marked(held: Seq<LocalRow>) -> nat
    decreases held.len(),
{
    if held.len() == 0 {
        0
    } else {
        marked(held.drop_last()) + if held.last().expirable_at is Some {
            1nat
        } else {
            0
        }
    }
}

/// Count the rows that the destination has caught up with.
pub fn count_marked(held: &Vec<LocalRow>) -> (count: usize)
    ensures
        count == marked(held@),
        count <= held@.len(),
{
    let mut count: usize = 0;
    let mut i: usize = 0;
    while i < held.len()
        invariant
            i <= held@.len(),
            count <= i,
            count == marked(held@.take(i as int)),
        decreases held@.len() - i,
    {
        assert(held@.take(i + 1).drop_last() =~= held@.take(i as int));
        if held[i].expirable_at.is_some() {
            count += 1;
        }
        i += 1;
    }
    assert(held@.take(i as int) =~= held@);
    count
}

/// What was found in a folder: where it is and, if it could be looked at, what
/// it is.
#[derive(Debug, PartialEq, Eq)]
pub struct TreeEntry {
    pub path: String,
    /// Whether it is a folder, and its size otherwise.
    pub meta: Option<(bool, u64)>,
}

/// The bytes of the files directly among some entries.
pub open spec fn file_bytes(entries: Seq<TreeEntry>) -> nat
    decreases entries.len(),
{
    if entries.len() == 0 {
        0
    } else {
        file_bytes(entries.drop_last()) + match entries.last().meta {
            Some((false, size)) => size as nat,
            _ => 0,
        }
    }
}

/// The folders among some entries, in their order.
pub open spec fn folders_among(entries: Seq<TreeEntry>) -> Seq<Seq<char>>
    decreases entries.len(),
{
    if entries.len() == 0 {
        Seq::empty()
    } else {
        let before = folders_among(entries.drop_last());
        match entries.last().meta {
            Some((true, _)) => before.push(entries.last().path@),
            _ => before,
        }
    }
}

/// A sum that stays at the greatest number there is instead of passing it.
pub open spec fn capped(n: int) -> int {
    if n > u64::MAX {
        u64::MAX as int
    } else {
        n
    }
}

/// Adding up a folder and everything below it.
///
/// A folder that cannot be read, and an entry that cannot be looked at, count
/// as nothing: a spool that does not exist yet occupies no space.
#[derive(Debug)]
pub struct DirectoryBytes {
    left: Vec<String>,
    total: u64,
}

/// Start adding up a folder.
pub fn directory_bytes(dir: String) -> (sum: DirectoryBytes)
    ensures
        sum.left() == seq![dir@],
        sum.so_far() == 0,
{
    let mut left: Vec<String> = Vec::new();
    left.push(dir);
    assert(text::views(left@) =~= seq![dir@]);
    DirectoryBytes { left, total: 0 }
}

impl DirectoryBytes {
    /// The folders still to be read.
    pub closed spec fn left(self) -> Seq<Seq<char>> {
        text::views(self.left@)
    }

    /// The bytes counted.
    pub closed spec fn so_far(self) -> u64 {
        self.total
    }

    /// The folder to read next, if one is left.
    pub fn next(&mut self) -> (folder: Option<String>)
        ensures
            final(self).so_far() == old(self).so_far(),
            match folder {
                None => old(self).left().len() == 0 && final(self).left() == old(self).left(),
                Some(path) => {
                    &&& old(self).left().len() > 0
                    &&& path@ == old(self).left().last()
                    &&& final(self).left() == old(self).left().drop_last()
                },
            },
    {
        let ghost before = self.left@;
        let folder = self.left.pop();
        proof {
            if before.len() > 0 {
                assert(text::views(before).drop_last() =~= text::views(self.left@));
            }
        }
        folder
    }

    /// What was found in the folder, or nothing if it could not be read.
    pub fn tell(&mut self, listing: Option<Vec<TreeEntry>>)
        ensures
            match listing {
                None => *final(self) == *old(self),
                Some(entries) => {
                    &&& final(self).so_far() == capped(old(self).so_far() + file_bytes(entries@))
                    &&& final(self).left() == old(self).left() + folders_among(entries@)
                },
            },
    {
        if let Some(entries) = listing {
            let ghost (left, total) = (text::views(self.left@), self.total);
            let mut i: usize = 0;
            assert(left + Seq::<Seq<char>>::empty() =~= left);
            while i < entries.len()
                invariant
                    i <= entries@.len(),
                    self.total == capped(total + file_bytes(entries@.take(i as int))),
                    text::views(self.left@) == left + folders_among(entries@.take(i as int)),
                decreases entries@.len() - i,
            {
                proof {
                    assert(entries@.take(i + 1).drop_last() =~= entries@.take(i as int));
                }
                if let Some((is_dir, size)) = entries[i].meta {
                    if is_dir {
                        let ghost before = self.left@;
                        self.left.push(entries[i].path.clone());
                        assert(text::views(self.left@) =~= text::views(before).push(
                            entries@[i as int].path@,
                        ));
                    } else {
                        self.total = self.total.saturating_add(size);
                    }
                }
                proof {
                    assert(text::views(self.left@) =~= left + folders_among(
                        entries@.take(i + 1),
                    ));
                }
                i += 1;
            }
            assert(entries@.take(i as int) =~= entries@);
        }
    }

    /// The bytes counted.
    pub fn total(&self) -> (bytes: u64)
        ensures
            bytes == self.so_far(),
    {
        self.total
    }
}

/// Dropping every archive leaves what does not divide among them.
proof fn lemma_what_is_left(held: u64, archives: nat)
    requires
        archives > 0,
    ensures
        left_after(held, archives, archives as int) == held as int % archives as int,
        0 <= held as int % archives as int,
{
    assert(held as int == (archives as int) * (held as int / archives as int) + held as int
        % archives as int) by (nonlinear_arith)
        requires
            archives > 0,
    ;
    assert((archives as int) * (held as int / archives as int) == (held as int / archives as int)
        * archives) by (nonlinear_arith);
    assert(0 <= held as int % archives as int) by (nonlinear_arith)
        requires
            archives > 0,
    ;
}

/// Dropping every archive leaves no more than dropping some.
proof fn lemma_less_is_left(held: u64, archives: nat, gone: int)
    requires
        0 <= gone <= archives,
    ensures
        left_after(held, archives, archives as int) <= left_after(held, archives, gone),
{
    let s = share(held, archives);
    if archives > 0 {
        assert(0 <= s) by (nonlinear_arith)
            requires
                archives > 0,
                s == held as int / archives as int,
        ;
        assert(gone * s <= archives * s) by (nonlinear_arith)
            requires
                0 <= s,
                gone <= archives,
        ;
    }
}

/// How what is held is reckoned: each archive that goes takes as much as any other,
/// nothing is reckoned away that is not held, and all of them together leave less
/// than one byte for each.
pub proof fn each_archive_takes_an_equal_share(held: u64, archives: nat, gone: int)
    requires
        0 <= gone < archives,
    ensures
        left_after(held, archives, 0) == held,
        left_after(held, archives, gone) - left_after(held, archives, gone + 1) == held as int
            / archives as int,
        0 <= left_after(held, archives, gone + 1) <= left_after(held, archives, gone) <= held,
        0 <= left_after(held, archives, archives as int) < archives,
{
    lemma_shares_add_up(held, archives, gone);
    lemma_shares_add_up(held, archives, gone + 1);
    lemma_what_is_left(held, archives);
    let s = share(held, archives);
    assert(0 <= s) by (nonlinear_arith)
        requires
            archives > 0,
            s == held as int / archives as int,
    ;
    assert(held - gone * s - (held - (gone + 1) * s) == s) by (nonlinear_arith);
    assert(held as int % archives as int <= archives - 1) by (nonlinear_arith)
        requires
            archives > 0,
    ;
    assert(held - 0 * s == held) by (nonlinear_arith);
}

/// The cap is kept to the byte: what is left and what arrives may fill it and no
/// more, and less of either fits wherever more does.
pub proof fn the_cap_is_kept_to_the_byte(cap: u64, left: int, incoming: u64)
    ensures
        cap < u64::MAX ==> (fits(cap, left, incoming) <==> left <= cap - incoming),
        cap == u64::MAX ==> fits(cap, left, incoming),
{
}

/// Whether a row is in a store and thirty days past the day on which the
/// destination caught up with it.
pub open spec fn has_had_its_time(row: LocalRow, now: int, fs_snapshots: bool) -> bool {
    &&& row.is_fs_snapshot == fs_snapshots
    &&& row.expirable_at matches Some(at)
    &&& now - at * 1_000_000_000 >= 2_592_000_000_000_000
}

/// What is swept away is every row of the store whose thirty days are over, by its
/// own number and name, in the order in which they are held, and nothing else.
pub proof fn every_row_past_its_time_is_swept(held: Seq<LocalRow>, now: int, fs_snapshots: bool)
    ensures
        to_sweep(held, now, fs_snapshots) == held.filter(
            |row: LocalRow| has_had_its_time(row, now, fs_snapshots),
        ).map_values(|row: LocalRow| (row.seq, row.name@)),
    decreases held.len(),
{
    reveal(Seq::filter);
    let past = |row: LocalRow| has_had_its_time(row, now, fs_snapshots);
    let named = |row: LocalRow| (row.seq, row.name@);
    if held.len() > 0 {
        every_row_past_its_time_is_swept(held.drop_last(), now, fs_snapshots);
        let rest = held.drop_last().filter(past);
        if past(held.last()) {
            assert(held.filter(past) =~= rest.push(held.last()));
            assert(held.filter(past).map_values(named) =~= rest.map_values(named).push(
                named(held.last()),
            ));
        } else {
            assert(held.filter(past) =~= rest);
        }
    } else {
        assert(held.filter(past).map_values(named) =~= Seq::empty());
    }
}

/// Every row that the destination has caught up with is counted once.
pub proof fn every_marked_row_is_counted(held: Seq<LocalRow>)
    ensures
        marked(held) == held.filter(|row: LocalRow| row.expirable_at is Some).len(),
    decreases held.len(),
{
    reveal(Seq::filter);
    if held.len() > 0 {
        every_marked_row_is_counted(held.drop_last());
    }
}

/// The bytes of some entries are those of each: a file counts its size, and
/// anything else counts nothing.
pub proof fn every_file_counts_its_size(entries: Seq<TreeEntry>, entry: TreeEntry)
    ensures
        file_bytes(Seq::empty()) == 0,
        file_bytes(entries.push(entry)) == file_bytes(entries) + match entry.meta {
            Some((is_dir, size)) => if is_dir {
                0
            } else {
                size as nat
            },
            None => 0,
        },
{
    assert(entries.push(entry).drop_last() =~= entries);
}

/// The folders among some entries are read next, each where it is.
pub proof fn every_folder_is_read(entries: Seq<TreeEntry>)
    ensures
        folders_among(entries) == entries.filter(
            |entry: TreeEntry| entry.meta matches Some((is_dir, _)) && is_dir,
        ).map_values(|entry: TreeEntry| entry.path@),
    decreases entries.len(),
{
    reveal(Seq::filter);
    let chosen = |entry: TreeEntry| entry.meta matches Some((is_dir, _)) && is_dir;
    let place = |entry: TreeEntry| entry.path@;
    if entries.len() > 0 {
        every_folder_is_read(entries.drop_last());
        let rest = entries.drop_last().filter(chosen);
        if chosen(entries.last()) {
            assert(entries.filter(chosen) =~= rest.push(entries.last()));
            assert(entries.filter(chosen).map_values(place) =~= rest.map_values(place).push(
                place(entries.last()),
            ));
        } else {
            assert(entries.filter(chosen) =~= rest);
        }
    } else {
        assert(entries.filter(chosen).map_values(place) =~= Seq::empty());
    }
}

/// A sum is kept as it is while it can be, and stays at the top after that.
pub proof fn a_capped_sum_never_falls(a: int, b: int)
    requires
        0 <= a,
        0 <= b,
    ensures
        a <= u64::MAX ==> capped(a) == a,
        a > u64::MAX ==> capped(a) == u64::MAX,
        capped(capped(a) + b) == capped(a + b),
{
}

/// Each way of protecting changes has its name.
pub proof fn each_mode_has_its_name(mode: Mode)
    ensures
        mode is Spool ==> mode.name() == "spool"@,
        mode is FsSnapshot ==> mode.name() == "fs-snapshot"@,
        local_prefix() == "bt-local-"@,
{
}

} // verus!
