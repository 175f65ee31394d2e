//! Copy-on-write snapshots of the filesystem, where the machine can take them.
//!
//! A snapshot is near-free, and restoring from one is a file copy. Whether it
//! works is a question the machine has to be asked: a home directory is usually
//! inside a subvolume that belongs to somebody else. So the answer comes from a
//! rehearsal that takes a snapshot and removes it again. One that can be taken
//! and not removed is worse than none: nothing could ever expire it.

use vstd::prelude::*;

use crate::time::{Span, Timestamp};
#[allow(unused_imports)]
use crate::text::glued;
#[allow(unused_imports)]
use crate::time::{end_of_time, seconds};

verus! {

/// The number by which a btrfs filesystem announces itself.
pub const BTRFS_MAGIC: u64 = 0x9123_683e;

/// The inode number of every subvolume root.
pub const SUBVOLUME_ROOT_INO: u64 = 256;

/// How long hourly local snapshots are kept, in seconds.
pub const SNAPSHOT_RETENTION: u64 = 86_400;

/// A subvolume, and where a path of interest sits inside it.
#[derive(Debug, PartialEq, Eq)]
pub struct Subvolume {
    /// The subvolume's root.
    pub root: String,
    /// The path of interest, relative to that root. Empty when the path is the
    /// root. A file at `<root>/<prefix>/x` is in a snapshot at
    /// `<snapshot>/<prefix>/x`.
    pub prefix: String,
}

/// What is known of one directory on the way up from a path.
#[derive(Debug, PartialEq, Eq)]
pub struct Rung {
    /// The directory.
    pub path: String,
    /// The last component of its path, if it has one.
    pub name: Option<String>,
    /// The device it is on, if it could be looked at.
    pub device: Option<u64>,
    /// The number its filesystem announces itself by, if it could be asked.
    pub magic: Option<u64>,
    /// Its inode number, if it could be looked at.
    pub inode: Option<u64>,
}

impl Rung {
    /// Whether it is on btrfs.
    pub open spec fn on_btrfs(self) -> bool {
        self.magic == Some(BTRFS_MAGIC)
    }

    /// Whether it is the root of a subvolume.
    pub open spec fn is_root(self) -> bool {
        self.inode == Some(SUBVOLUME_ROOT_INO)
    }

    /// Whether it is on btrfs.
    pub fn is_btrfs(&self) -> (yes: bool)
        ensures
            yes == self.on_btrfs(),
    {
        match self.magic {
            Some(magic) => magic == BTRFS_MAGIC,
            None => false,
        }
    }

    /// Whether it is the root of a subvolume.
    pub fn is_subvolume_root(&self) -> (yes: bool)
        ensures
            yes == self.is_root(),
    {
        match self.inode {
            Some(inode) => inode == SUBVOLUME_ROOT_INO,
            None => false,
        }
    }
}

/// Whether the climb from the path reaches rung `k`: nothing below it is a
/// subvolume root, everything up to it is on the path's own btrfs filesystem,
/// and everything below it has a name.
pub open spec fn reaches(rungs: Seq<Rung>, k: int) -> bool {
    &&& 0 <= k < rungs.len()
    &&& rungs[0].on_btrfs()
    &&& rungs[0].device is Some
    &&& forall|i: int|
        0 <= i < k ==> !(#[trigger] rungs[i]).is_root() && rungs[i].name is Some
    &&& forall|i: int|
        1 <= i <= k ==> (#[trigger] rungs[i]).on_btrfs() && rungs[i].device == rungs[0].device
}

/// The names of the lowest `k` rungs as a path, the highest first.
pub open spec fn prefix_of(rungs: Seq<Rung>, k: int) -> Seq<char>
    decreases k,
{
    if k <= 0 {
        Seq::empty()
    } else if k == 1 {
        rungs[0].name->0@
    } else {
        rungs[k - 1].name->0@ + (seq!['/'] + prefix_of(rungs, k - 1))
    }
}

/// The subvolume containing a path, and the path's position inside it.
///
/// `rungs` are the path, its parent, the parent's parent, and so on. The climb
/// stops at the edge of the filesystem: beyond it, a subvolume would not contain
/// the path, and a snapshot of it would protect the wrong data.
pub fn containing_subvolume(rungs: &Vec<Rung>) -> (found: Option<Subvolume>)
    ensures
        found is Some <==> exists|k: int| #[trigger] reaches(rungs@, k) && rungs@[k].is_root(),
        found matches Some(subvolume) ==> exists|k: int|
            {
                &&& #[trigger] reaches(rungs@, k)
                &&& rungs@[k].is_root()
                &&& subvolume.root@ == rungs@[k].path@
                &&& subvolume.prefix@ == prefix_of(rungs@, k)
            },
{
    if rungs.len() == 0 || !rungs[0].is_btrfs() {
        return None;
    }
    let device: u64 = match rungs[0].device {
        Some(device) => device,
        None => {
            return None;
        },
    };
    let mut prefix = String::new();
    let mut i: usize = 0;
    while i < rungs.len()
        invariant
            i < rungs@.len() ==> reaches(rungs@, i as int),
            rungs@.len() > 0,
            rungs@[0].on_btrfs(),
            rungs@[0].device == Some(device),
            forall|k: int| 0 <= k < i ==> !(#[trigger] rungs@[k]).is_root(),
            i <= rungs@.len(),
            prefix@ == prefix_of(rungs@, i as int),
        decreases rungs@.len() - i,
    {
        if rungs[i].is_subvolume_root() {
            assert(reaches(rungs@, i as int));
            return Some(Subvolume { root: rungs[i].path.clone(), prefix });
        }
        if i + 1 >= rungs.len() {
            return None;
        }
        let on_device = match rungs[i + 1].device {
            Some(other) => other == device,
            None => false,
        };
        if !on_device || !rungs[i + 1].is_btrfs() {
            proof {
                assert forall|k: int| #[trigger] reaches(rungs@, k) implies !rungs@[k].is_root() by {
                    if k > i {
                        let next = rungs@[i + 1];
                        assert(next.on_btrfs() && next.device == rungs@[0].device);
                    }
                }
            }
            return None;
        }
        match &rungs[i].name {
            None => {
                proof {
                    assert forall|k: int| #[trigger] reaches(rungs@, k) implies !rungs@[k].is_root() by {
                        if k > i {
                            assert(rungs@[i as int].name is Some);
                        }
                    }
                }
                return None;
            },
            Some(name) => {
                let longer = if i == 0 {
                    name.clone()
                } else {
                    let mut longer = name.clone();
                    longer.push('/');
                    longer.append(prefix.as_str());
                    assert(longer@ =~= rungs@[i as int].name->0@ + (seq!['/'] + prefix@));
                    longer
                };
                prefix = longer;
            },
        }
        i += 1;
    }
    None
}

/// What the rehearsal is told.
#[derive(Debug, Clone, Copy, PartialEq, Eq, Structural)]
pub enum ProbeInput {
    /// Whether something is left of an earlier rehearsal.
    Looked { leftover: bool },
    /// What was left has been dealt with, as far as that went.
    Cleared,
    /// Whether the snapshot was taken.
    Created { ok: bool },
    /// Whether it was removed again.
    Removed { ok: bool },
    /// What could not be removed has been dealt with, as far as that went.
    Swept,
}

/// What the rehearsal does next.
#[derive(Debug, Clone, Copy, PartialEq, Eq, Structural)]
pub enum ProbeOrder {
    /// Remove what an earlier rehearsal left.
    Clear,
    /// Take a snapshot.
    Create,
    /// Remove it.
    Remove,
    /// Unlink what could not be removed.
    Sweep,
    /// Snapshots can be used here, or cannot.
    Finish { usable: bool },
}

/// Rehearse: clear up, take a snapshot, remove it.
pub fn probe(input: ProbeInput) -> (order: ProbeOrder)
    ensures
        order == match input {
            ProbeInput::Looked { leftover } => if leftover {
                ProbeOrder::Clear
            } else {
                ProbeOrder::Create
            },
            ProbeInput::Cleared => ProbeOrder::Create,
            ProbeInput::Created { ok } => if ok {
                ProbeOrder::Remove
            } else {
                (ProbeOrder::Finish { usable: false })
            },
            ProbeInput::Removed { ok } => if ok {
                (ProbeOrder::Finish { usable: true })
            } else {
                ProbeOrder::Sweep
            },
            ProbeInput::Swept => (ProbeOrder::Finish { usable: false }),
        },
{
    match input {
        ProbeInput::Looked { leftover } => {
            if leftover {
                ProbeOrder::Clear
            } else {
                ProbeOrder::Create
            }
        },
        ProbeInput::Cleared => ProbeOrder::Create,
        ProbeInput::Created { ok } => {
            if ok {
                ProbeOrder::Remove
            } else {
                ProbeOrder::Finish { usable: false }
            }
        },
        ProbeInput::Removed { ok } => {
            if ok {
                ProbeOrder::Finish { usable: true }
            } else {
                ProbeOrder::Sweep
            }
        },
        ProbeInput::Swept => ProbeOrder::Finish { usable: false },
    }
}

/// When a snapshot taken at `created` goes: after a day, or when the mark says,
/// if that is earlier.
pub open spec fn expiry(created: int, marked: Option<int>) -> int {
    let by_age = created + seconds(86_400);
    match marked {
        Some(at) => if at <= by_age {
            at
        } else {
            by_age
        },
        None => by_age,
    }
}

/// When a local snapshot should be removed.
pub fn expires_at(created: Timestamp, expirable_at: Option<Timestamp>) -> (at: Timestamp)
    requires
        created@ + seconds(86_400) < end_of_time(),
    ensures
        at@ == expiry(
            created@,
            match expirable_at {
                Some(marked) => Some(marked@),
                None => None,
            },
        ),
{
    let by_age = created.plus(Span::from_secs(SNAPSHOT_RETENTION));
    match expirable_at {
        Some(marked) => {
            if by_age.is_before(marked) {
                by_age
            } else {
                marked
            }
        },
        None => by_age,
    }
}

/// A path is in one subvolume at most, that of the nearest root above it on its own
/// btrfs filesystem: what is beyond the edge of that filesystem, or beyond a nearer
/// root, is never taken for it.
pub proof fn the_nearest_root_is_the_one(rungs: Seq<Rung>, k: int, other: int)
    requires
        reaches(rungs, k),
        rungs[k].is_root(),
        reaches(rungs, other),
        rungs[other].is_root(),
    ensures
        k == other,
        rungs[k].inode == Some(256u64),
        forall|i: int| 0 <= i < k ==> (#[trigger] rungs[i]).inode != Some(256u64),
        forall|i: int|
            0 <= i <= k ==> (#[trigger] rungs[i]).magic == Some(0x9123_683eu64) && rungs[i].device
                is Some && rungs[i].device == rungs[0].device,
{
}

/// A root that can be climbed to on one filesystem is reached.
pub proof fn a_root_on_the_same_filesystem_is_reached(rungs: Seq<Rung>, k: int)
    requires
        0 <= k < rungs.len(),
        rungs[0].device is Some,
        forall|i: int|
            0 <= i <= k ==> (#[trigger] rungs[i]).magic == Some(0x9123_683eu64)
                && rungs[i].device == rungs[0].device,
        forall|i: int|
            0 <= i < k ==> (#[trigger] rungs[i]).inode != Some(256u64) && rungs[i].name is Some,
    ensures
        reaches(rungs, k),
{
    assert(rungs[0].magic == Some(0x9123_683eu64));
}

/// The place of a path below its root is made of the names on the way, from the
/// top down, with a separator between each.
pub proof fn the_way_down_is_named_from_the_top(rungs: Seq<Rung>, k: int)
    requires
        0 <= k <= rungs.len(),
    ensures
        prefix_of(rungs, k) == glued(
            Seq::new(k as nat, |i: int| rungs[k - 1 - i].name->0@),
            '/',
        ),
    decreases k,
{
    let names = Seq::new(k as nat, |i: int| rungs[k - 1 - i].name->0@);
    if k > 1 {
        the_way_down_is_named_from_the_top(rungs, k - 1);
        let lower = Seq::new((k - 1) as nat, |i: int| rungs[k - 2 - i].name->0@);
        assert(names.drop_first() =~= lower);
        assert(names[0] + seq!['/'] + glued(lower, '/') =~= rungs[k - 1].name->0@ + (seq!['/']
            + prefix_of(rungs, k - 1)));
    }
}

/// A snapshot goes a day after it was taken, and earlier where it is marked so, but
/// never later.
pub proof fn a_snapshot_goes_after_a_day(created: int, marked: Option<int>)
    ensures
        expiry(created, None) == created + 86_400_000_000_000,
        expiry(created, marked) <= created + 86_400_000_000_000,
        marked matches Some(at) ==> expiry(created, marked) <= at,
        marked matches Some(at) ==> expiry(created, marked) == at || expiry(created, marked)
            == created + 86_400_000_000_000,
{
}

} // verus!
