//! The gates a scheduled backup passes before it starts.
//!
//! A skip is a decision, not a failure: nothing here counts as an attempt. And
//! uncertainty never blocks a backup: a gate that cannot tell always opens, or a
//! machine would quietly stop backing up because a service nobody has heard of
//! is not installed.

use vstd::prelude::*;

use crate::reachability;
use crate::text;
#[allow(unused_imports)]
use crate::text::{begins, first_of};

verus! {

/// Below this much free local space a scheduled backup is skipped: 100 MiB.
pub const DISK_FLOOR: u64 = 104_857_600;

/// Below this much, backups run but the disk is worth mentioning: 1 GiB.
pub const DISK_WARN: u64 = 1_073_741_824;

/// How long to wait for the system bus before the answer is unknown, in seconds.
pub const PROBE_TIMEOUT: u64 = 3;

/// What preflight decided.
#[derive(Debug, Clone, Copy, PartialEq, Eq, Structural)]
pub enum Verdict {
    /// Run the backup.
    Go,
    /// Do not run, for this reason.
    Skip(Skip),
}

/// Why a scheduled backup did not start. None of these is an error.
#[derive(Debug, Clone, Copy, PartialEq, Eq, Structural)]
pub enum Skip {
    /// The user paused backups.
    Paused,
    /// On battery, and the configuration says not to.
    OnBattery,
    /// The connection is metered, the destination is across it, and the
    /// configuration says not to.
    Metered,
    /// The destination did not answer.
    Unreachable,
    /// Not enough room on this computer for the catalogue to grow.
    LocalDiskLow { free: u64 },
}

impl Skip {
    /// The token for logs.
    pub open spec fn name(self) -> Seq<char> {
        match self {
            Skip::Paused => "paused"@,
            Skip::OnBattery => "on-battery"@,
            Skip::Metered => "metered-connection"@,
            Skip::Unreachable => "destination-unreachable"@,
            Skip::LocalDiskLow { .. } => "local-disk-low"@,
        }
    }

    /// The sentence for the log.
    pub open spec fn sentence(self) -> Seq<char> {
        match self {
            Skip::Paused => "backups are paused"@,
            Skip::OnBattery => "running on battery, and backups on battery are switched off"@,
            Skip::Metered =>
                "the connection is metered, and backups over metered connections are switched off"@,
            Skip::Unreachable => "the backup destination is not reachable"@,
            Skip::LocalDiskLow { free } => "only "@ + text::decimal((free / 1_048_576) as nat)
                + " MB free on this computer"@,
        }
    }

    /// A stable token for logs.
    pub fn as_str(&self) -> (name: &'static str)
        ensures
            name@ == self.name(),
    {
        match self {
            Skip::Paused => "paused",
            Skip::OnBattery => "on-battery",
            Skip::Metered => "metered-connection",
            Skip::Unreachable => "destination-unreachable",
            Skip::LocalDiskLow { .. } => "local-disk-low",
        }
    }

    /// A sentence for people asking why it did not run.
    pub fn explain(&self) -> (sentence: String)
        ensures
            sentence@ == self.sentence(),
    {
        match self {
            Skip::Paused => "backups are paused".to_owned(),
            Skip::OnBattery => {
                "running on battery, and backups on battery are switched off".to_owned()
            },
            Skip::Metered => {
                "the connection is metered, and backups over metered connections are switched off".to_owned()
            },
            Skip::Unreachable => "the backup destination is not reachable".to_owned(),
            Skip::LocalDiskLow { free } => {
                let mut s = text::joined("only ", text::decimal_text(*free / 1_048_576).as_str());
                s.append(" MB free on this computer");
                s
            },
        }
    }
}

/// Everything the gates are decided from. `None` means that nothing on this
/// system could answer, which is not the same as a no.
#[derive(Debug, Clone, Copy, PartialEq, Eq, Structural)]
pub struct Facts {
    pub paused: bool,
    pub on_battery: Option<bool>,
    pub allow_on_battery: bool,
    pub metered: Option<bool>,
    pub allow_on_metered: bool,
    /// Whether reaching the destination costs network traffic.
    pub destination_is_remote: bool,
    /// Whether the destination answered when somebody looked.
    pub destination_reachable: Option<bool>,
    /// Free bytes where the catalogue lives.
    pub free_local_bytes: Option<u64>,
}

impl Default for Facts {
    fn default() -> (facts: Facts)
        ensures
            facts == (Facts {
                paused: false,
                on_battery: None,
                allow_on_battery: false,
                metered: None,
                allow_on_metered: false,
                destination_is_remote: false,
                destination_reachable: None,
                free_local_bytes: None,
            }),
    {
        Facts {
            paused: false,
            on_battery: None,
            allow_on_battery: false,
            metered: None,
            allow_on_metered: false,
            destination_is_remote: false,
            destination_reachable: None,
            free_local_bytes: None,
        }
    }
}

impl Facts {
    /// Whether a gate is closed, and by what.
    pub open spec fn closed_by(self, skip: Skip) -> bool {
        match skip {
            Skip::Paused => self.paused,
            Skip::OnBattery => self.on_battery == Some(true) && !self.allow_on_battery,
            Skip::Metered => self.destination_is_remote && self.metered == Some(true)
                && !self.allow_on_metered,
            Skip::Unreachable => self.destination_reachable == Some(false),
            Skip::LocalDiskLow { free } => self.free_local_bytes == Some(free) && free < DISK_FLOOR,
        }
    }

    /// Whether the disk has too little room.
    pub open spec fn disk_is_low(self) -> bool {
        self.free_local_bytes is Some && self.free_local_bytes->0 < DISK_FLOOR
    }

    /// What is decided: the first reason that holds, in the order in which a
    /// person would name them.
    pub open spec fn verdict(self) -> Verdict {
        if self.closed_by(Skip::Paused) {
            Verdict::Skip(Skip::Paused)
        } else if self.closed_by(Skip::OnBattery) {
            Verdict::Skip(Skip::OnBattery)
        } else if self.closed_by(Skip::Metered) {
            Verdict::Skip(Skip::Metered)
        } else if self.closed_by(Skip::Unreachable) {
            Verdict::Skip(Skip::Unreachable)
        } else if self.disk_is_low() {
            Verdict::Skip(Skip::LocalDiskLow { free: self.free_local_bytes->0 })
        } else {
            Verdict::Go
        }
    }
}

/// Run the gates.
pub fn evaluate(facts: &Facts) -> (verdict: Verdict)
    ensures
        verdict == facts.verdict(),
        verdict == Verdict::Go <==> {
            &&& !facts.paused
            &&& !(facts.on_battery == Some(true) && !facts.allow_on_battery)
            &&& !(facts.destination_is_remote && facts.metered == Some(true)
                && !facts.allow_on_metered)
            &&& facts.destination_reachable != Some(false)
            &&& !(facts.free_local_bytes matches Some(free) && free < 104_857_600)
        },
{
    if facts.paused {
        return Verdict::Skip(Skip::Paused);
    }
    let on_battery = match facts.on_battery {
        Some(yes) => yes,
        None => false,
    };
    if on_battery && !facts.allow_on_battery {
        return Verdict::Skip(Skip::OnBattery);
    }
    let metered = match facts.metered {
        Some(yes) => yes,
        None => false,
    };
    if facts.destination_is_remote && metered && !facts.allow_on_metered {
        return Verdict::Skip(Skip::Metered);
    }
    match facts.destination_reachable {
        Some(reachable) => {
            if !reachable {
                return Verdict::Skip(Skip::Unreachable);
            }
        },
        None => {},
    }
    match facts.free_local_bytes {
        Some(free) => {
            if free < DISK_FLOOR {
                return Verdict::Skip(Skip::LocalDiskLow { free });
            }
        },
        None => {},
    }
    Verdict::Go
}

/// A machine that can answer nothing backs up, unless the user paused it.
pub proof fn uncertainty_never_blocks_a_backup(facts: Facts)
    requires
        !facts.paused,
        facts.on_battery is None,
        facts.metered is None,
        facts.destination_reachable is None,
        facts.free_local_bytes is None,
    ensures
        facts.verdict() == Verdict::Go,
{
}

/// A backup is skipped only for a reason that holds.
pub proof fn every_skip_has_its_reason(facts: Facts, skip: Skip)
    requires
        facts.verdict() == Verdict::Skip(skip),
    ensures
        facts.closed_by(skip),
{
}

/// A backup goes ahead exactly when no gate is closed: not paused; not on battery
/// where that is switched off; not over a metered connection to a destination
/// across it where that is switched off; not to a destination that did not answer,
/// wherever it is; and not with less than a hundred mebibytes free.
pub proof fn a_backup_goes_ahead_when_every_gate_is_open(facts: Facts)
    ensures
        facts.verdict() == Verdict::Go <==> {
            &&& !facts.paused
            &&& !(facts.on_battery == Some(true) && !facts.allow_on_battery)
            &&& !(facts.destination_is_remote && facts.metered == Some(true)
                && !facts.allow_on_metered)
            &&& facts.destination_reachable != Some(false)
            &&& !(facts.free_local_bytes matches Some(free) && free < 104_857_600)
        },
{
}

/// The reason that is given holds, and none that a person would name before it
/// does: the pause before the battery, the battery before the connection, the
/// connection before the destination, the destination before the disk.
pub proof fn the_first_closed_gate_is_the_one_named(facts: Facts)
    ensures
        facts.verdict() == Verdict::Skip(Skip::Paused) <==> facts.paused,
        facts.verdict() == Verdict::Skip(Skip::OnBattery) <==> !facts.paused && facts.on_battery
            == Some(true) && !facts.allow_on_battery,
        facts.verdict() == Verdict::Skip(Skip::Metered) <==> !facts.paused && (facts.on_battery
            == Some(true) ==> facts.allow_on_battery) && facts.metered == Some(true)
            && facts.destination_is_remote && !facts.allow_on_metered,
        facts.verdict() == Verdict::Skip(Skip::Unreachable) <==> !facts.paused && (
        facts.on_battery == Some(true) ==> facts.allow_on_battery) && (facts.metered == Some(true)
            && facts.destination_is_remote ==> facts.allow_on_metered)
            && facts.destination_reachable == Some(false),
        forall|free: u64|
            facts.verdict() == Verdict::Skip(#[trigger] low_disk(free)) <==> !facts.paused && (
            facts.on_battery == Some(true) ==> facts.allow_on_battery) && (facts.metered == Some(
                true,
            ) && facts.destination_is_remote ==> facts.allow_on_metered)
                && facts.destination_reachable != Some(false) && facts.free_local_bytes == Some(
                free,
            ) && free < 104_857_600,
{
}

/// The reason that so much room is too little.
pub open spec fn low_disk(free: u64) -> Skip {
    Skip::LocalDiskLow { free }
}

/// A backup that is held back by what is known is still held back when more is
/// known.
pub proof fn knowing_more_opens_no_gate(facts: Facts, known: Facts)
    requires
        facts.paused ==> known.paused,
        facts.on_battery is Some ==> known.on_battery == facts.on_battery,
        facts.metered is Some ==> known.metered == facts.metered,
        facts.destination_reachable is Some ==> known.destination_reachable
            == facts.destination_reachable,
        facts.free_local_bytes is Some ==> known.free_local_bytes == facts.free_local_bytes,
        known.allow_on_battery == facts.allow_on_battery,
        known.allow_on_metered == facts.allow_on_metered,
        known.destination_is_remote == facts.destination_is_remote,
    ensures
        facts.verdict() != Verdict::Go ==> known.verdict() != Verdict::Go,
{
}

/// Whether the local disk is low enough to be worth mentioning.
pub fn local_disk_needs_attention(facts: &Facts) -> (low: bool)
    ensures
        low == (facts.free_local_bytes is Some && facts.free_local_bytes->0 < DISK_WARN),
{
    match facts.free_local_bytes {
        Some(free) => free < DISK_WARN,
        None => false,
    }
}

/// What the machine can be asked about itself. `None` when nothing can say.
pub trait SystemProbe {
    /// Whether the machine is on battery.
    fn on_battery(&self) -> (answer: Option<bool>);

    /// Whether the active connection is metered.
    fn metered(&self) -> (answer: Option<bool>);
}

/// The probe used when there is no system bus. Everything is unknown, so every
/// gate opens.
#[derive(Debug, Clone, Copy, PartialEq, Eq, Structural)]
pub struct UnknownProbe;

impl SystemProbe for UnknownProbe {
    fn on_battery(&self) -> (answer: Option<bool>)
        ensures
            answer is None,
    {
        None
    }

    fn metered(&self) -> (answer: Option<bool>)
        ensures
            answer is None,
    {
        None
    }
}

/// NetworkManager's word on metering. It tells what a connection says from what
/// is guessed of it; a guess is good enough to act on, and unknown stays unknown.
pub fn metered_from_nm(value: u32) -> (metered: Option<bool>)
    ensures
        metered == if value == 1 || value == 3 {
            Some(true)
        } else if value == 2 || value == 4 {
            Some(false)
        } else {
            None
        },
{
    match value {
        1 | 3 => Some(true),
        2 | 4 => Some(false),
        _ => None,
    }
}

/// Whether a destination is written as a remote one.
pub open spec fn is_remote_syntax(repository: Seq<char>) -> bool {
    ||| begins(repository, "ssh://"@)
    ||| (first_of(repository, ':') < repository.len() && reachability::is_user_at_host(
        repository.take(first_of(repository, ':')),
    ))
}

/// Whether reaching this destination crosses the network. A mounted share looks
/// exactly like a local directory, so `network_mounted` says what its filesystem
/// is.
pub fn destination_is_remote(repository: &str, network_mounted: bool) -> (remote: bool)
    ensures
        remote == (is_remote_syntax(repository@) || network_mounted),
{
    let chars = text::to_chars(repository);
    let n: usize = chars.len();
    if text::strip_prefix(&chars, "ssh://").is_some() {
        return true;
    }
    assert(chars@.subrange(0, n as int) =~= chars@);
    let k: usize = text::find_first(&chars, 0, n, ':');
    assert(chars@.subrange(0, k as int) =~= chars@.take(k as int));
    proof {
        text::lemma_first_of(chars@.take(k as int), '@');
        text::lemma_first_of(chars@.take(k as int), '/');
    }
    // An `@` before any `/`: a path with a colon in it is still a path.
    if k < n && text::find_first(&chars, 0, k, '@') < k && text::find_first(&chars, 0, k, '/')
        == k {
        return true;
    }
    network_mounted
}

/// A destination that is written as one with a host is one that is looked for
/// across the network.
pub proof fn remote_destinations_cross_the_network(repository: Seq<char>)
    requires
        reachability::endpoint(repository) is Some,
    ensures
        is_remote_syntax(repository),
{
    text::lemma_first_of(repository, ':');
}

/// Whether a filesystem is one that is mounted from elsewhere: NFS, SMB in two
/// versions, AFS, OCFS2, or a share that is not mounted yet.
pub open spec fn is_network_magic(magic: u64) -> bool {
    ||| magic == 0x6969
    ||| magic == 0xff53_4d42
    ||| magic == 0xfe53_4d42
    ||| magic == 0x5346_5342
    ||| magic == 0x7461_636f
    ||| magic == 0x0187
}

/// The first answer there is.
pub open spec fn first_answer<T>(answers: Seq<Option<T>>) -> Option<T>
    decreases answers.len(),
{
    if answers.len() == 0 {
        None
    } else if answers[0] is Some {
        answers[0]
    } else {
        first_answer(answers.drop_first())
    }
}

/// The first answer comes at the first place that has one.
proof fn lemma_first_answer<T>(answers: Seq<Option<T>>, k: int)
    requires
        0 <= k <= answers.len(),
        forall|i: int| 0 <= i < k ==> (#[trigger] answers[i]) is None,
    ensures
        first_answer(answers) == first_answer(answers.skip(k)),
    decreases k,
{
    if k == 0 {
        assert(answers.skip(0) =~= answers);
    } else {
        let rest = answers.drop_first();
        assert(answers[0] is None);
        assert forall|i: int| 0 <= i < k - 1 implies (#[trigger] rest[i]) is None by {
            assert(rest[i] == answers[i + 1]);
        }
        lemma_first_answer(rest, k - 1);
        assert(rest.skip(k - 1) =~= answers.skip(k));
    }
}

/// Whether a path sits on a network filesystem. `answers` are what the
/// filesystem of the path, of its parent, and so on, announces itself as; the
/// nearest that exists decides.
pub fn path_is_network_mounted(answers: &Vec<Option<u64>>) -> (mounted: bool)
    ensures
        mounted == match first_answer(answers@) {
            Some(magic) => is_network_magic(magic),
            None => false,
        },
        forall|k: int|
            0 <= k < answers@.len() && (#[trigger] answers@[k]) is Some && (forall|i: int|
                0 <= i < k ==> (#[trigger] answers@[i]) is None) ==> (mounted <==> answers@[k]->0
                == 0x6969 || answers@[k]->0 == 0xff53_4d42 || answers@[k]->0 == 0xfe53_4d42
                || answers@[k]->0 == 0x5346_5342 || answers@[k]->0 == 0x7461_636f
                || answers@[k]->0 == 0x0187),
{
    let mut i: usize = 0;
    while i < answers.len()
        invariant
            i <= answers@.len(),
            forall|k: int| 0 <= k < i ==> (#[trigger] answers@[k]) is None,
        decreases answers@.len() - i,
    {
        match answers[i] {
            Some(magic) => {
                proof {
                    lemma_first_answer(answers@, i as int);
                    assert(answers@.skip(i as int)[0] == answers@[i as int]);
                }
                return magic == 0x6969 || magic == 0xff53_4d42 || magic == 0xfe53_4d42 || magic
                    == 0x5346_5342 || magic == 0x7461_636f || magic == 0x0187;
            },
            None => {},
        }
        i += 1;
    }
    proof {
        lemma_first_answer(answers@, i as int);
    }
    false
}

/// The bytes that some free blocks of some size make, as far as they can be
/// counted.
pub open spec fn room(blocks: u64, size: u64) -> u64 {
    if blocks * size > u64::MAX {
        u64::MAX
    } else {
        (blocks * size) as u64
    }
}

/// Free bytes available to this user. `answers` are the free blocks and their
/// size on the filesystem of a path, of its parent, and so on; the nearest that
/// exists decides.
pub fn free_bytes(answers: &Vec<Option<(u64, u64)>>) -> (free: Option<u64>)
    ensures
        free == match first_answer(answers@) {
            Some((blocks, size)) => Some(room(blocks, size)),
            None => None,
        },
{
    let mut i: usize = 0;
    while i < answers.len()
        invariant
            i <= answers@.len(),
            forall|k: int| 0 <= k < i ==> (#[trigger] answers@[k]) is None,
        decreases answers@.len() - i,
    {
        match answers[i] {
            Some((blocks, size)) => {
                proof {
                    lemma_first_answer(answers@, i as int);
                    assert(answers@.skip(i as int)[0] == answers@[i as int]);
                }
                return Some(
                    match blocks.checked_mul(size) {
                        Some(bytes) => bytes,
                        None => u64::MAX,
                    },
                );
            },
            None => {},
        }
        i += 1;
    }
    proof {
        lemma_first_answer(answers@, i as int);
    }
    None
}

/// The nearest filesystem that exists decides, and none beyond it: what is mounted
/// from elsewhere is told by what that one announces itself as, and the room is
/// that of its own free blocks.
pub proof fn the_nearest_filesystem_decides<T>(answers: Seq<Option<T>>, k: int)
    requires
        0 <= k < answers.len(),
        answers[k] is Some,
        forall|i: int| 0 <= i < k ==> (#[trigger] answers[i]) is None,
    ensures
        first_answer(answers) == answers[k],
        first_answer(answers.take(k)) is None,
{
    lemma_first_answer(answers, k);
    assert(answers.skip(k)[0] == answers[k]);
    lemma_first_answer(answers.take(k), k);
}

/// Room is counted in bytes, as many as there are blocks of that size, and no
/// further than a number goes.
pub proof fn room_is_blocks_times_size(blocks: u64, size: u64)
    ensures
        room(blocks, size) <= blocks * size,
        blocks * size <= u64::MAX ==> room(blocks, size) == blocks * size,
        blocks * size > u64::MAX ==> room(blocks, size) == u64::MAX,
{
}

/// What is written with a scheme, or as a user at a host before a colon, is
/// remote; a path is not, whatever comes after its first slash.
pub proof fn a_path_is_not_remote(repository: Seq<char>)
    ensures
        repository.len() > 0 && repository[0] == '/' ==> !is_remote_syntax(repository),
        !repository.contains(':') ==> !is_remote_syntax(repository),
        is_remote_syntax(repository) ==> begins(repository, "ssh://"@) || exists|i: int, j: int|
            0 <= i < j < repository.len() && #[trigger] repository[i] == '@'
                && #[trigger] repository[j] == ':' && forall|k: int|
                0 <= k < j ==> #[trigger] repository[k] != '/' && repository[k] != ':',
        (exists|i: int, j: int|
            0 <= i < j < repository.len() && #[trigger] repository[i] == '@'
                && #[trigger] repository[j] == ':' && forall|k: int|
                0 <= k < j ==> #[trigger] repository[k] != '/' && repository[k] != ':')
            ==> is_remote_syntax(repository),
{
    reveal_strlit("ssh://");
    text::lemma_first_of(repository, ':');
    let k = first_of(repository, ':');
    let head = repository.take(k);
    text::lemma_first_of(head, '@');
    text::lemma_first_of(head, '/');
    if begins(repository, "ssh://"@) {
        assert(repository.take(6)[0] == 's');
        assert(repository.take(6)[3] == ':');
        assert(repository[3] == ':');
    }
    if repository.len() > 0 && repository[0] == '/' && k < repository.len() {
        assert(head.len() > 0 ==> head[0] == '/');
    }
    if is_remote_syntax(repository) && !begins(repository, "ssh://"@) {
        let i = first_of(head, '@');
        assert(repository[i] == head[i]);
        assert forall|m: int| 0 <= m < k implies #[trigger] repository[m] != '/' && repository[m]
            != ':' by {
            assert(repository[m] == head[m]);
        }
        assert(repository[i] == '@' && repository[k] == ':');
    }
    if exists|i: int, j: int|
        0 <= i < j < repository.len() && #[trigger] repository[i] == '@'
            && #[trigger] repository[j] == ':' && forall|k: int|
            0 <= k < j ==> #[trigger] repository[k] != '/' && repository[k] != ':' {
        let (i, j) = choose|i: int, j: int|
            0 <= i < j < repository.len() && #[trigger] repository[i] == '@'
                && #[trigger] repository[j] == ':' && forall|k: int|
                0 <= k < j ==> #[trigger] repository[k] != '/' && repository[k] != ':';
        assert(k == j);
        assert(head[i] == '@');
    }
}

/// A service whose changes are watched.
#[derive(Debug, Clone, Copy, PartialEq, Eq, Structural)]
pub enum Watched {
    /// The machine's power.
    UPower,
    /// The machine's connections.
    NetworkManager,
}

impl Watched {
    /// Whether a change is a reason to look at the destination again. A charger
    /// cannot bring a network drive back.
    pub fn wakes_reachability(self) -> (yes: bool)
        ensures
            yes == (self == Watched::NetworkManager),
    {
        match self {
            Watched::UPower => false,
            Watched::NetworkManager => true,
        }
    }

    /// The name of the service on the bus.
    pub fn bus_name(self) -> (name: &'static str)
        ensures
            name@ == match self {
                Watched::UPower => "org.freedesktop.UPower"@,
                Watched::NetworkManager => "org.freedesktop.NetworkManager"@,
            },
    {
        match self {
            Watched::UPower => "org.freedesktop.UPower",
            Watched::NetworkManager => "org.freedesktop.NetworkManager",
        }
    }

    /// The path of its object.
    pub fn object_path(self) -> (path: &'static str)
        ensures
            path@ == match self {
                Watched::UPower => "/org/freedesktop/UPower"@,
                Watched::NetworkManager => "/org/freedesktop/NetworkManager"@,
            },
    {
        match self {
            Watched::UPower => "/org/freedesktop/UPower",
            Watched::NetworkManager => "/org/freedesktop/NetworkManager",
        }
    }
}

/// Each reason has a token and a sentence of its own, and the one about the disk says
/// how many whole mebibytes are free.
pub proof fn each_reason_is_told_in_its_own_words(skip: Skip)
    ensures
        skip is Paused ==> skip.name() == "paused"@ && skip.sentence() == "backups are paused"@,
        skip is OnBattery ==> skip.name() == "on-battery"@ && skip.sentence()
            == "running on battery, and backups on battery are switched off"@,
        skip is Metered ==> skip.name() == "metered-connection"@ && skip.sentence()
            == "the connection is metered, and backups over metered connections are switched off"@,
        skip is Unreachable ==> skip.name() == "destination-unreachable"@ && skip.sentence()
            == "the backup destination is not reachable"@,
        skip matches Skip::LocalDiskLow { free } ==> skip.name() == "local-disk-low"@
            && skip.sentence() == "only "@ + text::decimal((free / 1_048_576) as nat)
            + " MB free on this computer"@,
{
}

} // verus!
