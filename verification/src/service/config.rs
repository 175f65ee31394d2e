//! The settings the daemon works by, and what a backup is told of them.

use vstd::prelude::*;

use crate::paths;
use crate::text;
#[allow(unused_imports)]
use crate::text::views;
use crate::time::{Span, Timestamp};

verus! {

/// How archives are compressed.
#[derive(Debug, Clone, Copy, PartialEq, Eq, Structural)]
pub enum Compression {
    Zstd,
    Lz4,
    /// Not at all.
    Uncompressed,
}

/// How many archives of each age are kept.
#[derive(Debug, Clone, Copy, PartialEq, Eq, Structural)]
pub struct Retention {
    pub keep_hourly: u32,
    pub keep_daily: u32,
    pub keep_weekly: u32,
    pub keep_monthly: u32,
}

/// The settings.
#[derive(Debug, PartialEq, Eq)]
pub struct Config {
    /// The destination, if one is configured.
    pub repository: Option<String>,
    /// The directories to back up.
    pub include_paths: Vec<String>,
    /// The patterns to leave out.
    pub exclude: Vec<String>,
    /// The gap between scheduled backups; `None` for a manual schedule.
    pub interval: Option<Span>,
    /// Whether scheduled backups run on battery.
    pub on_battery: bool,
    /// Whether scheduled backups run over a metered connection.
    pub on_metered: bool,
    /// Whether changes are protected here while the destination is away.
    pub offline_enabled: bool,
    /// How much space that may take, in GiB; zero for no limit.
    pub offline_limit_gb: u32,
    pub retention: Retention,
    pub compression: Compression,
}

impl Config {
    /// Whether there is a destination.
    pub fn is_configured(&self) -> (configured: bool)
        ensures
            configured == (self.repository is Some),
    {
        self.repository.is_some()
    }

    /// The space the spool may take, in bytes; zero for no limit.
    pub open spec fn limit(self) -> int {
        self.offline_limit_gb * 1_073_741_824
    }

    /// The space the spool may take, in bytes; zero for no limit.
    pub fn offline_limit(&self) -> (bytes: u64)
        ensures
            bytes == self.limit(),
            bytes == self.offline_limit_gb * 1_073_741_824,
    {
        self.offline_limit_gb as u64 * 1_073_741_824
    }
}

/// Every file and directory the daemon writes.
#[derive(Debug, PartialEq, Eq)]
pub struct Layout {
    pub config_path: String,
    pub index_path: String,
    pub cache_dir: String,
    pub state_path: String,
    pub spool_dir: String,
    pub snapshots_dir: String,
    pub staging_dir: String,
    pub replaced_dir: String,
    pub log_dir: String,
}

impl Layout {
    /// Everything inside one directory.
    pub fn in_dir(dir: &str) -> (layout: Layout)
        ensures
            layout.config_path@ == paths::after(dir@, "config.toml"@),
            layout.index_path@ == paths::after(dir@, "index.db"@),
            layout.cache_dir@ == paths::after(dir@, "cache"@),
            layout.state_path@ == paths::after(dir@, "state.toml"@),
            layout.spool_dir@ == paths::after(dir@, "spool"@),
            layout.snapshots_dir@ == paths::after(dir@, "snapshots"@),
            layout.staging_dir@ == paths::after(dir@, "staging"@),
            layout.replaced_dir@ == paths::after(dir@, "replaced"@),
            layout.log_dir@ == paths::after(dir@, "log"@),
    {
        Layout {
            config_path: paths::join(dir, "config.toml"),
            index_path: paths::join(dir, "index.db"),
            cache_dir: paths::join(dir, "cache"),
            state_path: paths::join(dir, "state.toml"),
            spool_dir: paths::join(dir, "spool"),
            snapshots_dir: paths::join(dir, "snapshots"),
            staging_dir: paths::join(dir, "staging"),
            replaced_dir: paths::join(dir, "replaced"),
            log_dir: paths::join(dir, "log"),
        }
    }

    /// The patterns that keep the daemon's own storage out of a backup: the
    /// directories that a backup would copy into itself, and the catalogue with
    /// the files beside it.
    pub open spec fn own_excludes(self) -> Seq<Seq<char>> {
        seq![
            "pp:"@ + self.spool_dir@,
            "pp:"@ + self.snapshots_dir@,
            "pp:"@ + self.cache_dir@,
            "pp:"@ + self.staging_dir@,
            "pp:"@ + self.replaced_dir@,
            "pp:"@ + self.log_dir@,
            self.index_path@ + "*"@,
        ]
    }
}

/// Everything the user asked to leave out, plus what they should not have to
/// think of. Not the whole data directory: the settings in it are exactly what
/// somebody restoring a machine would be glad to find.
pub fn effective_excludes(config: &Config, layout: &Layout) -> (excludes: Vec<String>)
    ensures
        views(excludes@) == views(config.exclude@) + layout.own_excludes(),
        excludes@.len() == config.exclude@.len() + 7,
        forall|i: int|
            0 <= i < config.exclude@.len() ==> (#[trigger] excludes@[i])@ == config.exclude@[i]@,
{
    let mut excludes = text::copies(&config.exclude);
    excludes.push(text::joined("pp:", layout.spool_dir.as_str()));
    excludes.push(text::joined("pp:", layout.snapshots_dir.as_str()));
    excludes.push(text::joined("pp:", layout.cache_dir.as_str()));
    excludes.push(text::joined("pp:", layout.staging_dir.as_str()));
    excludes.push(text::joined("pp:", layout.replaced_dir.as_str()));
    excludes.push(text::joined("pp:", layout.log_dir.as_str()));
    excludes.push(text::joined(layout.index_path.as_str(), "*"));
    assert(views(excludes@) =~= views(config.exclude@) + layout.own_excludes());
    proof {
        assert forall|i: int| 0 <= i < config.exclude@.len() implies (#[trigger] excludes@[i])@
            == config.exclude@[i]@ by {
            assert(views(excludes@)[i] == excludes@[i]@);
            assert(views(config.exclude@)[i] == config.exclude@[i]@);
        }
        assert(views(excludes@).len() == excludes@.len());
    }
    excludes
}

/// What a backup is told to do.
#[derive(Debug, PartialEq, Eq)]
pub struct CreateSpec {
    pub archive_name: String,
    pub created_at: Timestamp,
    pub sources: Vec<String>,
    pub excludes: Vec<String>,
    /// Single files to archive; empty to walk the sources.
    pub paths: Vec<String>,
    pub compression: Compression,
    /// Whether to stay on the filesystem of each source.
    pub one_file_system: bool,
}

/// A backup of the sources under this name, as the settings say.
pub fn create_spec(
    config: &Config,
    layout: &Layout,
    archive_name: String,
    created_at: Timestamp,
) -> (spec: CreateSpec)
    ensures
        spec.archive_name == archive_name,
        spec.created_at == created_at,
        spec.sources@ == config.include_paths@,
        views(spec.excludes@) == views(config.exclude@) + layout.own_excludes(),
        spec.paths@.len() == 0,
        spec.compression == config.compression,
        spec.one_file_system,
{
    CreateSpec {
        archive_name,
        created_at,
        sources: text::copies(&config.include_paths),
        excludes: effective_excludes(config, layout),
        paths: Vec::new(),
        compression: config.compression,
        one_file_system: true,
    }
}

/// The retention policy as the engine takes it.
#[derive(Debug, Clone, Copy, PartialEq, Eq, Structural)]
pub struct PrunePolicy {
    pub keep_hourly: u32,
    pub keep_daily: u32,
    pub keep_weekly: u32,
    pub keep_monthly: u32,
}

/// The retention policy of the settings.
pub fn prune_policy(config: &Config) -> (policy: PrunePolicy)
    ensures
        policy.keep_hourly == config.retention.keep_hourly,
        policy.keep_daily == config.retention.keep_daily,
        policy.keep_weekly == config.retention.keep_weekly,
        policy.keep_monthly == config.retention.keep_monthly,
{
    let r = config.retention;
    PrunePolicy {
        keep_hourly: r.keep_hourly,
        keep_daily: r.keep_daily,
        keep_weekly: r.keep_weekly,
        keep_monthly: r.keep_monthly,
    }
}

/// What an edit of the settings means for the rest of the daemon.
#[derive(Debug, Clone, Copy, PartialEq, Eq, Structural)]
pub struct Changes {
    /// The destination is another: connect the engine anew.
    pub repository: bool,
    /// The sources are others: find out anew how to protect changes here.
    pub sources: bool,
}

/// Whether two destinations are the same.
pub open spec fn same_repository(a: Option<String>, b: Option<String>) -> bool {
    match (a, b) {
        (Some(x), Some(y)) => x@ == y@,
        (None, None) => true,
        _ => false,
    }
}

/// What an edit of the settings changes.
pub fn changes(before: &Config, after: &Config) -> (changes: Changes)
    ensures
        changes.repository == !same_repository(before.repository, after.repository),
        changes.sources == (views(before.include_paths@) != views(after.include_paths@)),
{
    let same = match (&before.repository, &after.repository) {
        (Some(a), Some(b)) => text::same(a.as_str(), b.as_str()),
        (None, None) => true,
        _ => false,
    };
    Changes {
        repository: !same,
        sources: !text::same_all(&before.include_paths, &after.include_paths),
    }
}

/// Everything the daemon writes that a backup would copy into itself stays out of
/// it, and so does the catalogue; the settings do not.
pub proof fn the_daemons_own_storage_stays_out(layout: Layout)
    ensures
        layout.own_excludes().contains("pp:"@ + layout.spool_dir@),
        layout.own_excludes().contains("pp:"@ + layout.snapshots_dir@),
        layout.own_excludes().contains("pp:"@ + layout.cache_dir@),
        layout.own_excludes().contains("pp:"@ + layout.staging_dir@),
        layout.own_excludes().contains("pp:"@ + layout.replaced_dir@),
        layout.own_excludes().contains("pp:"@ + layout.log_dir@),
        layout.own_excludes().contains(layout.index_path@ + "*"@),
        layout.own_excludes().len() == 7,
{
    let own = layout.own_excludes();
    assert(own[0] == "pp:"@ + layout.spool_dir@);
    assert(own[1] == "pp:"@ + layout.snapshots_dir@);
    assert(own[2] == "pp:"@ + layout.cache_dir@);
    assert(own[3] == "pp:"@ + layout.staging_dir@);
    assert(own[4] == "pp:"@ + layout.replaced_dir@);
    assert(own[5] == "pp:"@ + layout.log_dir@);
    assert(own[6] == layout.index_path@ + "*"@);
}

/// Two destinations are the same where they are written alike, or are both missing.
pub proof fn the_same_destination_is_written_alike(a: Option<String>, b: Option<String>)
    ensures
        same_repository(a, b) <==> text::told_of(a) == text::told_of(b),
{
}

/// The limit on local protection is counted in gibibytes, and none is none.
pub proof fn a_limit_is_in_gibibytes(config: Config)
    ensures
        config.limit() == config.offline_limit_gb * 1024 * 1024 * 1024,
        config.limit() == 0 <==> config.offline_limit_gb == 0,
        config.limit() <= u64::MAX,
{
}

} // verus!
