//! Desktop notifications, sent by the daemon because the window may be gone.

use vstd::prelude::*;

use crate::jobs::JobKind;
use crate::text;

verus! {

/// When the user wants to be notified.
#[derive(Debug, Clone, Copy, PartialEq, Eq, Structural)]
pub enum Notifications {
    /// Of every backup.
    All,
    /// Only when attention is needed.
    AttentionOnly,
    /// Never.
    Never,
}

/// Whether a backup that ends like this is one to tell of: a cancelled one was
/// somebody's own decision.
pub open spec fn worth_telling(outcome: Seq<char>) -> bool {
    outcome == "completed"@ || outcome == "failed"@
}

/// Whether this is what to say when the first backup ends, or nothing is.
pub open spec fn tells(
    policy: Notifications,
    outcome: Seq<char>,
    said: Option<(&'static str, &'static str)>,
) -> bool {
    &&& said is Some <==> policy != Notifications::Never && worth_telling(outcome)
    &&& said matches Some((summary, body)) ==> if outcome == "completed"@ {
        &&& summary@ == "Your first backup is complete"@
        &&& body@ == "Your files are protected. From now on, backups run on their own."@
    } else {
        &&& summary@ == "Your first backup did not finish"@
        &&& body@ == "Open Backtrack to see what stopped it."@
    }
}

/// What to say when the first backup ends, or nothing.
///
/// The user was told that the window could be closed, so the end of the first
/// backup is announced even where only attention is. Never means never, and a
/// cancelled backup was somebody's own decision.
pub fn first_backup(policy: Notifications, outcome: &str) -> (said: Option<(
    &'static str,
    &'static str,
)>)
    ensures
        tells(policy, outcome@, said),
{
    if policy == Notifications::Never {
        return None;
    }
    if text::same(outcome, "completed") {
        return Some(
            (
                "Your first backup is complete",
                "Your files are protected. From now on, backups run on their own.",
            ),
        );
    }
    if text::same(outcome, "failed") {
        return Some(
            ("Your first backup did not finish", "Open Backtrack to see what stopped it."),
        );
    }
    None
}

/// The first backup, as far as telling of it goes.
#[derive(Debug, PartialEq, Eq)]
pub struct FirstBackup {
    awaited: bool,
}

impl FirstBackup {
    /// Whether its end is still to come.
    pub closed spec fn awaited(self) -> bool {
        self.awaited
    }

    /// Whether this is what to say when a job ends: nothing, unless it is the first
    /// backup.
    pub open spec fn says(
        self,
        kind: JobKind,
        policy: Notifications,
        outcome: Seq<char>,
        said: Option<(&'static str, &'static str)>,
    ) -> bool {
        if self.awaited() && kind == JobKind::Backup {
            tells(policy, outcome, said)
        } else {
            said is None
        }
    }

    /// What a job's end makes of it: the first backup that completes or fails is
    /// over, and after a cancelled one the next is the first.
    pub open spec fn becomes(self, kind: JobKind, outcome: Seq<char>, after: FirstBackup) -> bool {
        after.awaited() == (self.awaited() && !(kind == JobKind::Backup && worth_telling(outcome)))
    }

    /// On a machine that has been backed up before, or has not.
    pub fn new(backed_up: bool) -> (first: FirstBackup)
        ensures
            first.awaited() == !backed_up,
    {
        FirstBackup { awaited: !backed_up }
    }

    /// What to say when a job ends, or nothing.
    pub fn ended(&mut self, kind: JobKind, policy: Notifications, outcome: &str) -> (said: Option<
        (&'static str, &'static str),
    >)
        ensures
            old(self).says(kind, policy, outcome@, said),
            old(self).becomes(kind, outcome@, *final(self)),
            said is Some <==> old(self).awaited() && kind == JobKind::Backup && policy
                != Notifications::Never && (outcome@ == "completed"@ || outcome@ == "failed"@),
            final(self).awaited() <==> old(self).awaited() && !(kind == JobKind::Backup && (outcome@
                == "completed"@ || outcome@ == "failed"@)),
    {
        if !self.awaited || kind != JobKind::Backup {
            return None;
        }
        self.awaited = !text::same(outcome, "completed") && !text::same(outcome, "failed");
        first_backup(policy, outcome)
    }
}

/// The end of the first backup is told at most once: what has been said is not
/// said again, however the jobs after it end.
pub proof fn the_first_backup_is_told_of_once(
    before: FirstBackup,
    policy: Notifications,
    outcome: Seq<char>,
    said: Option<(&'static str, &'static str)>,
    between: FirstBackup,
    kind: JobKind,
    again: Notifications,
    next: Seq<char>,
    word: Option<(&'static str, &'static str)>,
    after: FirstBackup,
)
    requires
        before.says(JobKind::Backup, policy, outcome, said),
        before.becomes(JobKind::Backup, outcome, between),
        said is Some,
        between.says(kind, again, next, word),
        between.becomes(kind, next, after),
    ensures
        word is None,
        !after.awaited(),
{
}

/// Something is said exactly when the first backup completes or fails and the user
/// has not asked for silence: whoever wants to hear only of what needs attention
/// hears of it too. What completed and what failed are not told in the same words.
pub proof fn the_end_of_the_first_backup_is_told(
    first: FirstBackup,
    kind: JobKind,
    policy: Notifications,
    outcome: Seq<char>,
    said: Option<(&'static str, &'static str)>,
)
    requires
        first.says(kind, policy, outcome, said),
    ensures
        said is Some <==> first.awaited() && kind == JobKind::Backup && (policy
            == Notifications::All || policy == Notifications::AttentionOnly) && (outcome
            == "completed"@ || outcome == "failed"@),
        said matches Some((summary, _)) ==> (summary@ == "Your first backup is complete"@
            <==> outcome == "completed"@),
{
    reveal_strlit("Your first backup is complete");
    reveal_strlit("Your first backup did not finish");
    assert("Your first backup is complete"@.len() == 29);
    assert("Your first backup did not finish"@.len() == 32);
}

/// The first backup is awaited until one completes or fails, and no longer: other
/// jobs, and backups that were cancelled, leave it awaited, and nothing brings it
/// back.
pub proof fn the_first_backup_is_awaited_until_one_ends(
    first: FirstBackup,
    kind: JobKind,
    outcome: Seq<char>,
    after: FirstBackup,
)
    requires
        first.becomes(kind, outcome, after),
    ensures
        !first.awaited() ==> !after.awaited(),
        kind != JobKind::Backup ==> after.awaited() == first.awaited(),
        outcome != "completed"@ && outcome != "failed"@ ==> after.awaited() == first.awaited(),
        kind == JobKind::Backup && (outcome == "completed"@ || outcome == "failed"@)
            ==> !after.awaited(),
{
}

} // verus!
