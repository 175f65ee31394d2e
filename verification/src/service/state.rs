//! Pauses, restore policies and points in time, as the interface spells them.

use vstd::prelude::*;

use crate::service::error::{DaemonError, Result};
use crate::text;
use crate::time::{end_of_time, seconds, seconds_since_epoch, Span, Timestamp};

verus! {

/// What to do when a restore would overwrite something.
#[derive(Debug, Clone, Copy, PartialEq, Eq, Structural)]
pub enum RestorePolicy {
    /// Stop and ask.
    Ask,
    /// Keep both, renaming the incoming file.
    KeepBoth,
    /// Overwrite.
    Replace,
    /// Skip files whose contents already match.
    SkipIdentical,
}

impl Default for RestorePolicy {
    /// Asking: silently overwriting someone's work is the one thing a restore
    /// must never do.
    fn default() -> (policy: RestorePolicy)
        ensures
            policy == RestorePolicy::Ask,
    {
        RestorePolicy::Ask
    }
}

/// A text as the standard library's `Debug` prints it: between quotation marks,
/// with escapes where it has to.
pub uninterp spec fn quoted(text: Seq<char>) -> Seq<char>;

/// `<str as Debug>::fmt` of the standard library, through `format!`: the text
/// between quotation marks, the same for the same text.
#[verifier::external_body]
pub(crate) fn quote(text: &str) -> (printed: String)
    ensures
        printed@ == quoted(text@),
{
    format!("{text:?}")
}

impl RestorePolicy {
    /// The wire spelling.
    pub open spec fn name(self) -> Seq<char> {
        match self {
            RestorePolicy::Ask => "ask"@,
            RestorePolicy::KeepBoth => "keep-both"@,
            RestorePolicy::Replace => "replace"@,
            RestorePolicy::SkipIdentical => "skip-identical"@,
        }
    }

    /// The policy a wire spelling stands for.
    pub open spec fn named(value: Seq<char>) -> Option<RestorePolicy> {
        if value == "ask"@ {
            Some(RestorePolicy::Ask)
        } else if value == "keep-both"@ {
            Some(RestorePolicy::KeepBoth)
        } else if value == "replace"@ {
            Some(RestorePolicy::Replace)
        } else if value == "skip-identical"@ {
            Some(RestorePolicy::SkipIdentical)
        } else {
            None
        }
    }

    /// Parse the wire spelling.
    pub fn parse(value: &str) -> (policy: Result<RestorePolicy>)
        ensures
            match RestorePolicy::named(value@) {
                Some(named) => policy == Ok::<RestorePolicy, DaemonError>(named),
                None => policy is Err && is_unknown_policy(policy->Err_0, quoted(value@)),
            },
    {
        if text::same(value, "ask") {
            Ok(RestorePolicy::Ask)
        } else if text::same(value, "keep-both") {
            Ok(RestorePolicy::KeepBoth)
        } else if text::same(value, "replace") {
            Ok(RestorePolicy::Replace)
        } else if text::same(value, "skip-identical") {
            Ok(RestorePolicy::SkipIdentical)
        } else {
            Err(unknown_policy(quote(value).as_str()))
        }
    }

    /// The wire spelling.
    pub fn as_str(self) -> (name: &'static str)
        ensures
            name@ == self.name(),
    {
        match self {
            RestorePolicy::Ask => "ask",
            RestorePolicy::KeepBoth => "keep-both",
            RestorePolicy::Replace => "replace",
            RestorePolicy::SkipIdentical => "skip-identical",
        }
    }
}

/// Whether an error says that there is no policy with the name that is printed as
/// `printed`.
pub open spec fn is_unknown_policy(error: DaemonError, printed: Seq<char>) -> bool {
    &&& error is InvalidArgument
    &&& error.words() == "unknown restore policy "@ + printed
        + "; expected one of ask, keep-both, replace, skip-identical"@
}

/// The error for a policy name that there is not.
pub fn unknown_policy(printed: &str) -> (error: DaemonError)
    ensures
        is_unknown_policy(error, printed@),
{
    let mut words = text::joined("unknown restore policy ", printed);
    words.append("; expected one of ask, keep-both, replace, skip-identical");
    DaemonError::InvalidArgument(words)
}

/// Every policy is read back from its own spelling.
pub proof fn policies_survive_their_spelling(policy: RestorePolicy)
    ensures
        RestorePolicy::named(policy.name()) == Some(policy),
{
    reveal_strlit("ask");
    reveal_strlit("keep-both");
    reveal_strlit("replace");
    reveal_strlit("skip-identical");
    assert("ask"@.len() == 3 && "keep-both"@.len() == 9 && "replace"@.len() == 7
        && "skip-identical"@.len() == 14);
}

/// A pause the user asked for. Always self-expiring: there is no permanent "off".
#[derive(Debug, Clone, Copy, PartialEq, Eq)]
pub struct PauseState {
    until: Option<Timestamp>,
}

/// The pause that is still in force of one that lifts at `until`.
pub open spec fn in_force(until: Option<Timestamp>, now: int) -> Option<Timestamp> {
    if until is Some && until->0@ > now {
        until
    } else {
        None
    }
}

impl Default for PauseState {
    fn default() -> (pause: PauseState)
        ensures
            pause@ is None,
    {
        PauseState { until: None }
    }
}

impl View for PauseState {
    type V = Option<Timestamp>;

    closed spec fn view(&self) -> Option<Timestamp> {
        self.until
    }
}

impl PauseState {
    /// Pause until `until`. A time already past is no pause at all.
    pub fn pause_until(&mut self, until: Timestamp)
        ensures
            final(self)@ == Some(until),
    {
        self.until = Some(until);
    }

    /// Lift the pause.
    pub fn resume(&mut self)
        ensures
            final(self)@ is None,
    {
        self.until = None;
    }

    /// Whether backups are paused at `now`.
    pub fn is_paused(&self, now: Timestamp) -> (paused: bool)
        ensures
            paused == (in_force(self@, now@) is Some),
            paused <==> (self@ matches Some(until) && now@ < until@),
    {
        match self.until {
            Some(until) => now.is_before(until),
            None => false,
        }
    }

    /// When the pause lifts, if it is still in force at `now`.
    pub fn until(&self, now: Timestamp) -> (until: Option<Timestamp>)
        ensures
            until == in_force(self@, now@),
    {
        match self.until {
            Some(until) => {
                if now.is_before(until) {
                    Some(until)
                } else {
                    None
                }
            },
            None => None,
        }
    }
}

/// A pause lifts by itself: once its time has come it is not in force, and it
/// never comes back.
pub proof fn a_pause_expires_by_itself(until: Option<Timestamp>, now: int, later: int)
    requires
        now <= later,
    ensures
        until is Some && later >= until->0@ ==> in_force(until, later) is None,
        in_force(until, now) is None ==> in_force(until, later) is None,
{
}

/// A point in time as the wire spells it: whole seconds since the epoch, and 0
/// for none.
pub open spec fn on_the_wire(time: Option<Timestamp>) -> int {
    match time {
        Some(t) => seconds_since_epoch(t@),
        None => 0,
    }
}

/// Seconds since the epoch, or 0 for "never".
pub fn to_epoch(time: Option<Timestamp>) -> (secs: u64)
    ensures
        secs == on_the_wire(time),
        secs <= i64::MAX,
{
    match time {
        Some(t) => t.epoch_secs(),
        None => 0,
    }
}

/// The inverse of [`to_epoch`].
pub fn from_epoch(secs: u64) -> (time: Option<Timestamp>)
    requires
        secs <= i64::MAX,
    ensures
        time is Some <==> secs > 0,
        time matches Some(t) ==> t@ == seconds(secs as int),
{
    if secs > 0 {
        Some(Timestamp::from_secs(secs as i64))
    } else {
        None
    }
}

/// A whole number of seconds after the epoch survives the wire.
pub proof fn whole_seconds_survive_the_wire(time: Timestamp, back: Timestamp)
    requires
        time@ > 0,
        time@ % 1_000_000_000 == 0,
        back@ == seconds(on_the_wire(Some(time))),
    ensures
        on_the_wire(Some(time)) > 0,
        back@ == time@,
{
}

/// When the next scheduled backup is due, given the last one. A missed schedule
/// is due now and not at some point in the past.
pub fn next_due(interval: Option<Span>, last_backup: Option<Timestamp>, now: Timestamp) -> (due:
    Option<Timestamp>)
    requires
        interval is Some && last_backup is Some ==> last_backup->0@ + interval->0@ < end_of_time(),
    ensures
        due is Some <==> interval is Some,
        due matches Some(at) ==> at@ == match last_backup {
            Some(last) => if last@ + interval->0@ > now@ {
                last@ + interval->0@
            } else {
                now@
            },
            None => now@,
        },
{
    let interval = match interval {
        Some(interval) => interval,
        None => {
            return None;
        },
    };
    let due = match last_backup {
        Some(last) => last.plus(interval),
        None => now,
    };
    if now.is_before(due) {
        Some(due)
    } else {
        Some(now)
    }
}

/// A pause is in force exactly until it lifts, and it lifts when it was said to.
pub proof fn a_pause_lasts_as_long_as_it_was_said_to(until: Option<Timestamp>, now: int)
    ensures
        until matches Some(at) ==> (in_force(until, now) == until <==> now < at@),
        until matches Some(at) ==> (in_force(until, now) is None <==> at@ <= now),
        until is None ==> in_force(until, now) is None,
{
}

/// No other spelling stands for a policy.
pub proof fn a_spelling_stands_for_one_policy(value: Seq<char>)
    ensures
        RestorePolicy::named(value) matches Some(policy) ==> value == policy.name(),
        RestorePolicy::named(value) is None <==> value != "ask"@ && value != "keep-both"@ && value
            != "replace"@ && value != "skip-identical"@,
        RestorePolicy::named("ask"@) == Some(RestorePolicy::Ask),
        RestorePolicy::named("keep-both"@) == Some(RestorePolicy::KeepBoth),
        RestorePolicy::named("replace"@) == Some(RestorePolicy::Replace),
        RestorePolicy::named("skip-identical"@) == Some(RestorePolicy::SkipIdentical),
{
    policies_survive_their_spelling(RestorePolicy::Ask);
    policies_survive_their_spelling(RestorePolicy::KeepBoth);
    policies_survive_their_spelling(RestorePolicy::Replace);
    policies_survive_their_spelling(RestorePolicy::SkipIdentical);
}

/// On the wire a point in time is the last whole second before it, none before the
/// epoch, and it keeps its order.
pub proof fn the_wire_keeps_the_order(a: Timestamp, b: Timestamp)
    ensures
        a@ >= 0 ==> on_the_wire(Some(a)) * 1_000_000_000 <= a@ < (on_the_wire(Some(a)) + 1)
            * 1_000_000_000,
        a@ < 0 ==> on_the_wire(Some(a)) == 0,
        a@ <= b@ ==> on_the_wire(Some(a)) <= on_the_wire(Some(b)),
        on_the_wire(None) == 0,
{
}

} // verus!
