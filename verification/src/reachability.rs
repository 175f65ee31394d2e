//! Is the backup destination there?
//!
//! The answer has to be honest about not knowing, and steady. Every look can
//! come back [`Reach::Unknown`], and an unknown never moves the state: a look
//! that timed out is no evidence that a drive was unplugged. And a
//! [`ReachabilityTracker`] reports a change at most once a minute, so a link
//! that comes and goes does not drag the status back and forth.

use vstd::prelude::*;

use crate::engine::EngineError;
use crate::text;
#[allow(unused_imports)]
use crate::text::{begins, first_of, last_of, parsed};
use crate::time::{Span, Timestamp};
#[allow(unused_imports)]
use crate::time::{end_of_time, seconds};

verus! {

/// The longest a single look may take, in seconds.
pub const PROBE_TIMEOUT: u64 = 2;

/// How long a round trip to a remote repository may take, in seconds.
pub const CONFIRM_TIMEOUT: u64 = 15;

/// The shortest gap between two reported changes, in seconds.
pub const MIN_TRANSITION_GAP: u64 = 60;

/// How often to look when nothing has prompted it, in seconds.
pub const POLL_INTERVAL: u64 = 60;

/// How long to let a burst of network changes settle before looking, in seconds.
pub const NETWORK_SETTLE: u64 = 2;

/// The port of a destination that names none.
pub const SSH_PORT: u16 = 22;

/// What one look at the destination found.
#[derive(Debug, Clone, Copy, PartialEq, Eq, Structural)]
pub enum Reach {
    /// It answered.
    Yes,
    /// It is definitely not there.
    No,
    /// Nothing here could say.
    Unknown,
}

impl Reach {
    /// The answer as a two-valued one, or `None` when nobody could say.
    pub fn definite(self) -> (answer: Option<bool>)
        ensures
            answer == match self {
                Reach::Yes => Some(true),
                Reach::No => Some(false),
                Reach::Unknown => None,
            },
    {
        match self {
            Reach::Yes => Some(true),
            Reach::No => Some(false),
            Reach::Unknown => None,
        }
    }

    /// What an answer, or its absence, comes to.
    pub fn from(answered: bool) -> (reach: Reach)
        ensures
            reach == if answered {
                Reach::Yes
            } else {
                Reach::No
            },
    {
        if answered {
            Reach::Yes
        } else {
            Reach::No
        }
    }
}

/// How to look at a destination.
#[derive(Debug, PartialEq, Eq)]
pub enum Look {
    /// There is nothing to look at.
    Nowhere,
    /// Connect to this host and port first.
    Connect { host: String, port: u16 },
    /// See whether the path can be written to.
    Access,
}

/// What waiting for something came to.
#[derive(Debug, PartialEq, Eq)]
pub enum Waited<T> {
    /// It came.
    Came(T),
    /// It did not come in time.
    TimedOut,
}

/// The way a real destination is looked at.
#[derive(Debug, Clone, Copy, PartialEq, Eq, Structural)]
pub struct RealProbe;

impl RealProbe {
    /// How to look at `repository`.
    pub fn plan(&self, repository: &str) -> (look: Look)
        ensures
            match look {
                Look::Nowhere => repository@.len() == 0,
                Look::Connect { host, port } => repository@.len() > 0 && endpoint(repository@)
                    == Some((host@, port)),
                Look::Access => repository@.len() > 0 && endpoint(repository@) is None,
            },
    {
        if repository.is_empty() {
            return Look::Nowhere;
        }
        match ssh_endpoint(repository) {
            Some((host, port)) => Look::Connect { host, port },
            None => Look::Access,
        }
    }

    /// What an attempt to see whether the path can be written to found. `None`
    /// stands for an attempt that broke off.
    pub fn accessed(&self, outcome: Waited<Option<bool>>) -> (reach: Reach)
        ensures
            reach == match outcome {
                Waited::Came(Some(writable)) => if writable {
                    Reach::Yes
                } else {
                    Reach::No
                },
                _ => Reach::Unknown,
            },
    {
        match outcome {
            Waited::Came(Some(writable)) => Reach::from(writable),
            Waited::Came(None) => Reach::Unknown,
            // Almost always a hung mount, which may well still be there.
            Waited::TimedOut => Reach::Unknown,
        }
    }

    /// What connecting to the host found: `None` when the repository has to be
    /// asked as well. The host being up is not the repository being usable.
    pub fn connected(&self, outcome: Waited<bool>, can_ask: bool) -> (reach: Option<Reach>)
        ensures
            reach == match outcome {
                Waited::Came(accepted) => if !accepted {
                    Some(Reach::No)
                } else if can_ask {
                    None
                } else {
                    Some(Reach::Yes)
                },
                Waited::TimedOut => Some(Reach::Unknown),
            },
    {
        match outcome {
            Waited::Came(accepted) => {
                if !accepted {
                    Some(Reach::No)
                } else if can_ask {
                    None
                } else {
                    Some(Reach::Yes)
                }
            },
            Waited::TimedOut => Some(Reach::Unknown),
        }
    }

    /// What asking the repository found. Only its own word that it cannot be
    /// reached counts as absence: anything else it complains of, it complained
    /// of by answering.
    pub fn confirmed(&self, outcome: Waited<Result<(), EngineError>>) -> (reach: Reach)
        ensures
            reach == match outcome {
                Waited::Came(Err(EngineError::RepoUnreachable)) => Reach::No,
                Waited::Came(_) => Reach::Yes,
                Waited::TimedOut => Reach::Unknown,
            },
    {
        match outcome {
            Waited::Came(Err(EngineError::RepoUnreachable)) => Reach::No,
            Waited::Came(_) => Reach::Yes,
            Waited::TimedOut => Reach::Unknown,
        }
    }
}

/// A host and a port, from `host`, `host:port` or `[address]:port`. Without a
/// port, or with something else in its place, it is the default one; an address
/// in brackets loses them.
pub open spec fn host_port(text: Seq<char>) -> (Seq<char>, u16) {
    let bracketed = text.len() > 0 && text[0] == '[' && first_of(text.skip(1), ']') < text.len() - 1;
    if bracketed {
        let rest = text.skip(1);
        let k = first_of(rest, ']');
        let tail = rest.skip(k + 1);
        let port = if tail.len() > 0 && tail[0] == ':' {
            parsed(tail.skip(1), u16::MAX as int)
        } else {
            None
        };
        (
            rest.take(k),
            match port {
                Some(p) => p as u16,
                None => SSH_PORT,
            },
        )
    } else {
        let k = last_of(text, ':');
        if k < 0 {
            (text, SSH_PORT)
        } else {
            match parsed(text.skip(k + 1), u16::MAX as int) {
                Some(p) => (text.take(k), p as u16),
                None => (text, SSH_PORT),
            }
        }
    }
}

/// Whether the part of a destination before its first colon is a user and a
/// host, and not a piece of a path.
pub open spec fn is_user_at_host(prefix: Seq<char>) -> bool {
    prefix.contains('@') && !prefix.contains('/')
}

/// The host and port of a remote destination: `ssh://[user@]host[:port]/path` or
/// `user@host:path`. A plain path with a colon in it is no remote destination.
pub open spec fn endpoint(repository: Seq<char>) -> Option<(Seq<char>, u16)> {
    if begins(repository, "ssh://"@) {
        let rest = repository.skip(6);
        let authority = rest.take(first_of(rest, '/'));
        Some(host_port(authority.skip(last_of(authority, '@') + 1)))
    } else {
        let k = first_of(repository, ':');
        let prefix = repository.take(k);
        let host = prefix.skip(last_of(prefix, '@') + 1);
        if k == repository.len() || !is_user_at_host(prefix) || host.len() == 0 {
            None
        } else {
            Some((host, SSH_PORT))
        }
    }
}

/// Whether a character occurs in part of a text.
fn occurs(chars: &Vec<char>, from: usize, to: usize, c: char) -> (yes: bool)
    requires
        from <= to <= chars@.len(),
    ensures
        yes == chars@.subrange(from as int, to as int).contains(c),
{
    proof {
        text::lemma_first_of(chars@.subrange(from as int, to as int), c);
    }
    text::find_first(chars, from, to, c) < to - from
}

/// Host and port for a remote destination, or `None` for a local path.
pub fn ssh_endpoint(repository: &str) -> (found: Option<(String, u16)>)
    ensures
        match found {
            Some((host, port)) => endpoint(repository@) == Some((host@, port)),
            None => endpoint(repository@) is None,
        },
{
    let chars = text::to_chars(repository);
    let n: usize = chars.len();
    proof {
        reveal_strlit("ssh://");
    }
    match text::strip_prefix(&chars, "ssh://") {
        Some(start) => {
            assert(chars@.subrange(start as int, n as int) =~= chars@.skip(6));
            let size: usize = text::find_first(&chars, start, n, '/');
            let end: usize = start + size;
            assert(chars@.subrange(start as int, end as int) =~= chars@.skip(6).take(size as int));
            let user: usize = text::find_after_last(&chars, start, end, '@');
            let ghost authority = chars@.subrange(start as int, end as int);
            assert(authority.skip(user as int) =~= chars@.subrange(start + user, end as int));
            return Some(split_host_port_in(&chars, start + user, end));
        },
        None => {},
    }
    assert(chars@.subrange(0, n as int) =~= chars@);
    let k: usize = text::find_first(&chars, 0, n, ':');
    assert(chars@.subrange(0, k as int) =~= chars@.take(k as int));
    if k == n || !occurs(&chars, 0, k, '@') || occurs(&chars, 0, k, '/') {
        return None;
    }
    let user: usize = text::find_after_last(&chars, 0, k, '@');
    assert(chars@.take(k as int).skip(user as int) =~= chars@.subrange(user as int, k as int));
    if user == k {
        return None;
    }
    Some((text::from_chars(&chars, user, k), SSH_PORT))
}

/// Split part of a text into a host and a port.
fn split_host_port_in(chars: &Vec<char>, from: usize, to: usize) -> (parts: (String, u16))
    requires
        from <= to <= chars@.len(),
    ensures
        (parts.0@, parts.1) == host_port(chars@.subrange(from as int, to as int)),
{
    let ghost text = chars@.subrange(from as int, to as int);
    if from < to && chars[from] == '[' {
        assert(chars@.subrange(from + 1, to as int) =~= text.skip(1));
        let k: usize = text::find_first(chars, from + 1, to, ']');
        if k < to - from - 1 {
            let ghost rest = text.skip(1);
            let ghost tail = rest.skip(k + 1);
            let close: usize = from + 1 + k;
            let addr = text::from_chars(chars, from + 1, close);
            assert(addr@ =~= rest.take(k as int));
            assert(tail =~= chars@.subrange(close + 1, to as int));
            let port: Option<u64> = if close + 1 < to && chars[close + 1] == ':' {
                assert(tail.skip(1) =~= chars@.subrange(close + 2, to as int));
                text::parse_number(chars, close + 2, to, u16::MAX as u64)
            } else {
                None
            };
            return (
                addr,
                match port {
                    Some(p) => p as u16,
                    None => SSH_PORT,
                },
            );
        }
    }
    let k: usize = text::find_after_last(chars, from, to, ':');
    assert(k > 0 ==> text.skip(k as int) =~= chars@.subrange(from + k, to as int));
    assert(k > 0 ==> text.take(k - 1) =~= chars@.subrange(from as int, from + k - 1));
    if k > 0 {
        match text::parse_number(chars, from + k, to, u16::MAX as u64) {
            Some(p) => {
                return (text::from_chars(chars, from, from + k - 1), p as u16);
            },
            // Not a port: passing it on unchanged gives a better error than
            // inventing one.
            None => {},
        }
    }
    (text::from_chars(chars, from, to), SSH_PORT)
}

/// Split `host` or `host:port`.
pub fn split_host_port(text: &str) -> (parts: (String, u16))
    ensures
        (parts.0@, parts.1) == host_port(text@),
{
    let chars = text::to_chars(text);
    assert(chars@.subrange(0, chars@.len() as int) =~= text@);
    split_host_port_in(&chars, 0, chars.len())
}

/// What taking in one look did.
#[derive(Debug, Clone, Copy, PartialEq, Eq)]
pub enum Observed {
    /// Nothing to report.
    Unchanged,
    /// The look disagrees, but the last change was too recent to act on it.
    /// Look again after `until`.
    Held { until: Timestamp },
    /// The state changed.
    Changed { reachable: bool },
}

/// Smooths a sequence of looks into a state that does not thrash.
#[derive(Debug)]
pub struct ReachabilityTracker {
    reachable: bool,
    last_transition: Option<Timestamp>,
}

impl ReachabilityTracker {
    /// What is believed of the destination.
    pub closed spec fn believed(self) -> bool {
        self.reachable
    }

    /// When that last changed, if it has.
    pub closed spec fn changed_at(self) -> Option<int> {
        match self.last_transition {
            Some(at) => Some(at@),
            None => None,
        }
    }

    /// Whether a change may be reported at `now`: none has been yet, or the
    /// last one is a minute old.
    pub open spec fn may_change(self, now: int) -> bool {
        self.changed_at() matches Some(last) ==> now >= last + seconds(60)
    }

    /// Whether a look disagrees with what is believed. An unknown does not.
    pub open spec fn contradicts(self, reach: Reach) -> bool {
        (reach == Reach::Yes && !self.believed()) || (reach == Reach::No && self.believed())
    }

    /// Whether taking in a look at `now` is answered by `answer`, and leaves `after`.
    pub open spec fn takes_in(
        self,
        reach: Reach,
        now: int,
        answer: Observed,
        after: ReachabilityTracker,
    ) -> bool {
        if !self.contradicts(reach) {
            answer == Observed::Unchanged && after == self
        } else if !self.may_change(now) {
            &&& answer matches Observed::Held { until }
            &&& until@ == self.changed_at()->0 + seconds(60)
            &&& after == self
        } else {
            &&& answer == (Observed::Changed { reachable: !self.believed() })
            &&& after.believed() == !self.believed()
            &&& after.changed_at() == Some(now)
        }
    }

    /// Start from what the daemon currently believes. The first disagreement is
    /// acted on at once: a machine that starts away from its drive says so now.
    pub fn new(reachable: bool) -> (tracker: ReachabilityTracker)
        ensures
            tracker.believed() == reachable,
            tracker.changed_at() is None,
    {
        ReachabilityTracker { reachable, last_transition: None }
    }

    /// What is currently believed.
    pub fn reachable(&self) -> (reachable: bool)
        ensures
            reachable == self.believed(),
    {
        self.reachable
    }

    /// Take in one look.
    pub fn observe(&mut self, reach: Reach, now: Timestamp) -> (observed: Observed)
        requires
            old(self).contradicts(reach) ==> (old(self).changed_at() matches Some(last) ==> last
                + seconds(60) < end_of_time()),
        ensures
            old(self).takes_in(reach, now@, observed, *final(self)),
            reach == Reach::Unknown || (reach == Reach::Yes) == old(self).believed() ==> observed
                == Observed::Unchanged && *final(self) == *old(self),
            reach != Reach::Unknown && (reach == Reach::Yes) != old(self).believed() ==> (
            match old(self).changed_at() {
                Some(last) if now@ - last < 60_000_000_000 => {
                    &&& observed matches Observed::Held { until }
                    &&& until@ == last + 60_000_000_000
                    &&& *final(self) == *old(self)
                },
                _ => {
                    &&& observed == (Observed::Changed { reachable: reach == Reach::Yes })
                    &&& final(self).believed() == (reach == Reach::Yes)
                    &&& final(self).changed_at() == Some(now@)
                },
            }),
    {
        let seen = match reach.definite() {
            Some(seen) => seen,
            None => {
                return Observed::Unchanged;
            },
        };
        if seen == self.reachable {
            return Observed::Unchanged;
        }
        match self.last_transition {
            Some(last) => {
                let ready = last.plus(Span::from_secs(MIN_TRANSITION_GAP));
                if now.is_before(ready) {
                    return Observed::Held { until: ready };
                }
            },
            None => {},
        }
        self.reachable = seen;
        self.last_transition = Some(now);
        Observed::Changed { reachable: seen }
    }
}

/// A row of looks at the destination, from a new tracker on: what each found and
/// when, how it was answered, and the tracker before and after each.
pub open spec fn is_watch(
    looks: Seq<(Reach, int)>,
    answers: Seq<Observed>,
    trackers: Seq<ReachabilityTracker>,
) -> bool {
    &&& answers.len() == looks.len()
    &&& trackers.len() == looks.len() + 1
    &&& trackers[0].changed_at() is None
    &&& forall|i: int|
        0 <= i < looks.len() ==> trackers[i].takes_in(
            (#[trigger] looks[i]).0,
            looks[i].1,
            answers[i],
            trackers[i + 1],
        )
}

/// Whether no change is reported from one look up to another.
pub open spec fn is_quiet(answers: Seq<Observed>, from: int, to: int) -> bool {
    forall|i: int| from <= i < to ==> !((#[trigger] answers[i]) is Changed)
}

/// While no change is reported, the tracker stays as it is.
proof fn lemma_quiet(
    looks: Seq<(Reach, int)>,
    answers: Seq<Observed>,
    trackers: Seq<ReachabilityTracker>,
    from: int,
    to: int,
)
    requires
        is_watch(looks, answers, trackers),
        0 <= from <= to <= looks.len(),
        is_quiet(answers, from, to),
    ensures
        trackers[to] == trackers[from],
    decreases to - from,
{
    if from < to {
        lemma_quiet(looks, answers, trackers, from, to - 1);
        let look = looks[to - 1];
        assert(!(answers[to - 1] is Changed));
        assert(trackers[to - 1].takes_in(look.0, look.1, answers[to - 1], trackers[to]));
    }
}

/// Whatever is seen, two changes reported one after the other are at least a minute
/// apart, and the second takes the first back.
pub proof fn changes_are_a_minute_apart(
    looks: Seq<(Reach, int)>,
    answers: Seq<Observed>,
    trackers: Seq<ReachabilityTracker>,
    first: int,
    second: int,
)
    requires
        is_watch(looks, answers, trackers),
        0 <= first < second < looks.len(),
        answers[first] is Changed,
        answers[second] is Changed,
        is_quiet(answers, first + 1, second),
    ensures
        looks[second].1 >= looks[first].1 + seconds(60),
        answers[second]->reachable == !answers[first]->reachable,
{
    lemma_quiet(looks, answers, trackers, first + 1, second);
    let (a, b) = (looks[first], looks[second]);
    assert(trackers[first].takes_in(a.0, a.1, answers[first], trackers[first + 1]));
    assert(trackers[second].takes_in(b.0, b.1, answers[second], trackers[second + 1]));
}

/// The first change reported is one away from what was believed at the start, and it
/// comes at the first look that disagrees with that.
pub proof fn the_first_disagreement_is_a_change(
    looks: Seq<(Reach, int)>,
    answers: Seq<Observed>,
    trackers: Seq<ReachabilityTracker>,
    at: int,
)
    requires
        is_watch(looks, answers, trackers),
        0 <= at < looks.len(),
        is_quiet(answers, 0, at),
    ensures
        answers[at] is Changed <==> trackers[0].contradicts(looks[at].0),
        answers[at] is Changed ==> answers[at]->reachable == !trackers[0].believed(),
{
    lemma_quiet(looks, answers, trackers, 0, at);
    assert(trackers[at].takes_in(looks[at].0, looks[at].1, answers[at], trackers[at + 1]));
}

/// A change is put off, never lost: a look that disagrees a minute or more after
/// the last change is acted on.
pub proof fn the_truth_is_adopted_in_the_end(
    tracker: ReachabilityTracker,
    first: int,
    now: int,
)
    requires
        tracker.changed_at() == Some(first),
        now >= first + seconds(60),
    ensures
        tracker.may_change(now),
{
}

/// Not knowing is never reported as absence.
pub proof fn uncertainty_changes_nothing(tracker: ReachabilityTracker)
    ensures
        !tracker.contradicts(Reach::Unknown),
{
}

/// How long to wait before the next look: until a held look can be acted on, but
/// at least a second, and otherwise the usual while.
pub fn next_look(observed: Observed, now: Timestamp) -> (wait: Span)
    ensures
        match observed {
            Observed::Held { until } => wait@ == if until@ - now@ >= seconds(1) {
                until@ - now@
            } else {
                seconds(1)
            },
            _ => wait@ == seconds(60),
        },
{
    match observed {
        Observed::Held { until } => until.saturating_since(now).at_least(Span::from_secs(1)),
        _ => Span::from_secs(POLL_INTERVAL),
    }
}

/// What one look does: one that says nothing, or nothing new, changes nothing; one
/// that disagrees is acted on, unless the last change is less than a minute old,
/// and then it is held until that minute is over.
pub proof fn a_look_is_taken_at_its_word(
    tracker: ReachabilityTracker,
    reach: Reach,
    now: int,
    answer: Observed,
    after: ReachabilityTracker,
)
    requires
        tracker.takes_in(reach, now, answer, after),
    ensures
        reach == Reach::Unknown ==> answer == Observed::Unchanged && after == tracker,
        reach == Reach::Yes && tracker.believed() ==> answer == Observed::Unchanged && after
            == tracker,
        reach == Reach::No && !tracker.believed() ==> answer == Observed::Unchanged && after
            == tracker,
        reach == Reach::Yes && !tracker.believed() || reach == Reach::No && tracker.believed() ==> {
            &&& answer is Held <==> (tracker.changed_at() matches Some(last) && now - last
                < 60_000_000_000)
            &&& answer is Changed <==> !(answer is Held)
        },
        answer matches Observed::Held { until } ==> tracker.changed_at() is Some && until@
            == tracker.changed_at()->0 + 60_000_000_000 && after == tracker,
        answer matches Observed::Changed { reachable } ==> reachable == (reach == Reach::Yes)
            && after.believed() == reachable && after.changed_at() == Some(now),
{
}

/// What is believed in the end is what the last look that was acted on found; and
/// where every look is taken in at once, what the last definite one found.
pub proof fn what_is_believed_was_seen(
    looks: Seq<(Reach, int)>,
    answers: Seq<Observed>,
    trackers: Seq<ReachabilityTracker>,
)
    requires
        is_watch(looks, answers, trackers),
    ensures
        trackers[looks.len() as int].believed() != trackers[0].believed() ==> exists|i: int|
            0 <= i < looks.len() && #[trigger] answers[i] is Changed && looks[i].0 == if trackers[looks.len() as int].believed() {
                Reach::Yes
            } else {
                Reach::No
            },
    decreases looks.len(),
{
    if looks.len() > 0 {
        let n = looks.len() as int;
        let (l, a, t) = (looks.drop_last(), answers.drop_last(), trackers.drop_last());
        assert forall|i: int| 0 <= i < l.len() implies t[i].takes_in(
            (#[trigger] l[i]).0,
            l[i].1,
            a[i],
            t[i + 1],
        ) by {
            assert(l[i] == looks[i]);
        }
        what_is_believed_was_seen(l, a, t);
        assert(trackers[n - 1].takes_in(looks[n - 1].0, looks[n - 1].1, answers[n - 1], trackers[n]));
        if trackers[n].believed() != trackers[0].believed() {
            if answers[n - 1] is Changed {
                assert(looks[n - 1].0 == if trackers[n].believed() {
                    Reach::Yes
                } else {
                    Reach::No
                });
            } else {
                assert(t[n - 1] == trackers[n - 1]);
                let i = choose|i: int|
                    0 <= i < l.len() && #[trigger] a[i] is Changed && l[i].0 == if t[n - 1].believed() {
                        Reach::Yes
                    } else {
                        Reach::No
                    };
                assert(answers[i] == a[i] && looks[i] == l[i]);
            }
        }
    }
}

/// A host that is written with a port is read back with it, and one without with
/// the usual one; so is an address in brackets, whatever colons it has.
pub proof fn a_host_is_read_back_with_its_port(host: Seq<char>, port: u16)
    ensures
        !host.contains(':') && (host.len() > 0 ==> host[0] != '[') ==> host_port(host) == (
            host,
            22u16,
        ) && host_port(host + seq![':'] + text::decimal(port as nat)) == (host, port),
        !host.contains(']') ==> host_port(seq!['['] + host + seq![']']) == (host, 22u16)
            && host_port(seq!['['] + host + seq![']', ':'] + text::decimal(port as nat)) == (
            host,
            port,
        ),
{
    let digits = text::decimal(port as nat);
    text::lemma_decimal_reads_back(port as nat);
    text::a_number_is_read_back(port as nat, u16::MAX as int);
    if !host.contains(':') && (host.len() > 0 ==> host[0] != '[') {
        text::lemma_last_of(host, ':');
        let full = host + seq![':'] + digits;
        text::lemma_last_of(full, ':');
        let k = host.len() as int;
        assert(full[k] == ':');
        assert forall|i: int| k < i < full.len() implies full[i] != ':' by {
            assert(full[i] == digits[i - k - 1]);
        }
        assert(last_of(full, ':') == k);
        assert(full.skip(k + 1) =~= digits);
        assert(full.take(k) =~= host);
        assert(full[0] != '[');
    }
    if !host.contains(']') {
        let n = host.len() as int;
        let bare = seq!['['] + host + seq![']'];
        assert(bare.skip(1) =~= host + seq![']']);
        text::lemma_first_of(bare.skip(1), ']');
        assert(bare.skip(1)[n] == ']');
        assert forall|i: int| 0 <= i < n implies bare.skip(1)[i] != ']' by {
            assert(bare.skip(1)[i] == host[i]);
        }
        assert(first_of(bare.skip(1), ']') == n);
        assert(bare.skip(1).take(n) =~= host);
        assert(bare.skip(1).skip(n + 1).len() == 0);
        let full = seq!['['] + host + seq![']', ':'] + digits;
        text::lemma_first_of(full.skip(1), ']');
        assert(full.skip(1)[n] == ']');
        assert forall|i: int| 0 <= i < n implies full.skip(1)[i] != ']' by {
            assert(full.skip(1)[i] == host[i]);
        }
        assert(first_of(full.skip(1), ']') == n);
        assert(full.skip(1).take(n) =~= host);
        let after = full.skip(1).skip(n + 1);
        assert(after =~= seq![':'] + digits);
        assert(after.skip(1) =~= digits);
    }
}

/// What stands where a port would and is none leaves the host as it was written,
/// with the usual port.
pub proof fn what_is_no_port_stays_with_the_host(host: Seq<char>)
    requires
        host.len() > 0 ==> host[0] != '[',
        parsed(host.skip(last_of(host, ':') + 1), 65_535) is None,
    ensures
        host_port(host) == (host, 22u16),
{
}

/// Of a destination that is written with a scheme, the user goes and so does the
/// path: it is the host and the port between them that are looked for.
pub proof fn a_scheme_names_host_and_port(user: Seq<char>, host: Seq<char>, path: Seq<char>)
    requires
        !user.contains('/'),
        !host.contains('/'),
        !host.contains('@'),
    ensures
        endpoint("ssh://"@ + user + seq!['@'] + host + seq!['/'] + path) == Some(host_port(host)),
        endpoint("ssh://"@ + host + seq!['/'] + path) == Some(host_port(host)),
        endpoint("ssh://"@ + host) == Some(host_port(host)),
{
    reveal_strlit("ssh://");
    let a = "ssh://"@ + user + seq!['@'] + host + seq!['/'] + path;
    let n = user.len() as int;
    let m = host.len() as int;
    assert(a.take(6) =~= "ssh://"@);
    assert(a.skip(6) =~= user + seq!['@'] + host + seq!['/'] + path);
    lemma_cut_at_slash(user + seq!['@'] + host, path);
    assert(!(user + seq!['@'] + host).contains('/')) by {
        let x = user + seq!['@'] + host;
        assert forall|i: int| 0 <= i < x.len() implies x[i] != '/' by {
            if i < n {
                assert(x[i] == user[i]);
            } else if i > n {
                assert(x[i] == host[i - n - 1]);
            }
        }
    }
    assert(a.skip(6) =~= (user + seq!['@'] + host) + seq!['/'] + path);
    lemma_after_user(user, host);
    let b = "ssh://"@ + host + seq!['/'] + path;
    assert(b.take(6) =~= "ssh://"@);
    assert(b.skip(6) =~= host + seq!['/'] + path);
    lemma_cut_at_slash(host, path);
    text::lemma_last_of(host, '@');
    assert(host.skip(0) =~= host);
    let c = "ssh://"@ + host;
    assert(c.take(6) =~= "ssh://"@);
    assert(c.skip(6) =~= host);
    text::lemma_first_of(host, '/');
    assert(host.take(m) =~= host);
}

/// Up to the first slash of what has none before it.
proof fn lemma_cut_at_slash(head: Seq<char>, path: Seq<char>)
    ensures
        !head.contains('/') ==> (head + seq!['/'] + path).take(
            first_of(head + seq!['/'] + path, '/'),
        ) == head,
{
    let whole = head + seq!['/'] + path;
    text::lemma_first_of(whole, '/');
    if !head.contains('/') {
        let n = head.len() as int;
        assert(whole[n] == '/');
        assert forall|i: int| 0 <= i < n implies whole[i] != '/' by {
            assert(whole[i] == head[i]);
        }
        assert(first_of(whole, '/') == n);
        assert(whole.take(n) =~= head);
    }
}

/// What follows the last `@`.
proof fn lemma_after_user(user: Seq<char>, host: Seq<char>)
    requires
        !host.contains('@'),
    ensures
        (user + seq!['@'] + host).skip(last_of(user + seq!['@'] + host, '@') + 1) == host,
        (user + seq!['@'] + host).contains('@'),
{
    let x = user + seq!['@'] + host;
    let n = user.len() as int;
    text::lemma_last_of(x, '@');
    assert(x[n] == '@');
    assert forall|i: int| n < i < x.len() implies x[i] != '@' by {
        assert(x[i] == host[i - n - 1]);
    }
    assert(last_of(x, '@') == n);
    assert(x.skip(n + 1) =~= host);
}

/// A destination that is written as a user at a host, a colon and a path is looked
/// for at that host, on the usual port; and one without an `@` before its first
/// colon, or with a slash there, is a path on this computer.
pub proof fn a_user_at_a_host_is_looked_for_there(
    user: Seq<char>,
    host: Seq<char>,
    path: Seq<char>,
)
    requires
        !user.contains('/'),
        !user.contains(':'),
        !host.contains('/'),
        !host.contains(':'),
        !host.contains('@'),
        host.len() > 0,
    ensures
        endpoint(user + seq!['@'] + host + seq![':'] + path) == Some((host, 22u16)),
        endpoint(host + seq![':'] + path) is None || begins(host + seq![':'] + path, "ssh://"@),
        endpoint(seq!['/'] + path) is None,
{
    reveal_strlit("ssh://");
    let head = user + seq!['@'] + host;
    let whole = head + seq![':'] + path;
    assert(whole =~= user + seq!['@'] + host + seq![':'] + path);
    let (n, m) = (user.len() as int, host.len() as int);
    assert forall|i: int| 0 <= i < head.len() implies head[i] != '/' && head[i] != ':' by {
        if i < n {
            assert(head[i] == user[i]);
        } else if i > n {
            assert(head[i] == host[i - n - 1]);
        }
    }
    text::lemma_first_of(whole, ':');
    assert(whole[head.len() as int] == ':');
    assert forall|i: int| 0 <= i < head.len() implies whole[i] != ':' by {
        assert(whole[i] == head[i]);
    }
    assert(first_of(whole, ':') == head.len());
    assert(whole.take(head.len() as int) =~= head);
    lemma_after_user(user, host);
    if begins(whole, "ssh://"@) {
        assert(whole.take(6)[3] == ':');
        assert(whole[3] == ':' && head.len() == 3);
        assert(whole.take(6)[n] == '@');
    }
    let plain = host + seq![':'] + path;
    text::lemma_first_of(plain, ':');
    assert(plain[m] == ':');
    assert forall|i: int| 0 <= i < m implies plain[i] != ':' by {
        assert(plain[i] == host[i]);
    }
    assert(first_of(plain, ':') == m);
    assert(plain.take(m) =~= host);
    let local = seq!['/'] + path;
    text::lemma_first_of(local, ':');
    assert(local[0] == '/');
    if begins(local, "ssh://"@) {
        assert(local.take(6)[0] == 's');
    }
    if first_of(local, ':') < local.len() {
        assert(local.take(first_of(local, ':'))[0] == '/');
    }
}

} // verus!
