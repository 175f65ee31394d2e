//! The names of archives.
//!
//! `bt-{host}-{timestamp}` for backups and `bt-local-{timestamp}` for what is
//! held on this computer. The prefix tells this product's archives from others
//! in the same repository, the host tells machines apart that share one, and
//! the timestamp makes names sort as the backups were taken.

use vstd::prelude::*;

use crate::calendar;
#[allow(unused_imports)]
use crate::calendar::{is_iso_basic, timestamp};
use crate::text;
#[allow(unused_imports)]
use crate::text::{sorts_before, trim};
use crate::time::{Span, Timestamp};
#[allow(unused_imports)]
use crate::time::{end_of_time, seconds, seconds_since_epoch};

verus! {

/// Whether a character stays in an archive name.
pub open spec fn plain(c: char) -> bool {
    ('a' <= c <= 'z') || ('A' <= c <= 'Z') || ('0' <= c <= '9') || c == '-'
}

/// A host name with everything that is not plain replaced, and no dashes at
/// either end; `unknown` if nothing is left.
pub open spec fn sanitised(hostname: Seq<char>) -> Seq<char> {
    let cleaned = hostname.map_values(
        |c: char|
            if plain(c) {
                c
            } else {
                '-'
            },
    );
    let left = trim(cleaned, '-');
    if left.len() == 0 {
        "unknown"@
    } else {
        left
    }
}

/// The name of an archive taken at `now`, after `prefix`.
pub open spec fn dated(prefix: Seq<char>, now: int) -> Seq<char> {
    prefix + timestamp(seconds_since_epoch(now))
}

/// What the names of a machine's backups begin with.
pub open spec fn backup_prefix(hostname: Seq<char>) -> Seq<char> {
    "bt-"@ + sanitised(hostname) + "-"@
}

/// Whether a name is among those that are taken.
pub open spec fn is_taken(taken: Seq<String>, name: Seq<char>) -> bool {
    exists|i: int| 0 <= i < taken.len() && (#[trigger] taken[i])@ == name
}

/// Keep a host name to characters that mean nothing in an archive name.
pub fn sanitise_hostname(hostname: &str) -> (cleaned: String)
    ensures
        cleaned@ == sanitised(hostname@),
{
    let chars = text::to_chars(hostname);
    let mut kept: Vec<char> = Vec::new();
    let mut i: usize = 0;
    let ghost replace = |c: char|
        if plain(c) {
            c
        } else {
            '-'
        };
    while i < chars.len()
        invariant
            i <= chars@.len(),
            kept@.len() == i,
            forall|k: int| 0 <= k < i ==> kept@[k] == replace(chars@[k]),
            replace == (|c: char|
                if plain(c) {
                    c
                } else {
                    '-'
                }),
        decreases chars@.len() - i,
    {
        let c: char = chars[i];
        if (c >= 'a' && c <= 'z') || (c >= 'A' && c <= 'Z') || (c >= '0' && c <= '9') || c
            == '-' {
            kept.push(c);
        } else {
            kept.push('-');
        }
        i += 1;
    }
    assert(kept@ =~= hostname@.map_values(replace));
    let left = text::trimmed(&kept, '-');
    if left.as_str().is_empty() {
        "unknown".to_owned()
    } else {
        left
    }
}

/// `YYYYMMDDThhmmssZ` for a point in time, shared by every kind of archive name
/// so that all of them sort together. Before the epoch it is the epoch's.
pub fn iso8601_basic_at(now: Timestamp) -> (text: String)
    ensures
        text@ == timestamp(seconds_since_epoch(now@)),
        is_iso_basic(seconds_since_epoch(now@), text@),
{
    calendar::iso8601_basic(now.epoch_secs() as i64)
}

/// The archive name for a backup taken at `now`.
pub fn archive_name(hostname: &str, now: Timestamp) -> (name: String)
    ensures
        name@ == dated(backup_prefix(hostname@), now@),
{
    let mut name = "bt-".to_owned();
    name.append(sanitise_hostname(hostname).as_str());
    name.append("-");
    name.append(iso8601_basic_at(now).as_str());
    name
}

/// Whether the name at `t` is one that is not taken, whatever `name_at` makes of
/// `t`.
pub open spec fn surely_free<F: Fn(Timestamp) -> String>(
    name_at: F,
    taken: Seq<String>,
    nanos: int,
) -> bool {
    forall|t: Timestamp, name: String|
        t@ == nanos && #[trigger] call_ensures(name_at, (t,), name) ==> !is_taken(taken, name@)
}

/// Whether a name at that time was found to be taken.
pub open spec fn found_taken<F: Fn(Timestamp) -> String>(
    name_at: F,
    taken: Seq<String>,
    nanos: int,
) -> bool {
    exists|t: Timestamp, name: String|
        t@ == nanos && #[trigger] call_ensures(name_at, (t,), name) && is_taken(taken, name@)
}

/// The number of whole seconds that make up `steps` of them.
pub open spec fn later(now: int, steps: nat) -> int {
    now + seconds(steps as int)
}

/// Whether a name is among those that are taken.
fn is_listed(taken: &Vec<String>, name: &String) -> (found: bool)
    ensures
        found == is_taken(taken@, name@),
{
    let mut i: usize = 0;
    while i < taken.len()
        invariant
            i <= taken@.len(),
            forall|k: int| 0 <= k < i ==> (#[trigger] taken@[k])@ != name@,
        decreases taken@.len() - i,
    {
        if text::same(taken[i].as_str(), name.as_str()) {
            assert(taken@[i as int]@ == name@);
            return true;
        }
        i += 1;
    }
    false
}

/// An archive name that is not already taken, and the point in time it names.
///
/// Names have one-second resolution, and an archive whose name exists already
/// cannot be created. A run that collides with an earlier one is dated to the
/// next free second instead.
///
/// There has to be a free second to find.
pub fn next_free_name<F: Fn(Timestamp) -> String>(
    now: Timestamp,
    taken: &Vec<String>,
    name_at: F,
) -> (free: (String, Timestamp))
    requires
        forall|t: Timestamp| #[trigger] call_requires(name_at, (t,)),
        exists|k: nat|
            #[trigger] later(now@, k) < end_of_time() && surely_free(name_at, taken@, later(now@, k)),
    ensures
        !is_taken(taken@, free.0@),
        call_ensures(name_at, (free.1,), free.0),
        exists|k: nat|
            {
                &&& free.1@ == #[trigger] later(now@, k)
                &&& forall|i: nat|
                    i < k ==> found_taken(name_at, taken@, #[trigger] later(now@, i))
            },
{
    let ghost last = choose|k: nat|
        #[trigger] later(now@, k) < end_of_time() && surely_free(name_at, taken@, later(now@, k));
    let ghost mut steps: nat = 0;
    let mut at = now;
    loop
        invariant
            forall|t: Timestamp| #[trigger] call_requires(name_at, (t,)),
            later(now@, last) < end_of_time(),
            surely_free(name_at, taken@, later(now@, last)),
            steps <= last,
            at@ == later(now@, steps),
            forall|i: nat| i < steps ==> found_taken(name_at, taken@, #[trigger] later(now@, i)),
        decreases last - steps,
    {
        let name = name_at(at);
        if !is_listed(taken, &name) {
            return (name, at);
        }
        proof {
            assert(found_taken(name_at, taken@, later(now@, steps)));
            assert(steps != last);
            assert(at@ < later(now@, (steps + 1) as nat) <= later(now@, last));
        }
        at = at.plus(Span::from_secs(1));
        proof {
            steps = steps + 1;
        }
    }
}

/// How many whole seconds it takes from a time before the epoch to reach it.
pub open spec fn seconds_to_epoch(now: int) -> int {
    if now < 0 {
        (-now + 999_999_999) / 1_000_000_000
    } else {
        0
    }
}

/// Whether the clock goes far enough for one more name than there are taken.
pub open spec fn clock_has_room(now: int, taken: nat) -> bool {
    later(now, (seconds_to_epoch(now) + taken) as nat) < end_of_time()
}

/// Once the epoch is reached, each second later is one more second since it.
proof fn lemma_seconds_count_on(now: int, k: int)
    requires
        k >= 0,
    ensures
        seconds_since_epoch(later(now, (seconds_to_epoch(now) + k) as nat)) == seconds_since_epoch(
            later(now, seconds_to_epoch(now) as nat),
        ) + k,
{
    let base = later(now, seconds_to_epoch(now) as nat);
    assert(base >= 0);
    assert(later(now, (seconds_to_epoch(now) + k) as nat) == base + k * 1_000_000_000);
}

/// Names with the same prefix differ when their seconds do.
proof fn lemma_dated_differ(prefix: Seq<char>, a: int, b: int)
    requires
        seconds_since_epoch(a) != seconds_since_epoch(b),
    ensures
        dated(prefix, a) != dated(prefix, b),
{
    let (s, t) = (seconds_since_epoch(a), seconds_since_epoch(b));
    calendar::every_moment_has_a_timestamp(s);
    calendar::every_moment_has_a_timestamp(t);
    calendar::timestamps_are_distinct_and_colon_free(s, t, timestamp(s), timestamp(t));
    if dated(prefix, a) == dated(prefix, b) {
        let n = prefix.len() as int;
        assert(dated(prefix, a).skip(n) =~= timestamp(s));
        assert(dated(prefix, b).skip(n) =~= timestamp(t));
    }
}

/// However many names are taken, one of as many seconds and one more is free.
pub proof fn some_second_is_free(prefix: Seq<char>, now: int, taken: Seq<String>)
    ensures
        exists|k: nat|
            {
                &&& k <= seconds_to_epoch(now) + taken.len()
                &&& !is_taken(taken, dated(prefix, #[trigger] later(now, k)))
            },
{
    let e = seconds_to_epoch(now);
    let n = taken.len();
    let names = Seq::new(n + 1, |i: int| dated(prefix, later(now, (e + i) as nat)));
    let others = taken.map_values(|s: String| s@);
    assert(names.no_duplicates()) by {
        assert forall|i: int, j: int| 0 <= i < n + 1 && 0 <= j < n + 1 && i != j implies names[i]
            != names[j] by {
            lemma_seconds_count_on(now, i);
            lemma_seconds_count_on(now, j);
            lemma_dated_differ(prefix, later(now, (e + i) as nat), later(now, (e + j) as nat));
        }
    }
    if forall|i: int| 0 <= i < n + 1 ==> is_taken(taken, #[trigger] names[i]) {
        names.unique_seq_to_set();
        others.lemma_cardinality_of_set();
        assert forall|x: Seq<char>| #[trigger] names.to_set().contains(x) implies others.to_set().contains(
            x,
        ) by {
            let i = choose|i: int| 0 <= i < names.len() && names[i] == x;
            assert(is_taken(taken, names[i]));
            let j = choose|j: int| 0 <= j < taken.len() && (#[trigger] taken[j])@ == names[i];
            assert(others[j] == x);
        }
        vstd::set_lib::lemma_len_subset(names.to_set(), others.to_set());
        assert(false);
    }
    let i = choose|i: int| 0 <= i < n + 1 && !is_taken(taken, #[trigger] names[i]);
    let k = (e + i) as nat;
    assert(!is_taken(taken, dated(prefix, later(now, k))));
}

/// Whether `name` is the first one from `now` on that is not taken, second by
/// second, and `at` the time it names.
pub open spec fn first_free(
    prefix: Seq<char>,
    now: int,
    taken: Seq<String>,
    name: Seq<char>,
    at: int,
) -> bool {
    exists|k: nat|
        {
            &&& at == #[trigger] later(now, k)
            &&& name == dated(prefix, at)
            &&& !is_taken(taken, name)
            &&& forall|i: nat| i < k ==> is_taken(taken, dated(prefix, #[trigger] later(now, i)))
        }
}

/// The name for a backup starting at `now` on `hostname`, and the time it is
/// dated to.
pub fn next_archive_name(hostname: &str, now: Timestamp, taken: &Vec<String>) -> (free: (
    String,
    Timestamp,
))
    requires
        clock_has_room(now@, taken@.len()),
    ensures
        first_free(backup_prefix(hostname@), now@, taken@, free.0@, free.1@),
{
    let ghost prefix = backup_prefix(hostname@);
    let name_at = |t: Timestamp| -> (name: String)
        ensures
            name@ == dated(backup_prefix(hostname@), t@),
        { archive_name(hostname, t) };
    proof {
        lemma_free_second(prefix, now@, taken@);
        let k = choose|k: nat|
            {
                &&& k <= seconds_to_epoch(now@) + taken@.len()
                &&& !is_taken(taken@, dated(prefix, #[trigger] later(now@, k)))
            };
        assert(surely_free(name_at, taken@, later(now@, k)));
    }
    let free = next_free_name(now, taken, name_at);
    proof {
        let k = choose|k: nat|
            {
                &&& free.1@ == #[trigger] later(now@, k)
                &&& forall|i: nat|
                    i < k ==> found_taken(name_at, taken@, #[trigger] later(now@, i))
            };
        assert(first_free(prefix, now@, taken@, free.0@, free.1@)) by {
            assert forall|i: nat| i < k implies is_taken(
                taken@,
                dated(prefix, #[trigger] later(now@, i)),
            ) by {
                assert(found_taken(name_at, taken@, later(now@, i)));
            }
        }
    }
    free
}

/// A free second that the clock can show.
proof fn lemma_free_second(prefix: Seq<char>, now: int, taken: Seq<String>)
    requires
        clock_has_room(now, taken.len()),
    ensures
        exists|k: nat|
            {
                &&& k <= seconds_to_epoch(now) + taken.len()
                &&& #[trigger] later(now, k) < end_of_time()
                &&& !is_taken(taken, dated(prefix, later(now, k)))
            },
{
    some_second_is_free(prefix, now, taken);
    let k = choose|k: nat|
        {
            &&& k <= seconds_to_epoch(now) + taken.len()
            &&& !is_taken(taken, dated(prefix, #[trigger] later(now, k)))
        };
    assert(later(now, k) <= later(now, (seconds_to_epoch(now) + taken.len()) as nat));
}

/// The name for a local snapshot taken at `now`, and the time it is dated to.
pub fn next_local_name(now: Timestamp, taken: &Vec<String>) -> (free: (String, Timestamp))
    requires
        clock_has_room(now@, taken@.len()),
    ensures
        first_free(crate::offline::local_prefix(), now@, taken@, free.0@, free.1@),
{
    let ghost prefix = crate::offline::local_prefix();
    let name_at = |t: Timestamp| -> (name: String)
        ensures
            name@ == dated(crate::offline::local_prefix(), t@),
        { crate::offline::local_archive_name(t) };
    proof {
        lemma_free_second(prefix, now@, taken@);
        let k = choose|k: nat|
            {
                &&& k <= seconds_to_epoch(now@) + taken@.len()
                &&& #[trigger] later(now@, k) < end_of_time()
                &&& !is_taken(taken@, dated(prefix, later(now@, k)))
            };
        assert(surely_free(name_at, taken@, later(now@, k)));
    }
    let free = next_free_name(now, taken, name_at);
    proof {
        let k = choose|k: nat|
            {
                &&& free.1@ == #[trigger] later(now@, k)
                &&& forall|i: nat|
                    i < k ==> found_taken(name_at, taken@, #[trigger] later(now@, i))
            };
        assert(first_free(prefix, now@, taken@, free.0@, free.1@)) by {
            assert forall|i: nat| i < k implies is_taken(
                taken@,
                dated(prefix, #[trigger] later(now@, i)),
            ) by {
                assert(found_taken(name_at, taken@, later(now@, i)));
            }
        }
    }
    free
}

/// Names with one prefix sort as the archives were taken, until the year 10000.
pub proof fn names_sort_chronologically(prefix: Seq<char>, earlier: int, after: int)
    requires
        seconds_since_epoch(earlier) < seconds_since_epoch(after) < calendar::five_digit_years(),
    ensures
        sorts_before(dated(prefix, earlier), dated(prefix, after)),
{
    let (s, t) = (seconds_since_epoch(earlier), seconds_since_epoch(after));
    calendar::every_moment_has_a_timestamp(s);
    calendar::every_moment_has_a_timestamp(t);
    calendar::timestamps_sort_chronologically(s, t, timestamp(s), timestamp(t));
    text::lemma_sorts_by_parts(prefix, prefix, timestamp(s), timestamp(t));
}

/// No archive name of this product holds a colon, whatever the machine is
/// called: a colon would be read as part of the reference to the archive.
pub proof fn names_hold_no_colon(hostname: Seq<char>, now: int)
    ensures
        !dated(backup_prefix(hostname), now).contains(':'),
        !dated(crate::offline::local_prefix(), now).contains(':'),
{
    reveal_strlit("bt-");
    reveal_strlit("-");
    reveal_strlit("bt-local-");
    reveal_strlit("unknown");
    let s = seconds_since_epoch(now);
    calendar::every_moment_has_a_timestamp(s);
    calendar::timestamps_are_distinct_and_colon_free(s, s, timestamp(s), timestamp(s));
    let cleaned = hostname.map_values(
        |c: char|
            if plain(c) {
                c
            } else {
                '-'
            },
    );
    text::lemma_trim_keeps(cleaned, '-');
    let host = sanitised(hostname);
    assert forall|i: int| 0 <= i < host.len() implies host[i] != ':' by {
        if trim(cleaned, '-').len() > 0 {
            assert(trim(cleaned, '-').contains(host[i]));
            let k = choose|k: int| 0 <= k < cleaned.len() && cleaned[k] == host[i];
            assert(plain(cleaned[k]));
        }
    }
    let name = dated(backup_prefix(hostname), now);
    assert forall|i: int| 0 <= i < name.len() implies name[i] != ':' by {
        if i >= 3 && i < 3 + host.len() {
            assert(name[i] == host[i - 3]);
        } else if i >= 4 + host.len() {
            assert(name[i] == timestamp(s)[i - 4 - host.len()]);
            assert(timestamp(s).contains(name[i]));
        }
    }
    let local = dated(crate::offline::local_prefix(), now);
    assert forall|i: int| 0 <= i < local.len() implies local[i] != ':' by {
        if i >= 9 {
            assert(local[i] == timestamp(s)[i - 9]);
            assert(timestamp(s).contains(local[i]));
        }
    }
}

/// The name of this machine, from what the system says of it: without white space
/// around it, and `unknown` where there is nothing.
pub fn hostname(said: Option<&str>) -> (name: String)
    ensures
        name@ == match said {
            Some(text) => {
                let trimmed = text::without_white_end(text::without_white_start(text@));
                if trimmed.len() > 0 {
                    trimmed
                } else {
                    "unknown"@
                }
            },
            None => "unknown"@,
        },
{
    match said {
        Some(text) => {
            let trimmed = text::trim_white(text);
            if trimmed.as_str().unicode_len() > 0 {
                trimmed
            } else {
                "unknown".to_owned()
            }
        },
        None => "unknown".to_owned(),
    }
}

/// A host name that is plain already, and has no dash at either end, stays what it
/// is; of any other, each character that is not plain becomes a dash, and the
/// dashes at both ends go.
pub proof fn a_plain_host_keeps_its_name(hostname: Seq<char>)
    ensures
        sanitised(hostname).len() > 0,
        forall|i: int|
            0 <= i < sanitised(hostname).len() ==> ({
                let c = #[trigger] sanitised(hostname)[i];
                ('a' <= c <= 'z') || ('A' <= c <= 'Z') || ('0' <= c <= '9') || c == '-'
            }),
        sanitised(hostname)[0] != '-',
        sanitised(hostname).last() != '-',
        hostname.len() > 0 && hostname[0] != '-' && hostname.last() != '-' && (forall|i: int|
            0 <= i < hostname.len() ==> ({
                let c = #[trigger] hostname[i];
                ('a' <= c <= 'z') || ('A' <= c <= 'Z') || ('0' <= c <= '9') || c == '-'
            })) ==> sanitised(hostname) == hostname,
{
    let cleaned = hostname.map_values(
        |c: char|
            if plain(c) {
                c
            } else {
                '-'
            },
    );
    reveal_strlit("unknown");
    let (from, to) = text::trimming_takes_only_that_character(cleaned, '-');
    let left = trim(cleaned, '-');
    let host = sanitised(hostname);
    assert forall|i: int| 0 <= i < host.len() implies plain(#[trigger] host[i]) by {
        if left.len() > 0 {
            assert(host[i] == cleaned[from + i]);
        }
    }
    assert forall|i: int| 0 <= i < host.len() implies ({
        let c = #[trigger] host[i];
        ('a' <= c <= 'z') || ('A' <= c <= 'Z') || ('0' <= c <= '9') || c == '-'
    }) by {
        assert(plain(host[i]));
    }
    if hostname.len() > 0 && hostname[0] != '-' && hostname.last() != '-' && (forall|i: int|
        0 <= i < hostname.len() ==> ({
            let c = #[trigger] hostname[i];
            ('a' <= c <= 'z') || ('A' <= c <= 'Z') || ('0' <= c <= '9') || c == '-'
        })) {
        assert forall|i: int| 0 <= i < hostname.len() implies cleaned[i] == #[trigger] hostname[i] by {
            assert(plain(hostname[i]));
        }
        assert(cleaned =~= hostname);
        assert(from == 0) by {
            if from > 0 {
                assert(cleaned[0] == '-');
            }
        }
        assert(to == hostname.len()) by {
            if to < hostname.len() {
                assert(cleaned[hostname.len() - 1] == '-');
            }
        }
        assert(left =~= hostname);
    }
}

/// Each character of a host name that is kept stands where it stood, and what is
/// not plain stands as a dash.
pub proof fn a_host_name_keeps_its_order(hostname: Seq<char>) -> (from: int)
    ensures
        0 <= from <= hostname.len(),
        sanitised(hostname) != "unknown"@ ==> from + sanitised(hostname).len() <= hostname.len()
            && forall|i: int|
            0 <= i < sanitised(hostname).len() ==> #[trigger] sanitised(hostname)[i] == if plain(
                hostname[from + i],
            ) {
                hostname[from + i]
            } else {
                '-'
            },
{
    let cleaned = hostname.map_values(
        |c: char|
            if plain(c) {
                c
            } else {
                '-'
            },
    );
    let (from, to) = text::trimming_takes_only_that_character(cleaned, '-');
    from
}

/// A free name is the first one from now on: it is not taken, it is dated a whole
/// number of seconds later, and every second before it is taken. Where this very
/// second is free, it is this one's.
pub proof fn a_free_name_is_the_first_one(
    prefix: Seq<char>,
    now: int,
    taken: Seq<String>,
    name: Seq<char>,
    at: int,
)
    requires
        first_free(prefix, now, taken, name, at),
    ensures
        forall|i: int| 0 <= i < taken.len() ==> (#[trigger] taken[i])@ != name,
        at >= now,
        (at - now) % 1_000_000_000 == 0,
        name == prefix + timestamp(seconds_since_epoch(at)),
        (forall|i: int| 0 <= i < taken.len() ==> (#[trigger] taken[i])@ != dated(prefix, now))
            ==> at == now && name == dated(prefix, now),
        forall|k: nat|
            now + k * 1_000_000_000 < at ==> is_taken(taken, dated(prefix, #[trigger] later(now, k))),
{
    let k = choose|k: nat|
        {
            &&& at == #[trigger] later(now, k)
            &&& name == dated(prefix, at)
            &&& !is_taken(taken, name)
            &&& forall|i: nat| i < k ==> is_taken(taken, dated(prefix, #[trigger] later(now, i)))
        };
    assert forall|i: int| 0 <= i < taken.len() implies (#[trigger] taken[i])@ != name by {
        if taken[i]@ == name {
            assert(is_taken(taken, name));
        }
    }
    assert(later(now, 0) == now);
    if k > 0 {
        assert(is_taken(taken, dated(prefix, later(now, 0))));
    }
}

/// There is one first free name.
pub proof fn there_is_one_first_free_name(
    prefix: Seq<char>,
    now: int,
    taken: Seq<String>,
    a: (Seq<char>, int),
    b: (Seq<char>, int),
)
    requires
        first_free(prefix, now, taken, a.0, a.1),
        first_free(prefix, now, taken, b.0, b.1),
    ensures
        a == b,
{
    let k = choose|k: nat|
        {
            &&& a.1 == #[trigger] later(now, k)
            &&& a.0 == dated(prefix, a.1)
            &&& !is_taken(taken, a.0)
            &&& forall|i: nat| i < k ==> is_taken(taken, dated(prefix, #[trigger] later(now, i)))
        };
    let m = choose|m: nat|
        {
            &&& b.1 == #[trigger] later(now, m)
            &&& b.0 == dated(prefix, b.1)
            &&& !is_taken(taken, b.0)
            &&& forall|i: nat| i < m ==> is_taken(taken, dated(prefix, #[trigger] later(now, i)))
        };
    assert(k == m);
}

/// A name says whose it is: it begins with the prefix, and a machine's backups
/// begin with the product's mark and the machine's name.
pub proof fn a_name_says_whose_it_is(hostname: Seq<char>, prefix: Seq<char>, now: int)
    ensures
        text::begins(dated(prefix, now), prefix),
        text::begins(backup_prefix(hostname), "bt-"@),
        backup_prefix(hostname) == "bt-"@ + sanitised(hostname) + "-"@,
{
    assert(dated(prefix, now).take(prefix.len() as int) =~= prefix);
    assert(backup_prefix(hostname).take("bt-"@.len() as int) =~= "bt-"@);
}

} // verus!
