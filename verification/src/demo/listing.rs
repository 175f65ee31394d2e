//! What the backup program prints, read back.

use vstd::prelude::*;

use crate::service::state::quote;
#[allow(unused_imports)]
use crate::service::state::quoted;
use crate::text;
#[allow(unused_imports)]
use crate::text::{begins, first_of, parsed_signed, split, views, without_white_end, without_white_start};

verus! {

/// An archive as the program lists it.
#[derive(Debug, PartialEq, Eq)]
pub struct Listed {
    pub name: String,
    pub id: String,
    /// When it was taken, in seconds since the epoch.
    pub ts: i64,
}

/// A listed archive as plain values: its name, its id and its time.
pub type Entry = (Seq<char>, Seq<char>, int);

/// A text without the carriage return it may end with.
pub open spec fn without_return(s: Seq<char>) -> Seq<char> {
    if s.len() > 0 && s.last() == '\r' {
        s.drop_last()
    } else {
        s
    }
}

/// The lines of a text. A line ends at a line feed, with or without a carriage
/// return before it; what follows the last line feed is a line if it is not empty.
pub open spec fn lines(s: Seq<char>) -> Seq<Seq<char>> {
    let parts = split(s, '\n');
    let ended = parts.drop_last().map_values(|p: Seq<char>| without_return(p));
    if parts.last().len() > 0 {
        ended.push(parts.last())
    } else {
        ended
    }
}

/// A text without the white space at either end.
pub open spec fn trimmed(s: Seq<char>) -> Seq<char> {
    without_white_end(without_white_start(s))
}

/// A text without the carriage returns and line feeds it ends with.
pub open spec fn without_ends(s: Seq<char>) -> Seq<char>
    decreases s.len(),
{
    if s.len() > 0 && (s.last() == '\r' || s.last() == '\n') {
        without_ends(s.drop_last())
    } else {
        s
    }
}

/// What one line says: an id, a time and a name, with tabs between them. The name
/// comes last because it is text somebody chose.
pub open spec fn entry_in(line: Seq<char>) -> Result<Entry, Seq<char>> {
    let k = first_of(line, '\t');
    if k >= line.len() {
        Err("archive without time"@)
    } else {
        let rest = line.skip(k + 1);
        let j = first_of(rest, '\t');
        match parsed_signed(trimmed(rest.take(j))) {
            None => Err("archive time is not an epoch: "@ + quoted(line)),
            Some(ts) => if j >= rest.len() {
                Err("archive without name"@)
            } else {
                Ok((without_ends(rest.skip(j + 1)), line.take(k), ts))
            },
        }
    }
}

/// What a listing says, line by line; the first line that says nothing spoils it.
pub open spec fn entries_in(all: Seq<Seq<char>>) -> Result<Seq<Entry>, Seq<char>>
    decreases all.len(),
{
    if all.len() == 0 {
        Ok(Seq::empty())
    } else {
        match entries_in(all.drop_last()) {
            Err(words) => Err(words),
            Ok(before) => if trimmed(all.last()).len() == 0 {
                Ok(before)
            } else {
                match entry_in(all.last()) {
                    Ok(entry) => Ok(before.push(entry)),
                    Err(words) => Err(words),
                }
            },
        }
    }
}

/// A row of listed archives, as plain values.
pub open spec fn told(archives: Seq<Listed>) -> Seq<Entry> {
    archives.map_values(|a: Listed| (a.name@, a.id@, a.ts as int))
}

/// What is said of a line, printed as `printed`, whose time is no time.
pub fn no_epoch(printed: &str) -> (words: String)
    ensures
        words@ == "archive time is not an epoch: "@ + printed@,
{
    text::joined("archive time is not an epoch: ", printed)
}

/// Read one line of a listing.
pub fn archive_in(line: &str) -> (read: Result<Listed, String>)
    ensures
        match read {
            Ok(a) => entry_in(line@) == Ok::<Entry, Seq<char>>((a.name@, a.id@, a.ts as int)),
            Err(words) => entry_in(line@) == Err::<Entry, Seq<char>>(words@),
        },
{
    let chars = text::to_chars(line);
    let n: usize = chars.len();
    assert(chars@.subrange(0, n as int) =~= line@);
    let k: usize = text::find_first(&chars, 0, n, '\t');
    if k >= n {
        return Err("archive without time".to_owned());
    }
    let id = text::from_chars(&chars, 0, k);
    assert(id@ =~= line@.take(k as int));
    let ghost rest = line@.skip(k + 1);
    assert(chars@.subrange(k + 1, n as int) =~= rest);
    let j: usize = text::find_first(&chars, k + 1, n, '\t');
    let time = text::from_chars(&chars, k + 1, k + 1 + j);
    assert(time@ =~= rest.take(j as int));
    let ts: i64 = match text::parse_signed(text::trim_white(time.as_str()).as_str()) {
        Some(ts) => ts,
        None => {
            return Err(no_epoch(quote(line).as_str()));
        },
    };
    if k + 1 + j >= n {
        return Err("archive without name".to_owned());
    }
    let from: usize = k + 1 + j + 1;
    let ghost name = rest.skip(j + 1);
    let mut to: usize = n;
    assert(chars@.subrange(from as int, to as int) =~= name);
    while to > from && (chars[to - 1] == '\r' || chars[to - 1] == '\n')
        invariant
            from <= to <= n == chars@.len(),
            without_ends(chars@.subrange(from as int, to as int)) == without_ends(name),
        decreases to,
    {
        assert(chars@.subrange(from as int, to as int).drop_last() =~= chars@.subrange(
            from as int,
            to - 1,
        ));
        to -= 1;
    }
    Ok(Listed { name: text::from_chars(&chars, from, to), id, ts })
}

/// The lines of a text.
pub fn lines_of(s: &str) -> (all: Vec<String>)
    ensures
        views(all@) == lines(s@),
{
    let parts = text::split_at_each(s, '\n');
    let n: usize = parts.len();
    let ghost pieces = split(s@, '\n');
    let ghost ended = pieces.drop_last().map_values(|p: Seq<char>| without_return(p));
    let mut all: Vec<String> = Vec::new();
    let mut i: usize = 0;
    assert(views(all@) =~= ended.take(0));
    while i < n - 1
        invariant
            i <= n - 1,
            n == parts@.len(),
            n > 0,
            pieces == views(parts@),
            ended == pieces.drop_last().map_values(|p: Seq<char>| without_return(p)),
            views(all@) == ended.take(i as int),
        decreases n - i,
    {
        let ghost before = all@;
        let chars = text::to_chars(parts[i].as_str());
        let size: usize = chars.len();
        let end: usize = if size > 0 && chars[size - 1] == '\r' {
            size - 1
        } else {
            size
        };
        all.push(text::from_chars(&chars, 0, end));
        proof {
            assert(pieces[i as int] == chars@);
            assert(all@.last()@ =~= without_return(pieces[i as int]));
            assert(ended[i as int] == without_return(pieces[i as int]));
            assert(views(all@) =~= views(before).push(all@.last()@));
            assert(views(all@) =~= ended.take(i + 1));
        }
        i += 1;
    }
    assert(ended.take(i as int) =~= ended);
    if parts[n - 1].as_str().unicode_len() > 0 {
        let ghost before = all@;
        all.push(parts[n - 1].clone());
        assert(views(all@) =~= views(before).push(pieces.last()));
    }
    all
}

/// Read a listing of archives.
pub fn list_archives(listing: &str) -> (read: Result<Vec<Listed>, String>)
    ensures
        match read {
            Ok(archives) => entries_in(lines(listing@)) == Ok::<Seq<Entry>, Seq<char>>(
                told(archives@),
            ),
            Err(words) => entries_in(lines(listing@)) == Err::<Seq<Entry>, Seq<char>>(words@),
        },
{
    let all = lines_of(listing);
    let ghost whole = lines(listing@);
    let mut archives: Vec<Listed> = Vec::new();
    let mut i: usize = 0;
    assert(told(archives@) =~= Seq::<Entry>::empty());
    while i < all.len()
        invariant
            i <= all@.len(),
            whole == views(all@),
            whole == lines(listing@),
            entries_in(whole.take(i as int)) == Ok::<Seq<Entry>, Seq<char>>(told(archives@)),
        decreases all@.len() - i,
    {
        let ghost before = archives@;
        proof {
            let next = whole.take(i + 1);
            assert(next.drop_last() =~= whole.take(i as int));
            assert(next.last() == all@[i as int]@);
        }
        if text::trim_white(all[i].as_str()).as_str().unicode_len() > 0 {
            match archive_in(all[i].as_str()) {
                Ok(archive) => {
                    archives.push(archive);
                    assert(told(archives@) =~= told(before).push(
                        (archive.name@, archive.id@, archive.ts as int),
                    ));
                },
                Err(words) => {
                    proof {
                        lemma_spoiled(whole, i + 1);
                    }
                    return Err(words);
                },
            }
        }
        i += 1;
    }
    assert(whole.take(i as int) =~= whole);
    Ok(archives)
}

/// A listing that is spoiled stays so, whatever follows.
proof fn lemma_spoiled(all: Seq<Seq<char>>, k: int)
    requires
        0 <= k <= all.len(),
        entries_in(all.take(k)) is Err,
    ensures
        entries_in(all) == entries_in(all.take(k)),
    decreases all.len(),
{
    if k == all.len() {
        assert(all.take(k) =~= all);
    } else {
        assert(all.drop_last().take(k) =~= all.take(k));
        lemma_spoiled(all.drop_last(), k);
    }
}

/// The moment at which the program's clock is measured: an arbitrary one, far from
/// any boundary that could round.
pub const PROBE: i64 = 1_600_000_000;

/// How far the time that the program was told is from the one it then reports:
/// `reported` are the archives it lists once one has been taken at [`PROBE`].
pub fn calibrate(reported: &Vec<Listed>) -> (skew: Result<i64, String>)
    requires
        first_named(reported@, "bt-calibration"@) matches Some(ts) ==> ts >= i64::MIN
            + 1_600_000_000,
    ensures
        match first_named(reported@, "bt-calibration"@) {
            Some(ts) => skew matches Ok(s) && s == ts - 1_600_000_000,
            None => skew matches Err(words) && words@
                == "the calibration archive did not come back from borg list"@,
        },
{
    let mut i: usize = 0;
    assert(reported@.skip(0) =~= reported@);
    while i < reported.len()
        invariant
            i <= reported@.len(),
            first_named(reported@, "bt-calibration"@) matches Some(ts) ==> ts >= i64::MIN
                + 1_600_000_000,
            first_named(reported@.skip(i as int), "bt-calibration"@) == first_named(
                reported@,
                "bt-calibration"@,
            ),
        decreases reported@.len() - i,
    {
        proof {
            let rest = reported@.skip(i as int);
            assert(rest[0] == reported@[i as int]);
            assert(rest.drop_first() =~= reported@.skip(i + 1));
        }
        if text::same(reported[i].name.as_str(), "bt-calibration") {
            return Ok(reported[i].ts - PROBE);
        }
        i += 1;
    }
    Err("the calibration archive did not come back from borg list".to_owned())
}

/// The time of the first archive with a name.
pub open spec fn first_named(archives: Seq<Listed>, name: Seq<char>) -> Option<i64>
    decreases archives.len(),
{
    if archives.len() == 0 {
        None
    } else if archives[0].name@ == name {
        Some(archives[0].ts)
    } else {
        first_named(archives.drop_first(), name)
    }
}

/// Whether a text occurs in another.
pub open spec fn occurs(part: Seq<char>, s: Seq<char>) -> bool {
    exists|k: int| 0 <= k <= s.len() && begins(#[trigger] s.skip(k), part)
}

/// Whether the bus says that the daemon's name has an owner.
pub fn daemon_is_running(answer: &str) -> (running: bool)
    ensures
        running == occurs("true"@, answer@),
{
    let chars = text::to_chars(answer);
    let n: usize = chars.len();
    proof {
        reveal_strlit("true");
        assert("true"@ =~= seq!['t', 'r', 'u', 'e']);
    }
    let mut k: usize = 0;
    while k < n
        invariant
            k <= n == chars@.len(),
            chars@ == answer@,
            "true"@ == seq!['t', 'r', 'u', 'e'],
            forall|j: int| 0 <= j < k ==> !begins(#[trigger] answer@.skip(j), "true"@),
        decreases n - k,
    {
        let ghost rest = answer@.skip(k as int);
        if n - k >= 4 && chars[k] == 't' && chars[k + 1] == 'r' && chars[k + 2] == 'u' && chars[k + 3]
            == 'e' {
            proof {
                assert(rest.take(4) =~= "true"@);
                assert(begins(answer@.skip(k as int), "true"@));
            }
            return true;
        }
        proof {
            if begins(rest, "true"@) {
                let t = rest.take(4);
                assert(t[0] == 't' && t[1] == 'r' && t[2] == 'u' && t[3] == 'e');
                assert(rest[0] == t[0] && rest[1] == t[1] && rest[2] == t[2] && rest[3] == t[3]);
            }
        }
        k += 1;
    }
    proof {
        assert forall|j: int| 0 <= j <= answer@.len() implies !begins(
            #[trigger] answer@.skip(j),
            "true"@,
        ) by {
            if j == answer@.len() {
                assert(answer@.skip(j).len() == 0);
            }
        }
    }
    false
}

/// What to say to somebody who would rebuild the catalogue under a running daemon.
pub fn refusal(bus_name: &str) -> (words: String)
    ensures
        words@ == "a Backtrack daemon is running on "@ + bus_name@
            + " and holds the index this would rebuild.\nStop it first, then re-run:\n  systemctl --user stop backtrackd.service\n  pkill backtrackd"@,
{
    let mut words = text::joined("a Backtrack daemon is running on ", bus_name);
    words.append(
        " and holds the index this would rebuild.\nStop it first, then re-run:\n  systemctl --user stop backtrackd.service\n  pkill backtrackd",
    );
    words
}

/// Whether a folder, listed as it was at a snapshot, shows that the client folder
/// was deleted later: the names in it, and whether each was.
pub fn old_client_deleted(entries: &Vec<(String, bool)>) -> (deleted: bool)
    ensures
        deleted == exists|i: int|
            0 <= i < entries@.len() && (#[trigger] entries@[i]).0@ == "old-client-folder"@
                && entries@[i].1,
{
    let mut i: usize = 0;
    while i < entries.len()
        invariant
            i <= entries@.len(),
            forall|k: int|
                0 <= k < i ==> !((#[trigger] entries@[k]).0@ == "old-client-folder"@
                    && entries@[k].1),
        decreases entries@.len() - i,
    {
        if entries[i].1 && text::same(entries[i].0.as_str(), "old-client-folder") {
            assert(entries@[i as int].0@ == "old-client-folder"@);
            return true;
        }
        i += 1;
    }
    false
}

/// A line ends at a line feed, with or without a carriage return before it; and what
/// follows the last line feed is a line if it is anything at all.
pub proof fn a_line_ends_at_a_line_feed(line: Seq<char>, rest: Seq<char>)
    requires
        !line.contains('\n'),
    ensures
        lines(line + seq!['\n'] + rest) == seq![
            if line.len() > 0 && line.last() == '\r' {
                line.drop_last()
            } else {
                line
            },
        ] + lines(rest),
        line.len() > 0 ==> lines(line) == seq![line],
        lines(Seq::<char>::empty()) == Seq::<Seq<char>>::empty(),
{
    let whole = line + seq!['\n'] + rest;
    let n = line.len() as int;
    text::lemma_first_of(whole, '\n');
    assert(whole[n] == '\n');
    assert forall|i: int| 0 <= i < n implies whole[i] != '\n' by {
        assert(whole[i] == line[i]);
    }
    assert(first_of(whole, '\n') == n);
    assert(whole.take(n) =~= line);
    assert(whole.skip(n + 1) =~= rest);
    let parts = split(rest, '\n');
    text::splitting_loses_nothing(rest, '\n');
    assert(split(whole, '\n') =~= seq![line] + parts);
    assert(split(whole, '\n').drop_last() =~= seq![line] + parts.drop_last());
    assert(split(whole, '\n').last() == parts.last());
    let back = |p: Seq<char>| without_return(p);
    assert((seq![line] + parts.drop_last()).map_values(back) =~= seq![without_return(line)]
        + parts.drop_last().map_values(back));
    assert(lines(whole) =~= seq![without_return(line)] + lines(rest));
    text::lemma_first_of(line, '\n');
    assert(split(line, '\n') =~= seq![line]);
    assert(seq![line].drop_last().map_values(back) =~= Seq::<Seq<char>>::empty());
    assert(lines(line) =~= if line.len() > 0 {
        seq![line]
    } else {
        Seq::empty()
    });
    let none = Seq::<char>::empty();
    assert(split(none, '\n') =~= seq![none]);
    assert(seq![none].drop_last().map_values(back) =~= Seq::<Seq<char>>::empty());
}

/// A line that is written as an id, a time and a name with tabs between them is read
/// back as those, whatever tabs the name has.
pub proof fn an_archive_is_read_back(id: Seq<char>, ts: nat, name: Seq<char>)
    requires
        !id.contains('\t'),
        ts <= i64::MAX,
        name.len() > 0 ==> name.last() != '\r' && name.last() != '\n',
    ensures
        entry_in(id + seq!['\t'] + text::decimal(ts) + seq!['\t'] + name) == Ok::<Entry, Seq<char>>(
            (name, id, ts as int),
        ),
{
    let time = text::decimal(ts);
    text::lemma_decimal_reads_back(ts);
    let line = id + seq!['\t'] + time + seq!['\t'] + name;
    let n = id.len() as int;
    text::lemma_first_of(line, '\t');
    assert(line[n] == '\t');
    assert forall|i: int| 0 <= i < n implies line[i] != '\t' by {
        assert(line[i] == id[i]);
    }
    assert(first_of(line, '\t') == n);
    assert(line.take(n) =~= id);
    let rest = line.skip(n + 1);
    assert(rest =~= time + seq!['\t'] + name);
    text::lemma_first_of(rest, '\t');
    let m = time.len() as int;
    assert(rest[m] == '\t');
    assert forall|i: int| 0 <= i < m implies rest[i] != '\t' by {
        assert(rest[i] == time[i]);
        assert('0' <= time[i] <= '9');
    }
    assert(first_of(rest, '\t') == m);
    assert(rest.take(m) =~= time);
    assert('0' <= time[0] <= '9' && '0' <= time[m - 1] <= '9');
    assert(without_white_start(time) == time);
    assert(without_white_end(time) == time);
    text::a_negative_number_is_read_back(ts);
    assert(rest.skip(m + 1) =~= name);
}

/// A listing is read line by line: blank lines say nothing, each of the others is an
/// archive, in order, and the first that is none is what is reported.
pub proof fn a_listing_is_read_line_by_line(all: Seq<Seq<char>>, line: Seq<char>)
    ensures
        entries_in(Seq::empty()) == Ok::<Seq<Entry>, Seq<char>>(Seq::empty()),
        entries_in(all) matches Err(words) ==> entries_in(all.push(line)) == Err::<
            Seq<Entry>,
            Seq<char>,
        >(words),
        entries_in(all) matches Ok(before) ==> {
            &&& trimmed(line).len() == 0 ==> entries_in(all.push(line)) == Ok::<
                Seq<Entry>,
                Seq<char>,
            >(before)
            &&& trimmed(line).len() > 0 ==> (entry_in(line) matches Ok(entry) ==> entries_in(
                all.push(line),
            ) == Ok::<Seq<Entry>, Seq<char>>(before.push(entry)))
            &&& trimmed(line).len() > 0 ==> (entry_in(line) matches Err(words) ==> entries_in(
                all.push(line),
            ) == Err::<Seq<Entry>, Seq<char>>(words))
        },
{
    assert(all.push(line).drop_last() =~= all);
}

/// The time of a name is that of the first archive that has it.
pub proof fn the_first_of_a_name_counts(archives: Seq<Listed>, name: Seq<char>, k: int)
    requires
        0 <= k <= archives.len(),
        forall|i: int| 0 <= i < k ==> (#[trigger] archives[i]).name@ != name,
        k < archives.len() ==> archives[k].name@ == name,
    ensures
        first_named(archives, name) == if k < archives.len() {
            Some(archives[k].ts)
        } else {
            None
        },
    decreases archives.len(),
{
    if k > 0 {
        assert(archives[0].name@ != name);
        let rest = archives.drop_first();
        assert forall|i: int| 0 <= i < k - 1 implies (#[trigger] rest[i]).name@ != name by {
            assert(rest[i] == archives[i + 1]);
        }
        the_first_of_a_name_counts(rest, name, k - 1);
    }
}

} // verus!
