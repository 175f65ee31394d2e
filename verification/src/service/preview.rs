//! The cache of extracted files behind previews.
//!
//! Extracting a file is slow enough that doing it twice for the same file is
//! unacceptable, so extractions are kept on disk, up to a ceiling, and the least
//! recently used go first. Entries are keyed by archive and path. An archive
//! never changes once written, so a hit can never be stale and there is nothing
//! to invalidate.

use std::collections::hash_map::DefaultHasher;
use std::hash::{Hash, Hasher};

use vstd::prelude::*;
#[allow(unused_imports)]
use vstd::std_specs::hash::DefaultHasherAdditionalSpecFns;

use crate::engine::EngineError;
#[allow(unused_imports)]
use crate::engine::unclassified_as;
use crate::paths;
use crate::service::error::DaemonError;
#[allow(unused_imports)]
use crate::service::error::engine_variant;
use crate::text;
use crate::time::Timestamp;

verus! {

/// The cache ceiling: 1 GiB.
pub const CAPACITY_BYTES: u64 = 1_073_741_824;

/// The character for one hexadecimal digit.
pub open spec fn hex_digit(d: int) -> char {
    if d < 10 {
        (48 + d) as char
    } else {
        (87 + d) as char
    }
}

/// The last `width` hexadecimal digits of a number, in lower case.
pub open spec fn hex(n: nat, width: nat) -> Seq<char>
    decreases width,
{
    if width == 0 {
        Seq::empty()
    } else {
        hex(n / 16, (width - 1) as nat).push(hex_digit((n % 16) as int))
    }
}

/// There are as many digits as were asked for.
proof fn lemma_hex_len(n: nat, width: nat)
    ensures
        hex(n, width).len() == width,
    decreases width,
{
    if width > 0 {
        lemma_hex_len(n / 16, (width - 1) as nat);
    }
}

/// The last `width` hexadecimal digits of a number, in lower case.
fn hex_text(n: u64, width: usize) -> (s: String)
    ensures
        s@ == hex(n as nat, width as nat),
    decreases width,
{
    if width == 0 {
        let s = String::new();
        assert(s@ =~= Seq::<char>::empty());
        return s;
    }
    let mut s = hex_text(n / 16, width - 1);
    let d: u8 = (n % 16) as u8;
    s.push(if d < 10 { (48u8 + d) as char } else { (87u8 + d) as char });
    s
}

/// What hashing a text writes into a hasher, as the standard library defines it.
pub uninterp spec fn fed(text: Seq<char>) -> Seq<Seq<u8>>;

/// `<str as Hash>::hash` of the standard library: writes the text into the
/// hasher, the same for the same text, after what was written before.
#[verifier::external_body]
fn feed(hasher: &mut DefaultHasher, text: &str)
    ensures
        final(hasher)@ == old(hasher)@ + fed(text@),
{
    text.hash(hasher)
}

/// What hashing a byte writes into a hasher, as the standard library defines it.
pub uninterp spec fn fed_byte(byte: u8) -> Seq<Seq<u8>>;

/// `<u8 as Hash>::hash` of the standard library: writes the byte into the hasher,
/// the same for the same byte, after what was written before.
#[verifier::external_body]
fn feed_byte(hasher: &mut DefaultHasher, byte: u8)
    ensures
        final(hasher)@ == old(hasher)@ + fed_byte(byte),
{
    byte.hash(hasher)
}

/// The key of a path in an archive. A separator is hashed between the two, so that
/// what is hashed is not the same once a character moves from one to the other.
pub open spec fn key(archive: Seq<char>, path: Seq<char>) -> u64 {
    DefaultHasher::spec_finish(fed(archive) + fed_byte(0) + fed(path))
}

/// An on-disk, size-capped cache of extracted files.
#[derive(Debug)]
pub struct PreviewCache {
    dir: String,
    capacity: u64,
}

/// A file of the cache.
#[derive(Debug, PartialEq, Eq)]
pub struct CacheEntry {
    pub path: String,
    pub size: u64,
    /// When it was last used.
    pub used: Timestamp,
}

/// What the cache's directory holds under one name.
#[derive(Debug, PartialEq, Eq)]
pub struct Found {
    pub path: String,
    /// Whether it is a file, its size and when it was last modified; `None` where
    /// that could not be read.
    pub meta: Option<Meta>,
}

/// What is known of a file.
#[derive(Debug, Clone, Copy, PartialEq, Eq)]
pub struct Meta {
    pub is_file: bool,
    pub size: u64,
    pub modified: Option<Timestamp>,
}

/// Whether a cache entry is what a found file amounts to.
pub open spec fn is_entry_of(entry: CacheEntry, found: Found) -> bool {
    &&& found.meta is Some
    &&& found.meta->0.is_file
    &&& entry.path@ == found.path@
    &&& entry.size == found.meta->0.size
    &&& entry.used@ == match found.meta->0.modified {
        Some(at) => at@,
        None => 0,
    }
}

/// Whether `entries` are the files among what was found, in the same order.
pub open spec fn are_entries_of(entries: Seq<CacheEntry>, found: Seq<Found>) -> bool
    decreases found.len(),
{
    if found.len() == 0 {
        entries.len() == 0
    } else if found.last().meta is Some && found.last().meta->0.is_file {
        &&& entries.len() > 0
        &&& is_entry_of(entries.last(), found.last())
        &&& are_entries_of(entries.drop_last(), found.drop_last())
    } else {
        are_entries_of(entries, found.drop_last())
    }
}

/// The files among what the directory holds. What cannot be read is passed over,
/// and a file without a time counts as never used.
pub fn entries_of(found: &Vec<Found>) -> (entries: Vec<CacheEntry>)
    ensures
        are_entries_of(entries@, found@),
{
    let mut entries: Vec<CacheEntry> = Vec::new();
    let mut i: usize = 0;
    while i < found.len()
        invariant
            i <= found@.len(),
            are_entries_of(entries@, found@.take(i as int)),
        decreases found@.len() - i,
    {
        let ghost before = entries@;
        proof {
            assert(found@.take(i + 1).drop_last() =~= found@.take(i as int));
            assert(found@.take(i + 1).last() == found@[i as int]);
        }
        match found[i].meta {
            Some(meta) => {
                if meta.is_file {
                    let used = match meta.modified {
                        Some(at) => at,
                        None => Timestamp::from_secs(0),
                    };
                    entries.push(CacheEntry { path: found[i].path.clone(), size: meta.size, used });
                    assert(entries@.drop_last() =~= before);
                }
            },
            None => {},
        }
        i += 1;
    }
    assert(found@.take(i as int) =~= found@);
    entries
}

/// The bytes of some entries together.
pub open spec fn weight(entries: Seq<CacheEntry>) -> int
    decreases entries.len(),
{
    if entries.len() == 0 {
        0
    } else {
        weight(entries.drop_last()) + entries.last().size
    }
}

/// Entries weigh nothing or more, and a `u128` can say how much.
proof fn lemma_weight(entries: Seq<CacheEntry>)
    ensures
        0 <= weight(entries) <= entries.len() * u64::MAX,
    decreases entries.len(),
{
    if entries.len() > 0 {
        lemma_weight(entries.drop_last());
        assert(entries.len() * u64::MAX == (entries.len() - 1) * u64::MAX + u64::MAX)
            by (nonlinear_arith)
            requires
                entries.len() > 0,
        ;
    }
}

/// The weight of a row of entries is that of its parts.
proof fn lemma_weight_parts(entries: Seq<CacheEntry>, k: int)
    requires
        0 <= k <= entries.len(),
    ensures
        weight(entries) == weight(entries.take(k)) + weight(entries.skip(k)),
    decreases entries.len(),
{
    if k == entries.len() {
        assert(entries.take(k) =~= entries);
        assert(entries.skip(k).len() == 0);
    } else {
        lemma_weight_parts(entries.drop_last(), k);
        assert(entries.drop_last().take(k) =~= entries.take(k));
        assert(entries.drop_last().skip(k) =~= entries.skip(k).drop_last());
    }
}

/// Where an entry goes among entries in order of use: behind all that were used
/// no later.
pub open spec fn place_by_use(sorted: Seq<CacheEntry>, used: int) -> int
    decreases sorted.len(),
{
    if sorted.len() == 0 {
        0
    } else if sorted.last().used@ <= used {
        sorted.len() as int
    } else {
        place_by_use(sorted.drop_last(), used)
    }
}

/// Entries in order of use, the least recently used first; those used at one
/// moment keep their order.
pub open spec fn by_use(entries: Seq<CacheEntry>) -> Seq<CacheEntry>
    decreases entries.len(),
{
    if entries.len() == 0 {
        entries
    } else {
        let sorted = by_use(entries.drop_last());
        let last = entries.last();
        sorted.insert(place_by_use(sorted, last.used@), last)
    }
}

/// Whether entries are in order of use.
pub open spec fn in_order_of_use(entries: Seq<CacheEntry>) -> bool {
    forall|i: int, j: int|
        0 <= i <= j < entries.len() ==> (#[trigger] entries[i]).used@ <= (
        #[trigger] entries[j]).used@
}

proof fn lemma_place_by_use(sorted: Seq<CacheEntry>, used: int)
    requires
        in_order_of_use(sorted),
    ensures
        0 <= place_by_use(sorted, used) <= sorted.len(),
        forall|i: int|
            0 <= i < place_by_use(sorted, used) ==> (#[trigger] sorted[i]).used@ <= used,
        forall|i: int|
            place_by_use(sorted, used) <= i < sorted.len() ==> (#[trigger] sorted[i]).used@ > used,
    decreases sorted.len(),
{
    if sorted.len() > 0 {
        if sorted.last().used@ <= used {
            assert forall|i: int| 0 <= i < sorted.len() implies (#[trigger] sorted[i]).used@
                <= used by {
                assert(sorted[i].used@ <= sorted[sorted.len() - 1].used@);
            }
        } else {
            let rest = sorted.drop_last();
            assert(in_order_of_use(rest)) by {
                assert forall|i: int, j: int| 0 <= i <= j < rest.len() implies (
                #[trigger] rest[i]).used@ <= (#[trigger] rest[j]).used@ by {
                    assert(sorted[i].used@ <= sorted[j].used@);
                }
            }
            lemma_place_by_use(rest, used);
            assert forall|i: int| place_by_use(sorted, used) <= i < sorted.len() implies (
            #[trigger] sorted[i]).used@ > used by {
                if i < rest.len() {
                    assert(rest[i].used@ > used);
                }
            }
            assert forall|i: int| 0 <= i < place_by_use(sorted, used) implies (
            #[trigger] sorted[i]).used@ <= used by {
                assert(rest[i].used@ <= used);
            }
        }
    }
}

/// Ordering by use loses nothing, adds nothing and orders.
pub proof fn ordering_by_use_keeps_the_entries(entries: Seq<CacheEntry>)
    ensures
        in_order_of_use(by_use(entries)),
        by_use(entries).to_multiset() == entries.to_multiset(),
        by_use(entries).len() == entries.len(),
        weight(by_use(entries)) == weight(entries),
    decreases entries.len(),
{
    if entries.len() > 0 {
        let front = entries.drop_last();
        let last = entries.last();
        ordering_by_use_keeps_the_entries(front);
        let sorted = by_use(front);
        let at = place_by_use(sorted, last.used@);
        lemma_place_by_use(sorted, last.used@);
        let all = sorted.insert(at, last);
        assert forall|i: int, j: int| 0 <= i <= j < all.len() implies (#[trigger] all[i]).used@ <= (
        #[trigger] all[j]).used@ by {
            let si = if i < at { i } else { i - 1 };
            let sj = if j < at { j } else { j - 1 };
            if i != at && j != at {
                assert(sorted[si].used@ <= sorted[sj].used@);
            }
        }
        vstd::seq_lib::to_multiset_insert(sorted, at, last);
        vstd::seq_lib::to_multiset_build(front, last);
        assert(front.push(last) =~= entries);
        lemma_weight_parts(all, at);
        lemma_weight_parts(sorted, at);
        assert(all.take(at) =~= sorted.take(at));
        lemma_weight_parts(all.skip(at), 1);
        assert(all.skip(at).skip(1) =~= sorted.skip(at));
        let one = all.skip(at).take(1);
        assert(one.len() == 1 && one.last() == last);
        assert(one.drop_last().len() == 0);
        assert(weight(one.drop_last()) == 0);
        assert(weight(one) == last.size);
    }
}

impl PreviewCache {
    /// The directory of the cache.
    pub closed spec fn dir(self) -> Seq<char> {
        self.dir@
    }

    /// How many bytes it may hold.
    pub closed spec fn capacity(self) -> int {
        self.capacity as int
    }

    /// A cache rooted at `dir`, holding at most [`CAPACITY_BYTES`].
    pub fn new(dir: String) -> (cache: PreviewCache)
        ensures
            cache.dir() == dir@,
            cache.capacity() == 1_073_741_824,
    {
        PreviewCache { dir, capacity: CAPACITY_BYTES }
    }

    /// A cache with a ceiling of its own.
    pub fn with_capacity(dir: String, capacity: u64) -> (cache: PreviewCache)
        ensures
            cache.dir() == dir@,
            cache.capacity() == capacity,
    {
        PreviewCache { dir, capacity }
    }

    /// The path of the entry for a path in an archive.
    pub open spec fn entry(self, archive: Seq<char>, path: Seq<char>) -> Seq<char> {
        paths::after(self.dir(), hex(key(archive, path) as nat, 16))
    }

    /// The path under which an extraction is written.
    pub open spec fn partial(self, archive: Seq<char>, path: Seq<char>) -> Seq<char> {
        self.entry(archive, path) + ".partial"@
    }

    /// Where the extraction of `path` from `archive` lives, hit or miss.
    ///
    /// The name is a hash and not the path: paths are arbitrarily long and hold
    /// separators.
    pub fn entry_path(&self, archive: &str, path: &str) -> (entry: String)
        ensures
            entry@ == self.entry(archive@, path@),
            entry@ == paths::after(
                self.dir(),
                hex(
                    DefaultHasher::spec_finish(fed(archive@) + fed_byte(0) + fed(path@)) as nat,
                    16,
                ),
            ),
    {
        let mut hasher = DefaultHasher::new();
        feed(&mut hasher, archive);
        feed_byte(&mut hasher, 0);
        feed(&mut hasher, path);
        proof {
            assert(Seq::<Seq<u8>>::empty() + fed(archive@) =~= fed(archive@));
        }
        self.entry_under(hasher.finish())
    }

    /// Where the entry with a key is kept.
    pub fn entry_under(&self, key: u64) -> (entry: String)
        ensures
            entry@ == paths::after(self.dir(), hex(key as nat, 16)),
    {
        let name = hex_text(key, 16);
        paths::join(self.dir.as_str(), name.as_str())
    }

    /// Where an extraction is written before it is renamed into place.
    pub fn staging_path(&self, archive: &str, path: &str) -> (staging: String)
        ensures
            staging@ == self.partial(archive@, path@),
            staging@ == self.entry(archive@, path@) + ".partial"@,
    {
        text::joined(self.entry_path(archive, path).as_str(), ".partial")
    }

    /// The bytes the cache holds; none where its directory cannot be read.
    pub fn size_bytes(&self, scanned: Option<&Vec<CacheEntry>>) -> (size: u128)
        ensures
            size == match scanned {
                Some(entries) => weight(entries@),
                None => 0,
            },
    {
        match scanned {
            Some(entries) => total(entries),
            None => 0,
        }
    }

    /// What has to go for the cache to fit its ceiling.
    pub fn evict_to_fit(&self, scanned: Option<Vec<CacheEntry>>) -> (eviction: Eviction)
        ensures
            eviction.capacity() == self.capacity(),
            eviction.tried() == 0,
            eviction.gone() == 0,
            eviction.entries() == match scanned {
                Some(entries) => by_use(entries@),
                None => Seq::empty(),
            },
            eviction.wf(),
    {
        let entries = match scanned {
            Some(entries) => entries,
            None => Vec::new(),
        };
        assert(by_use(Seq::<CacheEntry>::empty()) =~= Seq::<CacheEntry>::empty());
        let ghost all = entries@;
        let total: u128 = total(&entries);
        let sorted = sort_by_use(entries);
        proof {
            ordering_by_use_keeps_the_entries(all);
        }
        Eviction { entries: sorted, tried: 0, gone: Ghost(0), total, capacity: self.capacity }
    }
}

/// The bytes of some entries together.
fn total(entries: &Vec<CacheEntry>) -> (sum: u128)
    ensures
        sum == weight(entries@),
{
    let n: usize = entries.len();
    let mut sum: u128 = 0;
    let mut i: usize = 0;
    assert(weight(entries@.take(0)) == 0);
    while i < n
        invariant
            i <= n == entries@.len(),
            sum == weight(entries@.take(i as int)),
        decreases n - i,
    {
        proof {
            let next = entries@.take(i + 1);
            assert(next.drop_last() =~= entries@.take(i as int));
            lemma_weight(next);
            assert(next.len() * u64::MAX <= u64::MAX * u64::MAX) by (nonlinear_arith)
                requires
                    next.len() <= u64::MAX,
            ;
        }
        sum += entries[i].size as u128;
        i += 1;
    }
    assert(entries@.take(i as int) =~= entries@);
    sum
}

/// Entries in order of use, the least recently used first.
fn sort_by_use(entries: Vec<CacheEntry>) -> (sorted: Vec<CacheEntry>)
    ensures
        sorted@ == by_use(entries@),
{
    let mut rest = entries;
    let mut front: Vec<CacheEntry> = Vec::new();
    // Take from the end, so that what is put in comes in the first order.
    let ghost all = rest@;
    while rest.len() > 0
        invariant
            all == rest@ + front@.reverse(),
        decreases rest@.len(),
    {
        let ghost before = front@;
        match rest.pop() {
            Some(entry) => {
                front.push(entry);
                assert(front@.reverse() =~= seq![entry] + before.reverse());
            },
            None => {},
        }
        assert(all =~= rest@ + front@.reverse());
    }
    let mut sorted: Vec<CacheEntry> = Vec::new();
    assert(all =~= front@.reverse());
    assert(by_use(all.take(0)) =~= Seq::<CacheEntry>::empty());
    let n: usize = front.len();
    let mut done: usize = 0;
    while done < n
        invariant
            done <= n == all.len(),
            front@.len() == n - done,
            front@.reverse() == all.skip(done as int),
            sorted@ == by_use(all.take(done as int)),
        decreases n - done,
    {
        proof {
            assert(front@.reverse()[0] == all[done as int]);
            assert(front@.last() == all[done as int]);
            assert(all.take(done + 1).drop_last() =~= all.take(done as int));
            ordering_by_use_keeps_the_entries(all.take(done as int));
            lemma_place_by_use(sorted@, all[done as int].used@);
        }
        let ghost before = front@;
        match front.pop() {
            Some(entry) => {
                let at: usize = find_place(&sorted, entry.used);
                sorted.insert(at, entry);
            },
            None => {},
        }
        done += 1;
        assert(front@.reverse() =~= all.skip(done as int)) by {
            assert(before.reverse() =~= seq![before.last()] + front@.reverse());
            assert(all.skip(done - 1).skip(1) =~= all.skip(done as int));
            assert(before.reverse().skip(1) =~= front@.reverse());
        }
    }
    assert(all.take(done as int) =~= all);
    sorted
}

/// Where an entry goes among entries in order of use.
fn find_place(sorted: &Vec<CacheEntry>, used: Timestamp) -> (at: usize)
    ensures
        at == place_by_use(sorted@, used@),
        at <= sorted@.len(),
{
    let mut at: usize = sorted.len();
    assert(sorted@.take(at as int) =~= sorted@);
    while at > 0 && used.is_before(sorted[at - 1].used)
        invariant
            at <= sorted@.len(),
            place_by_use(sorted@.take(at as int), used@) == place_by_use(sorted@, used@),
        decreases at,
    {
        assert(sorted@.take(at as int).drop_last() =~= sorted@.take(at - 1));
        assert(sorted@.take(at as int).last() == sorted@[at - 1]);
        at -= 1;
    }
    proof {
        if at > 0 {
            assert(sorted@.take(at as int).last() == sorted@[at - 1]);
        }
    }
    at
}

/// A clearing out of the cache, entry by entry.
pub struct Eviction {
    entries: Vec<CacheEntry>,
    tried: usize,
    /// How many bytes have gone.
    gone: Ghost<int>,
    /// How many bytes are left.
    total: u128,
    capacity: u64,
}

impl Eviction {
    /// The entries, the least recently used first.
    pub closed spec fn entries(self) -> Seq<CacheEntry> {
        self.entries@
    }

    /// How many of them have been tried.
    pub closed spec fn tried(self) -> int {
        self.tried as int
    }

    /// How many bytes have gone.
    pub closed spec fn gone(self) -> int {
        self.gone@
    }

    /// How many bytes the cache may hold.
    pub closed spec fn capacity(self) -> int {
        self.capacity as int
    }

    /// How many bytes are left.
    pub open spec fn left(self) -> int {
        weight(self.entries()) - self.gone()
    }

    /// Whether more has to go, and there is more to try.
    pub open spec fn goes_on(self) -> bool {
        self.left() > self.capacity() && self.tried() < self.entries().len()
    }

    /// What holds between any two steps: only what was tried can be gone.
    pub closed spec fn wf(self) -> bool {
        &&& self.tried <= self.entries@.len()
        &&& 0 <= self.gone@ <= weight(self.entries@.take(self.tried as int))
        &&& self.total == weight(self.entries@) - self.gone@
    }

    /// The next entry to remove, or `None` when the cache fits or there is nothing
    /// left to try.
    pub fn next(&self) -> (path: Option<String>)
        requires
            self.wf(),
        ensures
            path is Some <==> self.goes_on(),
            path matches Some(p) ==> p@ == self.entries()[self.tried()].path@,
    {
        if self.total <= self.capacity as u128 || self.tried >= self.entries.len() {
            return None;
        }
        Some(self.entries[self.tried].path.clone())
    }

    /// Take in whether the entry could be removed.
    pub fn tell(&mut self, removed: bool)
        requires
            old(self).wf(),
            old(self).goes_on(),
        ensures
            final(self).wf(),
            final(self).entries() == old(self).entries(),
            final(self).capacity() == old(self).capacity(),
            final(self).tried() == old(self).tried() + 1,
            final(self).gone() == old(self).gone() + if removed {
                old(self).entries()[old(self).tried()].size as int
            } else {
                0
            },
    {
        let n: usize = self.entries.len();
        let size: u64 = self.entries[self.tried].size;
        proof {
            let k = self.tried as int;
            let next = self.entries@.take(k + 1);
            assert(next.drop_last() =~= self.entries@.take(k));
            lemma_weight_parts(self.entries@, k + 1);
            lemma_weight(self.entries@.skip(k + 1));
        }
        if removed {
            self.total = self.total - size as u128;
            self.gone = Ghost(self.gone@ + size);
        }
        assert(self.tried < n);
        self.tried += 1;
    }
}

/// A cache within its ceiling is left alone.
pub proof fn what_fits_is_left_alone(eviction: Eviction)
    requires
        eviction.gone() == 0,
        weight(eviction.entries()) <= eviction.capacity(),
    ensures
        !eviction.goes_on(),
{
}

/// What is removed was used no later than anything that stays.
pub proof fn the_least_recently_used_go_first(eviction: Eviction, entries: Seq<CacheEntry>, j: int)
    requires
        eviction.entries() == by_use(entries),
        eviction.goes_on(),
        0 <= eviction.tried() <= j < entries.len(),
    ensures
        eviction.entries()[eviction.tried()].used@ <= eviction.entries()[j].used@,
{
    ordering_by_use_keeps_the_entries(entries);
}

/// When it is over, the cache fits or everything was tried; and if everything
/// could be removed that was, it fits.
pub proof fn eviction_goes_on_until_it_fits(eviction: Eviction)
    requires
        eviction.wf(),
        !eviction.goes_on(),
    ensures
        eviction.left() <= eviction.capacity() || eviction.tried() == eviction.entries().len(),
        eviction.gone() == weight(eviction.entries().take(eviction.tried())) ==> eviction.left()
            <= eviction.capacity(),
{
    if eviction.tried() == eviction.entries().len() {
        assert(eviction.entries().take(eviction.tried()) =~= eviction.entries());
    }
}

/// An extraction under way is never mistaken for an entry, be it of another path.
pub proof fn a_partial_extraction_is_no_entry(
    cache: PreviewCache,
    archive: Seq<char>,
    path: Seq<char>,
    other_archive: Seq<char>,
    other_path: Seq<char>,
)
    ensures
        cache.partial(archive, path) != cache.entry(other_archive, other_path),
{
    reveal_strlit(".partial");
    lemma_hex_len(key(archive, path) as nat, 16);
    lemma_hex_len(key(other_archive, other_path) as nat, 16);
    let (a, b) = (hex(key(archive, path) as nat, 16), hex(key(other_archive, other_path) as nat, 16));
    lemma_hex_is_no_slash(key(archive, path) as nat, 16);
    lemma_hex_is_no_slash(key(other_archive, other_path) as nat, 16);
    assert(cache.entry(archive, path).len() == cache.entry(other_archive, other_path).len());
    assert(cache.partial(archive, path).len() == cache.entry(archive, path).len() + 8);
}

/// No digit is a slash.
proof fn lemma_hex_is_no_slash(n: nat, width: nat)
    ensures
        width > 0 ==> hex(n, width)[0] != '/',
        hex(n, width).len() == width,
    decreases width,
{
    lemma_hex_len(n, width);
    if width > 1 {
        lemma_hex_is_no_slash(n / 16, (width - 1) as nat);
        lemma_hex_len(n / 16, (width - 1) as nat);
    } else if width == 1 {
        assert(hex(n / 16, 0).len() == 0);
        let d = (n % 16) as int;
        assert(hex(n, 1)[0] == hex_digit(d));
    }
}

/// The steps of putting an extraction into the cache and handing it out.
#[derive(Debug, Clone, Copy, PartialEq, Eq, Structural)]
pub enum Step {
    /// See whether the extraction is there already.
    Look,
    /// Create the cache's directory.
    EnsureDir,
    /// Start the extraction.
    Extract,
    /// Create the file it is written to.
    Create,
    /// Copy it all, and have it on disk.
    Write,
    /// Rename it into place.
    Rename,
    /// Bring the cache back under its ceiling.
    Evict,
    /// Record that the entry has been used.
    Touch,
    /// Open the entry.
    Open,
}

/// How a step went.
#[derive(Debug, PartialEq, Eq)]
pub enum Report {
    /// Done; for a look, the extraction is there.
    Done,
    /// For a look, the extraction is not there.
    Missing,
    /// It failed, in the system's words.
    Failed(String),
    /// The engine failed, with what it says.
    EngineFailed(EngineError, String),
}

/// What follows in serving a preview.
#[derive(Debug, PartialEq, Eq)]
pub enum Next {
    /// Go on with this step.
    Do(Step),
    /// Hand out the open file.
    Serve,
    /// Remove what was written, and answer with the error.
    Discard(DaemonError),
    /// Answer with the error.
    Fail(DaemonError),
}

/// Whether a step has failed.
pub open spec fn failed(step: Step, report: Report) -> bool {
    report is Failed || (step == Step::Extract && report is EngineFailed)
}

/// The words of a failure.
pub open spec fn words_of(report: Report) -> Seq<char> {
    match report {
        Report::Failed(words) => words@,
        Report::EngineFailed(_, words) => words@,
        _ => Seq::empty(),
    }
}

/// The step after another one, where all goes well.
pub open spec fn step_after(step: Step) -> Option<Step> {
    match step {
        Step::Look => Some(Step::EnsureDir),
        Step::EnsureDir => Some(Step::Extract),
        Step::Extract => Some(Step::Create),
        Step::Create => Some(Step::Write),
        Step::Write => Some(Step::Rename),
        Step::Rename => Some(Step::Evict),
        Step::Evict => Some(Step::Touch),
        Step::Touch => Some(Step::Open),
        Step::Open => None,
    }
}

/// The step after another one, where all goes well.
fn following(step: Step) -> (next: Option<Step>)
    ensures
        next == step_after(step),
{
    match step {
        Step::Look => Some(Step::EnsureDir),
        Step::EnsureDir => Some(Step::Extract),
        Step::Extract => Some(Step::Create),
        Step::Create => Some(Step::Write),
        Step::Write => Some(Step::Rename),
        Step::Rename => Some(Step::Evict),
        Step::Evict => Some(Step::Touch),
        Step::Touch => Some(Step::Open),
        Step::Open => None,
    }
}

/// Whether `next` is what follows a step of serving the preview of `path` in
/// `archive`.
pub open spec fn serves(
    step: Step,
    report: Report,
    has_engine: bool,
    archive: Seq<char>,
    path: Seq<char>,
    next: Next,
) -> bool {
    let words = words_of(report);
    match step {
        Step::Look => if report is Done {
            next == Next::Do(Step::Touch)
        } else if has_engine {
            next == Next::Do(Step::EnsureDir)
        } else {
            next matches Next::Fail(error) && no_destination(error)
        },
        Step::EnsureDir | Step::Create | Step::Rename => if failed(step, report) {
            next matches Next::Fail(error) && error is LocalDiskFull && error.words() == words
        } else {
            next == Next::Do(step_after(step)->0)
        },
        Step::Extract => match report {
            Report::EngineFailed(cause, _) => next matches Next::Fail(error) && error.variant()
                == engine_variant(cause) && error.words() == words,
            Report::Failed(_) => next matches Next::Fail(error) && error is LocalDiskFull
                && error.words() == words,
            _ => next == Next::Do(Step::Create),
        },
        Step::Write => if failed(step, report) {
            next matches Next::Discard(error) && error is LocalDiskFull && error.words() == words
        } else {
            next == Next::Do(Step::Rename)
        },
        Step::Evict => next == Next::Do(Step::Touch),
        Step::Touch => next == Next::Do(Step::Open),
        Step::Open => if failed(step, report) {
            next matches Next::Fail(error) && error is NotFound && error.words() == path + " in "@
                + archive + " could not be opened: "@ + words
        } else {
            next == Next::Serve
        },
    }
}

/// Whether an error says that there is no destination yet.
pub open spec fn no_destination(error: DaemonError) -> bool {
    &&& error is NotConfigured
    &&& error.words()
        == "no backup destination is configured yet; run the setup wizard"@
}

/// The error for an operation that needs an engine when there is none.
pub fn without_engine() -> (error: DaemonError)
    ensures
        no_destination(error),
{
    DaemonError::NotConfigured(
        "no backup destination is configured yet; run the setup wizard".to_owned(),
    )
}

/// What follows a step of serving the preview of `path` in `archive`.
///
/// The extraction is written under another name and renamed into place once it
/// is whole, so one that broke off can never look like a hit. Losing a touch
/// or an eviction costs nothing that a request is worth failing over.
pub fn preview_file(
    step: Step,
    report: Report,
    has_engine: bool,
    archive: &str,
    path: &str,
) -> (next: Next)
    ensures
        serves(step, report, has_engine, archive@, path@, next),
{
    match step {
        Step::Look => {
            match report {
                Report::Done => Next::Do(Step::Touch),
                _ => {
                    if has_engine {
                        Next::Do(Step::EnsureDir)
                    } else {
                        Next::Fail(without_engine())
                    }
                },
            }
        },
        Step::EnsureDir => {
            match report {
                Report::Failed(words) => Next::Fail(DaemonError::LocalDiskFull(words)),
                _ => Next::Do(Step::Extract),
            }
        },
        Step::Extract => {
            match report {
                Report::EngineFailed(cause, words) => Next::Fail(
                    DaemonError::from_engine(&cause, words),
                ),
                Report::Failed(words) => Next::Fail(DaemonError::LocalDiskFull(words)),
                _ => Next::Do(Step::Create),
            }
        },
        Step::Create => {
            match report {
                Report::Failed(words) => Next::Fail(DaemonError::LocalDiskFull(words)),
                _ => Next::Do(Step::Write),
            }
        },
        Step::Write => {
            match report {
                Report::Failed(words) => Next::Discard(DaemonError::LocalDiskFull(words)),
                _ => Next::Do(Step::Rename),
            }
        },
        Step::Rename => {
            match report {
                Report::Failed(words) => Next::Fail(DaemonError::LocalDiskFull(words)),
                _ => Next::Do(Step::Evict),
            }
        },
        Step::Evict => Next::Do(Step::Touch),
        Step::Touch => Next::Do(Step::Open),
        Step::Open => {
            match report {
                Report::Failed(words) => {
                    let mut said = text::joined(path, " in ");
                    said.append(archive);
                    said.append(" could not be opened: ");
                    said.append(words.as_str());
                    Next::Fail(DaemonError::NotFound(said))
                },
                _ => Next::Serve,
            }
        },
    }
}

/// Only an extraction that was written whole is renamed into place.
pub proof fn only_a_whole_extraction_is_kept(
    step: Step,
    report: Report,
    has_engine: bool,
    archive: Seq<char>,
    path: Seq<char>,
)
    requires
        serves(step, report, has_engine, archive, path, Next::Do(Step::Rename)),
    ensures
        step == Step::Write,
        !failed(step, report),
{
}

/// What follows in preparing a comparison.
#[derive(Debug, PartialEq, Eq)]
pub enum Prepared {
    /// Go on with this step.
    Do(Step),
    /// The archived copy is in the cache.
    Ready,
    /// The job has failed.
    Fail(EngineError),
}

/// Whether `next` is what follows a step of preparing a comparison.
pub open spec fn prepares(step: Step, report: Report, next: Prepared) -> bool {
    match step {
        Step::Look => if report is Done {
            next is Ready
        } else {
            next == Prepared::Do(Step::EnsureDir)
        },
        Step::EnsureDir => next == Prepared::Do(Step::Extract),
        Step::Extract => match report {
            Report::EngineFailed(cause, _) => next == Prepared::Fail(cause),
            Report::Failed(words) => next matches Prepared::Fail(error) && unclassified_as(
                error,
                words@,
            ),
            _ => next == Prepared::Do(Step::Create),
        },
        Step::Create | Step::Write | Step::Rename => match report {
            Report::Failed(words) => next matches Prepared::Fail(error) && unclassified_as(
                error,
                words@,
            ),
            _ => next == Prepared::Do(step_after(step)->0),
        },
        Step::Evict | Step::Touch | Step::Open => next is Ready,
    }
}

/// What follows a step of putting the archived copy of a file into the cache, so
/// that it can be compared with the live one. A directory that cannot be made
/// shows when the file in it is created.
pub fn cache_extraction(step: Step, report: Report) -> (next: Prepared)
    ensures
        prepares(step, report, next),
{
    match step {
        Step::Look => {
            match report {
                Report::Done => Prepared::Ready,
                _ => Prepared::Do(Step::EnsureDir),
            }
        },
        Step::EnsureDir => Prepared::Do(Step::Extract),
        Step::Extract => {
            match report {
                Report::EngineFailed(cause, _) => Prepared::Fail(cause),
                Report::Failed(words) => Prepared::Fail(EngineError::unclassified(words)),
                _ => Prepared::Do(Step::Create),
            }
        },
        Step::Create | Step::Write | Step::Rename => {
            match report {
                Report::Failed(words) => Prepared::Fail(EngineError::unclassified(words)),
                _ => match following(step) {
                    Some(next) => Prepared::Do(next),
                    None => Prepared::Ready,
                },
            }
        },
        Step::Evict | Step::Touch | Step::Open => Prepared::Ready,
    }
}

/// The digits of a number are lower-case hexadecimal ones, as many as were asked
/// for, and two numbers have the same ones only if they are the same as far as
/// those digits go.
pub proof fn hexadecimal_digits_tell_numbers_apart(m: nat, n: nat, width: nat)
    ensures
        hex(n, width).len() == width,
        forall|i: int|
            0 <= i < width ==> ('0' <= #[trigger] hex(n, width)[i] <= '9') || ('a' <= hex(
                n,
                width,
            )[i] <= 'f'),
        width > 0 && hex(m, width) == hex(n, width) ==> m % 16 == n % 16 && hex(
            m / 16,
            (width - 1) as nat,
        ) == hex(n / 16, (width - 1) as nat),
    decreases width,
{
    if width > 0 {
        let less = (width - 1) as nat;
        hexadecimal_digits_tell_numbers_apart(m / 16, n / 16, less);
        lemma_hex_len(m / 16, less);
        lemma_hex_len(n / 16, less);
        let (x, y) = (hex(m, width), hex(n, width));
        assert(y.drop_last() =~= hex(n / 16, less));
        assert(x.drop_last() =~= hex(m / 16, less));
        assert(y.last() == hex_digit((n % 16) as int));
        assert(x.last() == hex_digit((m % 16) as int));
        assert forall|i: int| 0 <= i < width implies ('0' <= #[trigger] y[i] <= '9') || ('a' <= y[i]
            <= 'f') by {
            if i < less {
                assert(y[i] == hex(n / 16, less)[i]);
            } else {
                let d = (n % 16) as int;
                assert(y[i] == hex_digit(d));
            }
        }
        if x == y {
            let (c, d) = ((m % 16) as int, (n % 16) as int);
            assert(hex_digit(c) == hex_digit(d));
            assert(c == d);
        }
    }
}

/// Different keys are kept in different places.
pub proof fn keys_are_kept_apart(cache: PreviewCache, a: u64, b: u64)
    requires
        paths::after(cache.dir(), hex(a as nat, 16)) == paths::after(
            cache.dir(),
            hex(b as nat, 16),
        ),
    ensures
        a == b,
{
    lemma_hex_is_no_slash(a as nat, 16);
    lemma_hex_is_no_slash(b as nat, 16);
    let (x, y) = (hex(a as nat, 16), hex(b as nat, 16));
    paths::joining_keeps_both_parts(cache.dir(), x);
    paths::joining_keeps_both_parts(cache.dir(), y);
    assert(x == y);
    assert(sixteen_to(16) == 0x1_0000_0000_0000_0000) by {
        reveal_with_fuel(sixteen_to, 17);
    }
    lemma_hex_apart(a as nat, b as nat, 16);
}

/// How many numbers so many hexadecimal digits tell apart.
pub open spec fn sixteen_to(width: nat) -> nat
    decreases width,
{
    if width == 0 {
        1
    } else {
        16 * sixteen_to((width - 1) as nat)
    }
}

proof fn lemma_hex_apart(m: nat, n: nat, width: nat)
    requires
        hex(m, width) == hex(n, width),
        m < sixteen_to(width),
        n < sixteen_to(width),
    ensures
        m == n,
    decreases width,
{
    if width > 0 {
        hexadecimal_digits_tell_numbers_apart(m, n, width);
        lemma_hex_apart(m / 16, n / 16, (width - 1) as nat);
    }
}

/// The entries of the cache are the files in its directory: each once and in
/// order, with its own path and size, and used when it was last modified.
pub proof fn the_entries_are_the_files_found(entries: Seq<CacheEntry>, found: Seq<Found>)
    requires
        are_entries_of(entries, found),
    ensures
        ({
            let files = found.filter(|f: Found| f.meta is Some && f.meta->0.is_file);
            &&& entries.len() == files.len()
            &&& forall|i: int|
                0 <= i < entries.len() ==> {
                    &&& (#[trigger] entries[i]).path@ == files[i].path@
                    &&& entries[i].size == files[i].meta->0.size
                    &&& files[i].meta->0.modified matches Some(at) ==> entries[i].used@ == at@
                    &&& files[i].meta->0.modified is None ==> entries[i].used@ == 0
                }
        }),
    decreases found.len(),
{
    reveal(Seq::filter);
    let is_file = |f: Found| f.meta is Some && f.meta->0.is_file;
    if found.len() > 0 {
        let files = found.filter(is_file);
        let before = found.drop_last().filter(is_file);
        if is_file(found.last()) {
            the_entries_are_the_files_found(entries.drop_last(), found.drop_last());
            assert(files =~= before.push(found.last()));
            assert forall|i: int| 0 <= i < entries.len() implies {
                &&& (#[trigger] entries[i]).path@ == files[i].path@
                &&& entries[i].size == files[i].meta->0.size
                &&& files[i].meta->0.modified matches Some(at) ==> entries[i].used@ == at@
                &&& files[i].meta->0.modified is None ==> entries[i].used@ == 0
            } by {
                if i < entries.len() - 1 {
                    assert(entries.drop_last()[i] == entries[i]);
                    assert(files[i] == before[i]);
                }
            }
        } else {
            the_entries_are_the_files_found(entries, found.drop_last());
            assert(files =~= before);
        }
    }
}

/// The bytes of entries are added up one by one.
pub proof fn every_entry_weighs_its_size(entries: Seq<CacheEntry>, entry: CacheEntry)
    ensures
        weight(Seq::empty()) == 0,
        weight(entries.push(entry)) == weight(entries) + entry.size,
{
    assert(entries.push(entry).drop_last() =~= entries);
}

/// The steps of a preview come in their order. A file that is there already is
/// never extracted again, and nothing is extracted without an engine; what is
/// handed out has been opened; losing a touch or an eviction stops nothing.
pub proof fn a_preview_takes_its_steps_in_order(
    step: Step,
    report: Report,
    has_engine: bool,
    archive: Seq<char>,
    path: Seq<char>,
    next: Next,
)
    requires
        serves(step, report, has_engine, archive, path, next),
    ensures
        next == Next::Do(Step::EnsureDir) ==> step == Step::Look && !(report is Done) && has_engine,
        next == Next::Do(Step::Extract) ==> step == Step::EnsureDir && !(report is Failed),
        next == Next::Do(Step::Create) ==> step == Step::Extract && !(report is Failed) && !(report
            is EngineFailed),
        next == Next::Do(Step::Write) ==> step == Step::Create && !(report is Failed),
        next == Next::Do(Step::Rename) ==> step == Step::Write && !(report is Failed),
        next == Next::Do(Step::Evict) ==> step == Step::Rename && !(report is Failed),
        next == Next::Do(Step::Touch) ==> step == Step::Evict || (step == Step::Look && report
            is Done),
        next == Next::Do(Step::Open) ==> step == Step::Touch,
        next != Next::Do(Step::Look),
        next == Next::Serve <==> step == Step::Open && !(report is Failed),
        step == Step::Look && report is Done ==> next == Next::Do(Step::Touch),
        step == Step::Evict ==> next == Next::Do(Step::Touch),
        step == Step::Touch ==> next == Next::Do(Step::Open),
{
}

/// A preview that fails says why: there is no destination yet, the engine failed
/// in its own way, this computer could not take the file, or the file could not be
/// opened. What was half written is removed.
pub proof fn a_failed_preview_says_why(
    step: Step,
    report: Report,
    has_engine: bool,
    archive: Seq<char>,
    path: Seq<char>,
    next: Next,
)
    requires
        serves(step, report, has_engine, archive, path, next),
    ensures
        next is Discard <==> step == Step::Write && report is Failed,
        report matches Report::Failed(words) ==> (next matches Next::Fail(error) ==> error
            is NotConfigured || (error is LocalDiskFull && error.words() == words@) || (error
            is NotFound && step == Step::Open)),
        report matches Report::Failed(words) ==> (next matches Next::Discard(error) ==> error
            is LocalDiskFull && error.words() == words@),
        next matches Next::Fail(error) ==> (error is NotConfigured && step == Step::Look
            && !has_engine) || report is Failed || report is EngineFailed,
        step != Step::Look && !(report is Failed) && !(report is EngineFailed) ==> !(next is Fail)
            && !(next is Discard),
        step == Step::Look && has_engine ==> !(next is Fail) && !(next is Discard),
        step == Step::Look && !has_engine && !(report is Done) ==> next is Fail,
        report is Failed && (step == Step::EnsureDir || step == Step::Create || step
            == Step::Rename || step == Step::Extract || step == Step::Open) ==> next is Fail,
{
    if step == Step::Extract && report is EngineFailed {
        let cause = report->EngineFailed_0;
        assert(next is Fail);
    }
}

/// A comparison is ready once the archived copy is in the cache under its own name,
/// and not before; and it fails as its step did.
pub proof fn a_comparison_is_ready_once_it_is_in_the_cache(
    step: Step,
    report: Report,
    next: Prepared,
)
    requires
        prepares(step, report, next),
    ensures
        next is Ready <==> (step == Step::Look && report is Done) || step == Step::Evict || step
            == Step::Touch || step == Step::Open,
        next == Prepared::Do(Step::EnsureDir) ==> step == Step::Look && !(report is Done),
        next == Prepared::Do(Step::Extract) ==> step == Step::EnsureDir,
        next == Prepared::Do(Step::Create) ==> step == Step::Extract && !(report is Failed) && !(
        report is EngineFailed),
        next == Prepared::Do(Step::Write) ==> step == Step::Create && !(report is Failed),
        next == Prepared::Do(Step::Rename) ==> step == Step::Write && !(report is Failed),
        next == Prepared::Do(Step::Evict) ==> step == Step::Rename && !(report is Failed),
        report matches Report::EngineFailed(cause, _) ==> step == Step::Extract ==> next
            == Prepared::Fail(cause),
        report is Failed && (step == Step::Extract || step == Step::Create || step == Step::Write
            || step == Step::Rename) ==> next is Fail,
        next is Fail ==> report is Failed || report is EngineFailed,
{
}

} // verus!
