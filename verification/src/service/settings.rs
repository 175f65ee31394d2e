//! The settings, addressed by dotted keys.
//!
//! Settings cross the bus as TOML: half of them are lists, which a dictionary of
//! strings cannot express without an escaping convention that both ends would
//! have to share. The file on disk is TOML already.

use vstd::prelude::*;

use crate::service::error::{DaemonError, Result};
use crate::service::state::quote;
#[allow(unused_imports)]
use crate::service::state::quoted;
use crate::text;
#[allow(unused_imports)]
use crate::text::{begins, split, views, without_prefixes, without_white_end};

verus! {

/// `toml::Value`: a TOML value, which may be a table of further values.
#[verifier::external_type_specification]
#[verifier::external_body]
pub struct ExValue(toml::Value);

/// A path into a document: the keys to follow from table to table.
pub type Path = Seq<Seq<char>>;

/// What printing gave: a text, or the words of the failure.
pub type Printed = core::result::Result<Seq<char>, Seq<char>>;

/// What a value holds: every path that leads to a value in it, and what is
/// printed of the document whose one key `v` has that value. The empty path leads
/// to the value itself.
pub uninterp spec fn contents(value: toml::Value) -> Map<Path, Printed>;

/// The part of some contents under a key.
pub open spec fn below(whole: Map<Path, Printed>, path: Path) -> Map<Path, Printed> {
    Map::new(|p: Path| whole.dom().contains(path + p), |p: Path| whole[path + p])
}

/// Whether there is a value at each place along a path.
pub open spec fn leads(whole: Map<Path, Printed>, path: Path) -> bool {
    forall|n: int| 0 < n <= path.len() ==> #[trigger] whole.dom().contains(path.take(n))
}

/// Whether a path begins with another.
pub open spec fn is_under(path: Path, start: Path) -> bool {
    start.len() <= path.len() && path.take(start.len() as int) == start
}

/// Whether `after` is `before` with the value at `path` replaced by one whose
/// contents are `new`. What is printed of the tables around it changes with it.
pub open spec fn replaced(
    before: Map<Path, Printed>,
    after: Map<Path, Printed>,
    path: Path,
    new: Map<Path, Printed>,
) -> bool {
    &&& forall|p: Path| #[trigger]
        after.dom().contains(p) <==> if is_under(p, path) {
            new.dom().contains(p.skip(path.len() as int))
        } else {
            before.dom().contains(p)
        }
    &&& forall|p: Path|
        #![trigger after[p]]
        after.dom().contains(p) && is_under(p, path) ==> after[p] == new[p.skip(path.len() as int)]
    &&& forall|p: Path|
        #![trigger after[p]]
        after.dom().contains(p) && !is_under(p, path) && !is_under(path, p) ==> after[p]
            == before[p]
}

/// `toml::Value::get` with a string: the value under a key of a table, with
/// everything in it; nothing where the value is no table or has no such key.
#[verifier::external_body]
fn get<'a>(value: &'a toml::Value, key: &str) -> (found: Option<&'a toml::Value>)
    ensures
        found is Some <==> contents(*value).dom().contains(seq![key@]),
        found matches Some(inner) ==> contents(*inner) == below(contents(*value), seq![key@]),
{
    value.get(key)
}

/// `toml::Value::get_mut` with a string, where there is a value under the key:
/// that value, and whatever becomes of it becomes of the part under the key.
#[verifier::external_body]
fn get_mut<'a>(value: &'a mut toml::Value, key: &str) -> (inner: &'a mut toml::Value)
    requires
        contents(*old(value)).dom().contains(seq![key@]),
    ensures
        contents(*inner) == below(contents(*old(value)), seq![key@]),
        replaced(
            contents(*old(value)),
            contents(*final(value)),
            seq![key@],
            contents(*final(inner)),
        ),
{
    value.get_mut(key).unwrap()
}

/// `toml::map::Map::insert` on the table that a value is: the new value stands
/// under the key, where there was one before, and nothing else changes.
#[verifier::external_body]
fn insert(value: &mut toml::Value, key: &str, new: toml::Value)
    requires
        contents(*old(value)).dom().contains(seq![key@]),
    ensures
        replaced(contents(*old(value)), contents(*final(value)), seq![key@], contents(new)),
{
    if let toml::Value::Table(table) = value {
        table.insert(key.to_string(), new);
    }
}

/// `toml::Value::clone`: a value with the same contents.
#[verifier::external_body]
fn copy(value: &toml::Value) -> (same: toml::Value)
    ensures
        contents(same) == contents(*value),
{
    value.clone()
}

/// What a text is as a TOML document, or the words in which it is refused.
pub uninterp spec fn document(text: Seq<char>) -> core::result::Result<
    Map<Path, Printed>,
    Seq<char>,
>;

/// `toml::from_str` into a `toml::Value`: the document a text spells, or why it
/// spells none; the same for the same text.
#[verifier::external_body]
fn parse(text: &str) -> (parsed: core::result::Result<toml::Value, String>)
    ensures
        match parsed {
            Ok(value) => document(text@) == Ok::<Map<Path, Printed>, Seq<char>>(contents(value)),
            Err(words) => document(text@) == Err::<Map<Path, Printed>, Seq<char>>(words@),
        },
{
    toml::from_str::<toml::Value>(text).map_err(|e| e.to_string())
}

/// What is printed of a whole document.
pub uninterp spec fn whole_text(value: toml::Value) -> Printed;

/// `toml::map::Map::from_iter` of one pair, as a `toml::Value`: the document whose
/// one key has the value, with everything in it. Where the key is `v`, what is
/// printed of this document is what the value's contents say is.
#[verifier::external_body]
fn under(key: &str, value: toml::Value) -> (table: toml::Value)
    ensures
        contents(table).dom().contains(seq![key@]),
        below(contents(table), seq![key@]) == contents(value),
        key@ == "v"@ ==> whole_text(table) == contents(value)[Seq::empty()],
{
    toml::Value::Table(toml::Table::from_iter([(key.to_string(), value)]))
}

/// `toml::to_string` of a document; the same for the same document.
#[verifier::external_body]
fn print(value: &toml::Value) -> (printed: core::result::Result<String, String>)
    ensures
        match printed {
            Ok(text) => whole_text(*value) == Ok::<Seq<char>, Seq<char>>(text@),
            Err(words) => whole_text(*value) == Err::<Seq<char>, Seq<char>>(words@),
        },
{
    toml::to_string(value).map_err(|e| e.to_string())
}

/// What stands to the right of `v = ` in a printed line.
pub open spec fn literal_in(line: Seq<char>) -> Seq<char> {
    without_white_end(without_prefixes(line, "v = "@))
}

/// What stands to the right of `v = ` in a printed line: the value as it would
/// appear in the file.
pub fn literal(line: &str) -> (value: String)
    ensures
        value@ == literal_in(line@),
{
    let chars = text::to_chars(line);
    let mut from: usize = 0;
    proof {
        reveal_strlit("v = ");
    }
    assert(chars@.skip(0) =~= line@);
    while chars.len() - from >= 4 && chars[from] == 'v' && chars[from + 1] == ' ' && chars[from + 2]
        == '=' && chars[from + 3] == ' '
        invariant
            from <= chars@.len(),
            "v = "@ == seq!['v', ' ', '=', ' '],
            without_prefixes(chars@.skip(from as int), "v = "@) == without_prefixes(
                line@,
                "v = "@,
            ),
        decreases chars@.len() - from,
    {
        proof {
            let rest = chars@.skip(from as int);
            assert(rest.take(4) =~= "v = "@);
            assert(rest.skip(4) =~= chars@.skip(from + 4));
        }
        from += 4;
    }
    proof {
        let rest = chars@.skip(from as int);
        if begins(rest, "v = "@) {
            assert(rest.take(4)[0] == 'v' && rest.take(4)[1] == ' ' && rest.take(4)[2] == '='
                && rest.take(4)[3] == ' ');
        }
    }
    let end: usize = text::white_end(&chars, from);
    text::from_chars(&chars, from, end)
}

/// Follow a path into a document.
fn follow<'a>(value: &'a toml::Value, path: &Vec<String>) -> (found: Option<&'a toml::Value>)
    ensures
        found is Some <==> leads(contents(*value), views(path@)),
        found matches Some(inner) ==> contents(*inner) == below(contents(*value), views(path@)),
{
    let ghost whole = contents(*value);
    let ghost keys = views(path@);
    let mut current = value;
    let mut i: usize = 0;
    assert(below(whole, keys.take(0)) =~= whole) by {
        assert forall|p: Path| keys.take(0) + p == p by {
            assert(keys.take(0) + p =~= p);
        }
    }
    while i < path.len()
        invariant
            i <= path@.len(),
            whole == contents(*value),
            keys == views(path@),
            contents(*current) == below(whole, keys.take(i as int)),
            forall|n: int| 0 < n <= i ==> #[trigger] whole.dom().contains(keys.take(n)),
        decreases path@.len() - i,
    {
        let ghost key = path@[i as int]@;
        proof {
            assert(keys.take(i as int) + seq![key] =~= keys.take(i + 1));
            assert(contents(*current).dom().contains(seq![key]) <==> whole.dom().contains(
                keys.take(i + 1),
            ));
        }
        match get(current, path[i].as_str()) {
            None => {
                return None;
            },
            Some(inner) => {
                proof {
                    assert(contents(*inner) =~= below(whole, keys.take(i + 1))) by {
                        assert forall|p: Path|
                            keys.take(i as int) + (seq![key] + p) == keys.take(i + 1) + p by {
                            assert(keys.take(i as int) + (seq![key] + p) =~= keys.take(i + 1) + p);
                        }
                    }
                }
                current = inner;
            },
        }
        i += 1;
    }
    assert(keys.take(i as int) =~= keys);
    Some(current)
}

/// What reading a setting gives.
pub open spec fn is_setting(
    whole: Map<Path, Printed>,
    key: Seq<char>,
    result: Result<String>,
) -> bool {
    let path = split(key, '.');
    if !leads(whole, path) {
        result matches Err(error) && error is UnknownConfigKey && error.words() == key
    } else {
        match whole[path] {
            Ok(line) => result matches Ok(value) && value@ == literal_in(line),
            Err(words) => result matches Err(error) && error is InvalidConfig && error.words()
                == words,
        }
    }
}

/// Read a setting by dotted key, as a TOML literal.
pub fn config_get(document: &toml::Value, key: &str) -> (result: Result<String>)
    ensures
        is_setting(contents(*document), key@, result),
{
    let path = text::split_at_each(key, '.');
    match follow(document, &path) {
        None => Err(DaemonError::UnknownConfigKey(key.to_owned())),
        Some(value) => {
            proof {
                let keys = views(path@);
                assert(keys + Seq::<Seq<char>>::empty() =~= keys);
                assert(keys.take(keys.len() as int) =~= keys);
                assert(contents(*document).dom().contains(keys.take(keys.len() as int)));
                assert(below(contents(*document), keys).dom().contains(Seq::empty()));
            }
            match print(&under("v", copy(value))) {
                Ok(line) => Ok(literal(line.as_str())),
                Err(words) => Err(DaemonError::InvalidConfig(words)),
            }
        },
    }
}

/// A replacement further in is a replacement.
proof fn lemma_replaced_within(
    before: Map<Path, Printed>,
    after: Map<Path, Printed>,
    key: Seq<char>,
    inner: Map<Path, Printed>,
    rest: Path,
    new: Map<Path, Printed>,
)
    requires
        replaced(before, after, seq![key], inner),
        replaced(below(before, seq![key]), inner, rest, new),
    ensures
        replaced(before, after, seq![key] + rest, new),
{
    let first = seq![key];
    let path = first + rest;
    assert forall|p: Path| is_under(p, first) && is_under(#[trigger] p.skip(1), rest) implies {
        &&& is_under(p, path)
        &&& p.skip(1).skip(rest.len() as int) == p.skip(path.len() as int)
    } by {
        let q = p.skip(1);
        assert(p =~= first + q) by {
            assert(p.take(1)[0] == p[0]);
        }
        assert(q =~= rest + q.skip(rest.len() as int));
        assert(p.take(path.len() as int) =~= path);
        assert(p.skip(1).skip(rest.len() as int) =~= p.skip(path.len() as int));
    }
    assert forall|p: Path| is_under(p, path) implies {
        &&& is_under(p, first)
        &&& is_under(#[trigger] p.skip(1), rest)
    } by {
        assert(p.take(1) =~= p.take(path.len() as int).take(1));
        assert(path.take(1) =~= first);
        assert(p.skip(1).take(rest.len() as int) =~= p.take(path.len() as int).skip(1));
        assert(path.skip(1) =~= rest);
    }
    assert forall|p: Path| is_under(p, first) implies first + #[trigger] p.skip(1) == p by {
        assert(p.take(1)[0] == p[0]);
        assert(first + p.skip(1) =~= p);
    }
    assert forall|p: Path| #[trigger]
        after.dom().contains(p) <==> if is_under(p, path) {
            new.dom().contains(p.skip(path.len() as int))
        } else {
            before.dom().contains(p)
        } by {
        if is_under(p, first) {
            let q = p.skip(1);
            assert(inner.dom().contains(q) <==> after.dom().contains(p));
            assert(below(before, first).dom().contains(q) <==> before.dom().contains(p));
        }
    }
    assert forall|p: Path|
        #![trigger after[p]]
        after.dom().contains(p) && is_under(p, path) implies after[p] == new[p.skip(
        path.len() as int,
    )] by {
        let q = p.skip(1);
        assert(inner.dom().contains(q));
        assert(after[p] == inner[q]);
    }
    assert forall|p: Path|
        #![trigger after[p]]
        after.dom().contains(p) && !is_under(p, path) && !is_under(path, p) implies after[p]
        == before[p] by {
        if is_under(p, first) {
            let q = p.skip(1);
            assert(after[p] == inner[q]);
            assert(inner.dom().contains(q));
            if is_under(rest, q) {
                assert(path.take(p.len() as int) =~= first + rest.take(q.len() as int));
            }
            assert(inner[q] == below(before, first)[q]);
        } else if is_under(first, p) {
            assert(p.len() == 0) by {
                if p.len() >= 1 {
                    assert(p =~= first);
                    assert(p.take(1) =~= first);
                }
            }
            assert(path.take(0) =~= p);
        }
    }
}

/// Put a value at the end of a path that leads to one.
fn put(value: &mut toml::Value, path: &Vec<String>, from: usize, new: toml::Value)
    requires
        from < path@.len(),
        leads(contents(*old(value)), views(path@).skip(from as int)),
    ensures
        replaced(
            contents(*old(value)),
            contents(*final(value)),
            views(path@).skip(from as int),
            contents(new),
        ),
    decreases path@.len() - from,
{
    let ghost before = contents(*value);
    let ghost keys = views(path@).skip(from as int);
    let ghost key = path@[from as int]@;
    proof {
        assert(keys.take(1) =~= seq![key]);
        assert(before.dom().contains(keys.take(1)));
    }
    if from == path.len() - 1 {
        assert(keys =~= seq![key]);
        insert(value, path[from].as_str(), new);
        return;
    }
    let ghost rest = views(path@).skip(from + 1);
    assert(keys =~= seq![key] + rest);
    let inner = get_mut(value, path[from].as_str());
    let ghost middle = contents(*inner);
    proof {
        assert forall|n: int| 0 < n <= rest.len() implies #[trigger] middle.dom().contains(
            rest.take(n),
        ) by {
            assert(seq![key] + rest.take(n) =~= keys.take(n + 1));
            assert(before.dom().contains(keys.take(n + 1)));
        }
    }
    put(inner, path, from + 1, new);
    proof {
        lemma_replaced_within(
            before,
            contents(*final(value)),
            key,
            contents(*inner),
            rest,
            contents(new),
        );
    }
}

/// Set a setting by dotted key from a TOML literal.
pub fn config_set(settings: toml::Value, key: &str, value: &str) -> (result: Result<toml::Value>)
    ensures
        is_edit(contents(settings), key@, value@, result),
{
    let line = text::joined("v = ", value);
    let parsed = match parse(line.as_str()) {
        Ok(parsed) => parsed,
        Err(words) => {
            return Err(no_toml_value(quote(value).as_str(), words.as_str()));
        },
    };
    let new = match get(&parsed, "v") {
        Some(new) => copy(new),
        None => {
            return Err(no_toml_value(quote(value).as_str(), "missing field `v`"));
        },
    };
    config_put(settings, key, new)
}

/// What putting a value with the contents `new` under `key` comes to: a key that
/// leads nowhere is refused; otherwise the value at the key is replaced and
/// everything beside it stays.
pub open spec fn is_put(
    whole: Map<Path, Printed>,
    key: Seq<char>,
    new: Map<Path, Printed>,
    result: Result<toml::Value>,
) -> bool {
    let path = split(key, '.');
    if !leads(whole, path) {
        result matches Err(error) && error is UnknownConfigKey && error.words() == key
    } else {
        result matches Ok(updated) && replaced(whole, contents(updated), path, new)
    }
}

/// Put a value under a dotted key. A key that does not exist is refused and not
/// invented: accepting it would let a typo look as if it had worked.
pub fn config_put(settings: toml::Value, key: &str, new: toml::Value) -> (result: Result<
    toml::Value,
>)
    ensures
        is_put(contents(settings), key@, contents(new), result),
{
    let path = text::split_at_each(key, '.');
    if follow(&settings, &path).is_none() {
        return Err(DaemonError::UnknownConfigKey(key.to_owned()));
    }
    let mut updated = settings;
    assert(views(path@).skip(0) =~= views(path@));
    put(&mut updated, &path, 0, new);
    Ok(updated)
}

/// Whether an error says that a text, printed as `printed`, is no TOML value.
pub open spec fn is_no_toml_value(
    error: DaemonError,
    printed: Seq<char>,
    words: Seq<char>,
) -> bool {
    &&& error is InvalidArgument
    &&& error.words() == printed + " is not a TOML value: "@ + words
}

/// The error for a text that is no TOML value.
pub fn no_toml_value(printed: &str, words: &str) -> (error: DaemonError)
    ensures
        is_no_toml_value(error, printed@, words@),
{
    let mut said = text::joined(printed, " is not a TOML value: ");
    said.append(words);
    DaemonError::InvalidArgument(said)
}

/// What setting `key` to `value` comes to: a value that is no TOML is refused, and
/// otherwise what it spells is put under the key.
pub open spec fn is_edit(
    whole: Map<Path, Printed>,
    key: Seq<char>,
    value: Seq<char>,
    result: Result<toml::Value>,
) -> bool {
    match document("v = "@ + value) {
        Err(words) => result matches Err(error) && is_no_toml_value(error, quoted(value), words),
        Ok(line) => if !line.dom().contains(seq!["v"@]) {
            result matches Err(error) && is_no_toml_value(
                error,
                quoted(value),
                "missing field `v`"@,
            )
        } else {
            is_put(whole, key, below(line, seq!["v"@]), result)
        },
    }
}

/// An edit changes what it names and nothing beside it: of every other setting
/// the same is read before and after.
pub proof fn an_edit_leaves_everything_else_alone(
    whole: Map<Path, Printed>,
    key: Seq<char>,
    value: Seq<char>,
    updated: toml::Value,
    other: Seq<char>,
    result: Result<String>,
)
    requires
        is_edit(whole, key, value, Ok(updated)),
        !is_under(split(other, '.'), split(key, '.')),
        !is_under(split(key, '.'), split(other, '.')),
    ensures
        is_setting(whole, other, result) <==> is_setting(contents(updated), other, result),
{
    let (path, wanted) = (split(key, '.'), split(other, '.'));
    let after = contents(updated);
    assert forall|n: int| 0 < n <= wanted.len() implies (#[trigger] whole.dom().contains(
        wanted.take(n),
    ) <==> after.dom().contains(wanted.take(n))) by {
        let p = wanted.take(n);
        if is_under(p, path) {
            assert(wanted.take(path.len() as int) =~= p.take(path.len() as int));
        }
    }
    assert(leads(whole, wanted) <==> leads(after, wanted)) by {
        if leads(whole, wanted) {
            assert forall|n: int| 0 < n <= wanted.len() implies #[trigger] after.dom().contains(
                wanted.take(n),
            ) by {
                assert(whole.dom().contains(wanted.take(n)));
            }
        }
        if leads(after, wanted) {
            assert forall|n: int| 0 < n <= wanted.len() implies #[trigger] whole.dom().contains(
                wanted.take(n),
            ) by {
                assert(after.dom().contains(wanted.take(n)));
            }
        }
    }
    assert(wanted.take(wanted.len() as int) =~= wanted);
    lemma_split_is_something(other, '.');
    if leads(whole, wanted) {
        assert(after.dom().contains(wanted.take(wanted.len() as int)));
        assert(after[wanted] == whole[wanted]);
    }
}

/// Splitting a text gives a part at least.
proof fn lemma_split_is_something(s: Seq<char>, c: char)
    ensures
        split(s, c).len() > 0,
{
}

/// What was set is what is read: of an edited setting, the literal of the new
/// value.
pub proof fn what_was_set_is_read(
    whole: Map<Path, Printed>,
    key: Seq<char>,
    value: Seq<char>,
    updated: toml::Value,
    result: Result<String>,
)
    requires
        is_edit(whole, key, value, Ok(updated)),
        is_setting(contents(updated), key, result),
    ensures
        document("v = "@ + value) is Ok,
        match document("v = "@ + value)->Ok_0[seq!["v"@]] {
            Ok(line) => result matches Ok(read) && read@ == literal_in(line),
            Err(words) => result matches Err(error) && error is InvalidConfig && error.words()
                == words,
        },
{
    let path = split(key, '.');
    let after = contents(updated);
    let line = document("v = "@ + value)->Ok_0;
    let new = below(line, seq!["v"@]);
    lemma_split_is_something(key, '.');
    assert(path.take(path.len() as int) =~= path);
    assert(path.skip(path.len() as int) =~= Seq::<Seq<char>>::empty());
    assert(seq!["v"@] + Seq::<Seq<char>>::empty() =~= seq!["v"@]);
    assert forall|n: int| 0 < n <= path.len() implies #[trigger] after.dom().contains(
        path.take(n),
    ) by {
        if n < path.len() {
            assert(whole.dom().contains(path.take(n)));
            assert(!is_under(path.take(n), path));
        }
    }
    assert(after.dom().contains(path.take(path.len() as int)));
    assert(after[path] == new[Seq::empty()]);
}

/// A document as the text of a file.
pub fn config_text(settings: &toml::Value) -> (result: Result<String>)
    ensures
        match whole_text(*settings) {
            Ok(text) => result matches Ok(printed) && printed@ == text,
            Err(words) => result matches Err(error) && error is InvalidConfig && error.words()
                == words,
        },
{
    match print(settings) {
        Ok(text) => Ok(text),
        Err(words) => Err(DaemonError::InvalidConfig(words)),
    }
}

/// Whether an edited document is accepted, from what reading it against the
/// schema gave: the keys the schema does not know, or the words of its refusal.
/// The whole document is held to the schema, so an edit that makes an impossible
/// configuration is refused as a unit.
pub fn accepted(read: core::result::Result<Vec<String>, String>) -> (result: Result<()>)
    ensures
        match read {
            Err(words) => result matches Err(error) && error is InvalidConfig && error.words()
                == words@,
            Ok(unknown) => if unknown@.len() > 0 {
                result matches Err(error) && error is UnknownConfigKey && error.words()
                    == text::with_between(unknown@, ", "@)
            } else {
                result is Ok
            },
        },
{
    match read {
        Err(words) => Err(DaemonError::InvalidConfig(words)),
        Ok(unknown) => {
            if unknown.len() > 0 {
                Err(DaemonError::UnknownConfigKey(text::join_all(&unknown, ", ")))
            } else {
                Ok(())
            }
        },
    }
}

/// A key that leads nowhere is refused by its name, for reading and for writing,
/// and one that leads somewhere is not; a value that spells no TOML is refused
/// before the key is looked at.
pub proof fn a_key_that_leads_nowhere_is_refused(
    whole: Map<Path, Printed>,
    key: Seq<char>,
    value: Seq<char>,
    read: Result<String>,
    written: Result<toml::Value>,
)
    requires
        is_setting(whole, key, read),
        is_edit(whole, key, value, written),
    ensures
        (read matches Err(error) && error is UnknownConfigKey) <==> exists|n: int|
            0 < n <= split(key, '.').len() && !#[trigger] whole.dom().contains(
                split(key, '.').take(n),
            ),
        read matches Err(error) ==> error is UnknownConfigKey ==> error.words() == key,
        (written matches Err(error) && error is InvalidArgument) <==> (document("v = "@ + value)
            is Err || !document("v = "@ + value)->Ok_0.dom().contains(seq!["v"@])),
        (written matches Err(error) && error is UnknownConfigKey) <==> !(written matches Err(
            error,
        ) && error is InvalidArgument) && (read matches Err(error) && error is UnknownConfigKey),
        written is Ok <==> !(written matches Err(error) && (error is InvalidArgument || error
            is UnknownConfigKey)),
        written matches Err(error) ==> error is UnknownConfigKey ==> error.words() == key,
{
}

/// What is read of a setting is what stands to the right of the sign, without the
/// white space after it.
pub proof fn a_literal_is_what_follows_the_sign(value: Seq<char>, white: Seq<char>)
    requires
        value.len() > 0,
        !begins(value + white, "v = "@),
        !text::white(value.last()),
        forall|i: int| 0 <= i < white.len() ==> text::white(#[trigger] white[i]),
    ensures
        literal_in("v = "@ + value + white) == value,
{
    reveal_strlit("v = ");
    let sign = "v = "@;
    let line = sign + value + white;
    assert(line.take(4) =~= sign);
    assert(line.skip(4) =~= value + white);
    reveal_with_fuel(without_prefixes, 2);
    lemma_white_goes(value, white);
}

/// White space at the end goes.
proof fn lemma_white_goes(value: Seq<char>, white: Seq<char>)
    requires
        value.len() > 0,
        !text::white(value.last()),
        forall|i: int| 0 <= i < white.len() ==> text::white(#[trigger] white[i]),
    ensures
        without_white_end(value + white) == value,
    decreases white.len(),
{
    if white.len() == 0 {
        assert(value + white =~= value);
    } else {
        let less = white.drop_last();
        assert forall|i: int| 0 <= i < less.len() implies text::white(#[trigger] less[i]) by {
            assert(less[i] == white[i]);
        }
        lemma_white_goes(value, less);
        assert((value + white).drop_last() =~= value + less);
        assert((value + white).last() == white[white.len() - 1]);
    }
}

} // verus!
