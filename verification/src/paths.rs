//! File paths, as text.

use vstd::prelude::*;

use crate::text;
#[allow(unused_imports)]
use crate::text::{begins, last_of, split};

verus! {

/// Whether a path is spelled plainly: from the root, without doubled or trailing
/// separators and without `.` among its components.
pub open spec fn is_plain(path: Seq<char>) -> bool {
    &&& path.len() > 1
    &&& path[0] == '/'
    &&& forall|i: int|
        0 < i < split(path, '/').len() ==> (#[trigger] split(path, '/')[i]).len() > 0 && split(
            path,
            '/',
        )[i] != seq!['.']
}

/// Whether a path is that of the root.
pub open spec fn is_root(path: Seq<char>) -> bool {
    path == seq!['/']
}

/// Whether a path is spelled plainly and ends in a name.
pub open spec fn ends_in_a_name(path: Seq<char>) -> bool {
    is_plain(path) && last_part(path) != seq!['.', '.']
}

/// The folder that a plainly spelled path names something in.
pub open spec fn folder(path: Seq<char>) -> Seq<char> {
    if last_of(path, '/') <= 0 {
        seq!['/']
    } else {
        path.take(last_of(path, '/'))
    }
}

/// What a plainly spelled path names in its folder.
pub open spec fn last_part(path: Seq<char>) -> Seq<char> {
    path.skip(last_of(path, '/') + 1)
}

/// Where a plainly spelled path is below another, or below the root.
pub open spec fn below(path: Seq<char>, base: Seq<char>) -> Option<Seq<char>> {
    if base == seq!['/'] {
        Some(path.skip(1))
    } else if path == base {
        Some(Seq::empty())
    } else if begins(path, base.push('/')) {
        Some(path.skip(base.len() as int + 1))
    } else {
        None
    }
}

/// A path put after another: an absolute one stands for itself, and otherwise
/// one separator comes between the two.
pub open spec fn after(base: Seq<char>, rest: Seq<char>) -> Seq<char> {
    if rest.len() > 0 && rest[0] == '/' {
        rest
    } else if base.len() == 0 || base.last() == '/' {
        base + rest
    } else {
        base + seq!['/'] + rest
    }
}

/// The path `rest` inside `base`.
pub fn join(base: &str, rest: &str) -> (path: String)
    ensures
        path@ == after(base@, rest@),
{
    if rest.unicode_len() > 0 && rest.get_char(0) == '/' {
        return rest.to_owned();
    }
    let size: usize = base.unicode_len();
    if size == 0 || base.get_char(size - 1) == '/' {
        return text::joined(base, rest);
    }
    let mut path = base.to_owned();
    path.push('/');
    path.append(rest);
    assert(path@ =~= after(base@, rest@));
    path
}

/// A catalogued path as it is on the disk: the catalogue leaves the leading
/// separator off.
pub fn from_root(path: &str) -> (absolute: String)
    ensures
        absolute@ == after(seq!['/'], path@),
{
    proof {
        reveal_strlit("/");
        assert("/"@ =~= seq!['/']);
    }
    join("/", path)
}

/// A path put after another begins with it and ends as it was, with one separator
/// between the two; one from the root stays what it is.
pub proof fn joining_keeps_both_parts(base: Seq<char>, rest: Seq<char>)
    ensures
        rest.len() > 0 && rest[0] == '/' ==> after(base, rest) == rest,
        !(rest.len() > 0 && rest[0] == '/') ==> {
            &&& begins(after(base, rest), base)
            &&& after(base, rest).skip(after(base, rest).len() - rest.len()) == rest
            &&& base.len() > 0 ==> after(base, rest)[after(base, rest).len() - rest.len() - 1]
                == '/'
            &&& after(base, rest).len() == base.len() + rest.len() + if base.len() == 0
                || base.last() == '/' {
                0int
            } else {
                1
            }
        },
{
    let whole = after(base, rest);
    if !(rest.len() > 0 && rest[0] == '/') {
        assert(whole.take(base.len() as int) =~= base);
        assert(whole.skip(whole.len() - rest.len()) =~= rest);
    }
}

/// What was put inside a folder is found below it at the same place, and a folder
/// is found below itself at none.
pub proof fn what_is_put_inside_is_found_below(base: Seq<char>, rest: Seq<char>)
    requires
        base.len() > 0,
        base == seq!['/'] || base.last() != '/',
        rest.len() > 0,
        rest[0] != '/',
    ensures
        below(after(base, rest), base) == Some(rest),
        base != seq!['/'] ==> below(base, base) == Some(Seq::<char>::empty()),
{
    let whole = after(base, rest);
    if base == seq!['/'] {
        assert(whole.skip(1) =~= rest);
    } else {
        assert(whole.take(base.len() as int + 1) =~= base.push('/'));
        assert(whole.skip(base.len() as int + 1) =~= rest);
    }
}

/// What is found below a folder was inside it: nothing that only begins like the
/// folder is.
pub proof fn what_is_below_is_inside(path: Seq<char>, base: Seq<char>)
    requires
        base != seq!['/'],
        below(path, base) is Some,
    ensures
        path == base || path == base + seq!['/'] + below(path, base)->0,
{
    if path != base {
        let n = base.len() as int;
        assert forall|i: int| 0 <= i <= n implies path[i] == base.push('/')[i] by {
            assert(path.take(n + 1)[i] == path[i]);
        }
        assert(path =~= base + seq!['/'] + path.skip(n + 1));
    }
}

/// A path without a doubled separator before its last part is its folder and that
/// part, with one separator between them.
pub proof fn a_path_is_its_folder_and_its_name(path: Seq<char>)
    requires
        path.len() > 0,
        path[0] == '/',
        last_of(path, '/') > 0 ==> path[last_of(path, '/') - 1] != '/',
    ensures
        after(folder(path), last_part(path)) == path,
        !last_part(path).contains('/'),
{
    text::lemma_last_of(path, '/');
    let k = last_of(path, '/');
    let name = last_part(path);
    assert(!name.contains('/')) by {
        assert forall|i: int| 0 <= i < name.len() implies name[i] != '/' by {
            assert(name[i] == path[k + 1 + i]);
        }
    }
    assert(name.len() > 0 ==> name[0] == path[k + 1]);
    if k > 0 {
        assert(path =~= path.take(k) + seq!['/'] + name);
    } else {
        assert(path =~= seq!['/'] + name);
    }
}

} // verus!
